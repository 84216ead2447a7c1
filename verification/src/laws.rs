//! The laws the library states about itself, beyond the contracts of the
//! individual functions: the report is a function of the coverage mapping
//! alone, every line of a retained statement's range is registered in the
//! aggregated coverage, truncation is idempotent and bounds every count by
//! one, and adding ignore patterns removes exactly the ignored files'
//! entries. The merge laws, commutativity and associativity, stand beside the
//! merge itself in [`crate::project_coverage`]; the filter's monotonicity in
//! its inclusion options stands beside the filter.
use crate::file_coverage::afile_add;
use crate::file_coverage::afile_map_of;
use crate::file_coverage::afile_sorted;
use crate::file_coverage::aindex_of_name;
use crate::file_coverage::lemma_afile_map_of_contains;
use crate::file_coverage::lemma_aindex_of_name;
use crate::file_coverage::map_file_truncate;
use crate::file_coverage::AFile;
use crate::function_coverage::counts_map_of;
use crate::function_coverage::counts_sorted;
use crate::function_coverage::index_of_key;
use crate::function_coverage::lemma_counts_map_of_contains;
use crate::function_coverage::lemma_index_of_key;
use crate::function_coverage::map_truncate_counts;
use crate::function_coverage::min_one;
use crate::lcov::lcov_project;
use crate::project_coverage::aproject_add;
use crate::project_coverage::aproject_map_of;
use crate::project_coverage::aproject_sorted;
use crate::project_coverage::lemma_aproject_map_of_contains;
use crate::project_coverage::lemma_pindex_of_path;
use crate::project_coverage::map_project_truncate;
use crate::project_coverage::pindex_of_path;
use crate::project_coverage::AProject;
use crate::project_coverage::ProjectCoverage;
use crate::project_coverage::ProjectMap;
use crate::text::lemma_lex_lt_asymmetric;
use crate::text::lex_lt;
use vstd::prelude::*;

verus! {

/// Sorted count entries are determined by the mapping they denote.
pub proof fn lemma_counts_canonical(a: Seq<(u64, u64)>, b: Seq<(u64, u64)>)
    requires
        counts_sorted(a),
        counts_sorted(b),
        counts_map_of(a) =~= counts_map_of(b),
    ensures
        a =~= b,
    decreases a.len(),
{
    if a.len() == 0 && b.len() == 0 {
    } else if a.len() == 0 {
        lemma_counts_map_of_contains(b, 0);
        lemma_index_of_key(a, b[0].0);
        assert(counts_map_of(a).dom().contains(b[0].0));
        assert(false);
    } else if b.len() == 0 {
        lemma_counts_map_of_contains(a, 0);
        lemma_index_of_key(b, a[0].0);
        assert(false);
    } else {
        lemma_counts_map_of_contains(a, 0);
        lemma_counts_map_of_contains(b, 0);
        lemma_index_of_key(b, a[0].0);
        lemma_index_of_key(a, b[0].0);
        let ia = index_of_key(b, a[0].0);
        assert(ia >= 0);
        assert(b[0].0 <= b[ia].0);
        let ib = index_of_key(a, b[0].0);
        assert(ib >= 0);
        assert(a[0].0 <= a[ib].0);
        assert(a[0].0 == b[0].0);
        assert(index_of_key(a, a[0].0) == 0);
        assert(index_of_key(b, b[0].0) == 0);
        assert(a[0].1 == b[0].1);
        assert forall|q: u64|
            #![trigger counts_map_of(a.skip(1)).dom().contains(q)]
            #![trigger counts_map_of(b.skip(1)).dom().contains(q)]
            counts_map_of(a.skip(1)).dom().contains(q) == counts_map_of(
                b.skip(1),
            ).dom().contains(q) && (counts_map_of(a.skip(1)).dom().contains(q)
            ==> counts_map_of(a.skip(1))[q] == counts_map_of(b.skip(1))[q]) by {
            lemma_index_of_key(a, q);
            lemma_index_of_key(b, q);
            lemma_index_of_key(a.skip(1), q);
            lemma_index_of_key(b.skip(1), q);
            if q == a[0].0 {
                if index_of_key(a.skip(1), q) >= 0 {
                    let w = index_of_key(a.skip(1), q);
                    assert(a[w + 1].0 == q);
                    assert(a[0].0 < a[w + 1].0);
                    assert(false);
                }
                if index_of_key(b.skip(1), q) >= 0 {
                    let w = index_of_key(b.skip(1), q);
                    assert(b[w + 1].0 == q);
                    assert(false);
                }
            } else {
                if index_of_key(a.skip(1), q) >= 0 {
                    let w = index_of_key(a.skip(1), q);
                    assert(a.skip(1)[w] == a[w + 1]);
                    lemma_counts_map_of_contains(a, w + 1);
                    lemma_counts_map_of_contains(a.skip(1), w);
                }
                if index_of_key(b.skip(1), q) >= 0 {
                    let w = index_of_key(b.skip(1), q);
                    assert(b.skip(1)[w] == b[w + 1]);
                    lemma_counts_map_of_contains(b, w + 1);
                    lemma_counts_map_of_contains(b.skip(1), w);
                }
                if index_of_key(a, q) >= 0 {
                    let w = index_of_key(a, q);
                    assert(w > 0);
                    assert(a.skip(1)[w - 1] == a[w]);
                    lemma_counts_map_of_contains(a, w);
                    lemma_counts_map_of_contains(a.skip(1), w - 1);
                }
                if index_of_key(b, q) >= 0 {
                    let w = index_of_key(b, q);
                    assert(w > 0);
                    assert(b.skip(1)[w - 1] == b[w]);
                    lemma_counts_map_of_contains(b, w);
                    lemma_counts_map_of_contains(b.skip(1), w - 1);
                }
            }
        }
        assert(counts_map_of(a.skip(1)).dom() =~= counts_map_of(b.skip(1)).dom());
        assert(counts_map_of(a.skip(1)) =~= counts_map_of(b.skip(1)));
        lemma_counts_canonical(a.skip(1), b.skip(1));
        assert(a =~= seq![a[0]] + a.skip(1));
        assert(b =~= seq![b[0]] + b.skip(1));
    }
}

/// Sorted file entries are determined by the mapping they denote.
pub proof fn lemma_afile_canonical(a: AFile, b: AFile)
    requires
        afile_sorted(a),
        afile_sorted(b),
        afile_map_of(a) =~~= afile_map_of(b),
    ensures
        a =~= b,
    decreases a.len(),
{
    if a.len() == 0 && b.len() == 0 {
    } else if a.len() == 0 {
        lemma_afile_map_of_contains(b, 0);
        lemma_aindex_of_name(a, b[0].0);
        assert(false);
    } else if b.len() == 0 {
        lemma_afile_map_of_contains(a, 0);
        lemma_aindex_of_name(b, a[0].0);
        assert(false);
    } else {
        lemma_afile_map_of_contains(a, 0);
        lemma_afile_map_of_contains(b, 0);
        lemma_aindex_of_name(b, a[0].0);
        lemma_aindex_of_name(a, b[0].0);
        let ia = aindex_of_name(b, a[0].0);
        assert(ia >= 0);
        if ia > 0 {
            assert(lex_lt(b[0].0, b[ia].0));
        }
        let ib = aindex_of_name(a, b[0].0);
        assert(ib >= 0);
        if ib > 0 {
            assert(lex_lt(a[0].0, a[ib].0));
        }
        assert(a[0].0 == b[0].0) by {
            if ia > 0 && ib > 0 {
                lemma_lex_lt_asymmetric(b[0].0, b[ia].0);
                assert(false);
            }
        }
        assert(aindex_of_name(a, a[0].0) == 0);
        assert(aindex_of_name(b, b[0].0) == 0);
        assert(counts_map_of(a[0].1) =~= counts_map_of(b[0].1));
        lemma_counts_canonical(a[0].1, b[0].1);
        assert forall|q: Seq<char>|
            #![trigger afile_map_of(a.skip(1)).dom().contains(q)]
            #![trigger afile_map_of(b.skip(1)).dom().contains(q)]
            afile_map_of(a.skip(1)).dom().contains(q) == afile_map_of(
                b.skip(1),
            ).dom().contains(q) && (afile_map_of(a.skip(1)).dom().contains(q) ==> afile_map_of(
            a.skip(1),
        )[q] =~= afile_map_of(b.skip(1))[q]) by {
            lemma_aindex_of_name(a, q);
            lemma_aindex_of_name(b, q);
            lemma_aindex_of_name(a.skip(1), q);
            lemma_aindex_of_name(b.skip(1), q);
            if q == a[0].0 {
                if aindex_of_name(a.skip(1), q) >= 0 {
                    let w = aindex_of_name(a.skip(1), q);
                    assert(a[w + 1].0 == q);
                    assert(lex_lt(a[0].0, a[w + 1].0));
                    lemma_lex_lt_irreflexive_local(q);
                    assert(false);
                }
                if aindex_of_name(b.skip(1), q) >= 0 {
                    let w = aindex_of_name(b.skip(1), q);
                    assert(b[w + 1].0 == q);
                    assert(lex_lt(b[0].0, b[w + 1].0));
                    lemma_lex_lt_irreflexive_local(q);
                    assert(false);
                }
            } else {
                if aindex_of_name(a.skip(1), q) >= 0 {
                    let w = aindex_of_name(a.skip(1), q);
                    assert(a.skip(1)[w] == a[w + 1]);
                    lemma_afile_map_of_contains(a, w + 1);
                    lemma_afile_map_of_contains(a.skip(1), w);
                }
                if aindex_of_name(b.skip(1), q) >= 0 {
                    let w = aindex_of_name(b.skip(1), q);
                    assert(b.skip(1)[w] == b[w + 1]);
                    lemma_afile_map_of_contains(b, w + 1);
                    lemma_afile_map_of_contains(b.skip(1), w);
                }
                if aindex_of_name(a, q) >= 0 {
                    let w = aindex_of_name(a, q);
                    assert(w > 0);
                    assert(a.skip(1)[w - 1] == a[w]);
                    lemma_afile_map_of_contains(a, w);
                    lemma_afile_map_of_contains(a.skip(1), w - 1);
                }
                if aindex_of_name(b, q) >= 0 {
                    let w = aindex_of_name(b, q);
                    assert(w > 0);
                    assert(b.skip(1)[w - 1] == b[w]);
                    lemma_afile_map_of_contains(b, w);
                    lemma_afile_map_of_contains(b.skip(1), w - 1);
                }
            }
        }
        assert(afile_map_of(a.skip(1)).dom() =~= afile_map_of(b.skip(1)).dom());
        assert(afile_map_of(a.skip(1)) =~~= afile_map_of(b.skip(1)));
        lemma_afile_canonical(a.skip(1), b.skip(1));
        assert(a =~= seq![a[0]] + a.skip(1));
        assert(b =~= seq![b[0]] + b.skip(1));
    }
}

proof fn lemma_lex_lt_irreflexive_local(a: Seq<char>)
    ensures
        !lex_lt(a, a),
    decreases a.len(),
{
    if a.len() > 0 {
        lemma_lex_lt_irreflexive_local(a.skip(1));
    }
}

/// Sorted project entries are determined by the mapping they denote.
pub proof fn lemma_aproject_canonical(a: AProject, b: AProject)
    requires
        aproject_sorted(a),
        aproject_sorted(b),
        aproject_map_of(a) =~~= aproject_map_of(b),
    ensures
        a =~= b,
    decreases a.len(),
{
    if a.len() == 0 && b.len() == 0 {
    } else if a.len() == 0 {
        lemma_aproject_map_of_contains(b, 0);
        lemma_pindex_of_path(a, b[0].0);
        assert(false);
    } else if b.len() == 0 {
        lemma_aproject_map_of_contains(a, 0);
        lemma_pindex_of_path(b, a[0].0);
        assert(false);
    } else {
        lemma_aproject_map_of_contains(a, 0);
        lemma_aproject_map_of_contains(b, 0);
        lemma_pindex_of_path(b, a[0].0);
        lemma_pindex_of_path(a, b[0].0);
        let ia = pindex_of_path(b, a[0].0);
        assert(ia >= 0);
        if ia > 0 {
            assert(lex_lt(b[0].0, b[ia].0));
        }
        let ib = pindex_of_path(a, b[0].0);
        assert(ib >= 0);
        if ib > 0 {
            assert(lex_lt(a[0].0, a[ib].0));
        }
        assert(a[0].0 == b[0].0) by {
            if ia > 0 && ib > 0 {
                lemma_lex_lt_asymmetric(b[0].0, b[ia].0);
                assert(false);
            }
        }
        assert(pindex_of_path(a, a[0].0) == 0);
        assert(pindex_of_path(b, b[0].0) == 0);
        assert(afile_map_of(a[0].1) =~~= afile_map_of(b[0].1));
        lemma_afile_canonical(a[0].1, b[0].1);
        assert forall|q: Seq<char>|
            #![trigger aproject_map_of(a.skip(1)).dom().contains(q)]
            #![trigger aproject_map_of(b.skip(1)).dom().contains(q)]
            aproject_map_of(a.skip(1)).dom().contains(q) == aproject_map_of(
                b.skip(1),
            ).dom().contains(q) && (aproject_map_of(a.skip(1)).dom().contains(q)
            ==> aproject_map_of(a.skip(1))[q] =~~= aproject_map_of(b.skip(1))[q]) by {
            lemma_pindex_of_path(a, q);
            lemma_pindex_of_path(b, q);
            lemma_pindex_of_path(a.skip(1), q);
            lemma_pindex_of_path(b.skip(1), q);
            if q == a[0].0 {
                if pindex_of_path(a.skip(1), q) >= 0 {
                    let w = pindex_of_path(a.skip(1), q);
                    assert(a[w + 1].0 == q);
                    assert(lex_lt(a[0].0, a[w + 1].0));
                    lemma_lex_lt_irreflexive_local(q);
                    assert(false);
                }
                if pindex_of_path(b.skip(1), q) >= 0 {
                    let w = pindex_of_path(b.skip(1), q);
                    assert(b[w + 1].0 == q);
                    assert(lex_lt(b[0].0, b[w + 1].0));
                    lemma_lex_lt_irreflexive_local(q);
                    assert(false);
                }
            } else {
                if pindex_of_path(a.skip(1), q) >= 0 {
                    let w = pindex_of_path(a.skip(1), q);
                    assert(a.skip(1)[w] == a[w + 1]);
                    lemma_aproject_map_of_contains(a, w + 1);
                    lemma_aproject_map_of_contains(a.skip(1), w);
                }
                if pindex_of_path(b.skip(1), q) >= 0 {
                    let w = pindex_of_path(b.skip(1), q);
                    assert(b.skip(1)[w] == b[w + 1]);
                    lemma_aproject_map_of_contains(b, w + 1);
                    lemma_aproject_map_of_contains(b.skip(1), w);
                }
                if pindex_of_path(a, q) >= 0 {
                    let w = pindex_of_path(a, q);
                    assert(w > 0);
                    assert(a.skip(1)[w - 1] == a[w]);
                    lemma_aproject_map_of_contains(a, w);
                    lemma_aproject_map_of_contains(a.skip(1), w - 1);
                }
                if pindex_of_path(b, q) >= 0 {
                    let w = pindex_of_path(b, q);
                    assert(w > 0);
                    assert(b.skip(1)[w - 1] == b[w]);
                    lemma_aproject_map_of_contains(b, w);
                    lemma_aproject_map_of_contains(b.skip(1), w - 1);
                }
            }
        }
        assert(aproject_map_of(a.skip(1)).dom() =~= aproject_map_of(b.skip(1)).dom());
        assert(aproject_map_of(a.skip(1)) =~~= aproject_map_of(b.skip(1)));
        lemma_aproject_canonical(a.skip(1), b.skip(1));
        assert(a =~= seq![a[0]] + a.skip(1));
        assert(b =~= seq![b[0]] + b.skip(1));
    }
}

/// The report is a function of the coverage mapping alone: two well-formed
/// project coverages that denote the same mapping render to the same text,
/// byte for byte. With the pipeline's fixed orderings this makes the whole
/// run deterministic.
pub proof fn lemma_report_deterministic(a: &ProjectCoverage, b: &ProjectCoverage)
    requires
        a.wf(),
        b.wf(),
        a@ =~~= b@,
    ensures
        lcov_project(a.abs()) == lcov_project(b.abs()),
{
    lemma_aproject_canonical(a.abs(), b.abs());
}

/// The aggregated coverage knows a line of a function of a file: the path is
/// mapped, the function is mapped inside it, and the line is mapped inside
/// the function.
pub open spec fn project_registers(
    p: AProject,
    path: Seq<char>,
    name: Seq<char>,
    line: u64,
) -> bool {
    &&& aproject_map_of(p).dom().contains(path)
    &&& aproject_map_of(p)[path].dom().contains(name)
    &&& aproject_map_of(p)[path][name].dom().contains(line)
}

/// One point addition registers its line and keeps everything registered
/// before.
proof fn lemma_aproject_add_registers(
    p: AProject,
    path: Seq<char>,
    name: Seq<char>,
    line: u64,
    v: u64,
)
    requires
        aproject_sorted(p),
    ensures
        aproject_sorted(aproject_add(p, path, name, line, v)),
        project_registers(aproject_add(p, path, name, line, v), path, name, line),
        forall|qp: Seq<char>, qn: Seq<char>, ql: u64|
            project_registers(p, qp, qn, ql) ==> #[trigger] project_registers(
                aproject_add(p, path, name, line, v),
                qp,
                qn,
                ql,
            ),
{
    let single_counts: Seq<(u64, u64)> = seq![(line, v)];
    let single: AFile = seq![(name, single_counts)];
    crate::project_coverage::lemma_aproject_add_is_merge_single(p, path, name, line, v);
    assert(afile_sorted(single));
    crate::project_coverage::lemma_aproject_merge_entry_sorted(p, path, single);
    crate::project_coverage::lemma_aproject_merge_entry_map(p, path, single);
    let r = aproject_add(p, path, name, line, v);
    assert(aindex_of_name(single, name) == 0);
    assert(index_of_key(single_counts, line) == 0);
    let single_map = afile_map_of(single);
    assert(single_map.dom().contains(name));
    assert(single_map[name].dom().contains(line));
    let merged_value = crate::file_coverage::merge_files(
        if aproject_map_of(p).dom().contains(path) {
            aproject_map_of(p)[path]
        } else {
            Map::empty()
        },
        single_map,
    );
    assert(aproject_map_of(r) =~~= aproject_map_of(p).insert(path, merged_value));
    assert(project_registers(r, path, name, line));
    assert forall|qp: Seq<char>, qn: Seq<char>, ql: u64|
        project_registers(p, qp, qn, ql) implies #[trigger] project_registers(r, qp, qn, ql) by {
        if qp == path {
            assert(aproject_map_of(r)[qp] =~~= merged_value);
        } else {
            assert(aproject_map_of(r)[qp] =~~= aproject_map_of(p)[qp]);
        }
    }
}

/// Registering a whole line range registers every line in it and keeps
/// everything registered before.
proof fn lemma_register_lines_registers(
    p: AProject,
    path: Seq<char>,
    name: Seq<char>,
    line: int,
    end: int,
    count: u64,
)
    requires
        aproject_sorted(p),
        0 <= line,
        end < 0x1_0000_0000_0000_0000,
    ensures
        aproject_sorted(crate::project_coverage::register_lines(p, path, name, line, end, count)),
        forall|l: int|
            line <= l <= end && l >= 0 ==> project_registers(
                crate::project_coverage::register_lines(p, path, name, line, end, count),
                path,
                name,
                #[trigger] (l as u64),
            ),
        forall|qp: Seq<char>, qn: Seq<char>, ql: u64|
            project_registers(p, qp, qn, ql) ==> #[trigger] project_registers(
                crate::project_coverage::register_lines(p, path, name, line, end, count),
                qp,
                qn,
                ql,
            ),
    decreases end + 1 - line,
{
    if line > end || line < 0 {
    } else {
        lemma_aproject_add_registers(p, path, name, line as u64, count);
        let p1 = aproject_add(p, path, name, line as u64, count);
        lemma_register_lines_registers(p1, path, name, line + 1, end, count);
        let result = crate::project_coverage::register_lines(p, path, name, line, end, count);
        assert(result == crate::project_coverage::register_lines(
            p1,
            path,
            name,
            line + 1,
            end,
            count,
        ));
        assert(project_registers(p1, path, name, line as u64));
        assert forall|l: int|
            line <= l <= end && l >= 0 implies project_registers(
            result,
            path,
            name,
            #[trigger] (l as u64),
        ) by {
            if l == line {
                assert(project_registers(result, path, name, line as u64));
            } else {
                assert(line + 1 <= l <= end);
            }
        }
    }
}

/// The aggregated coverage is well formed, and every line in every retained
/// statement's range is registered under the statement's file and function,
/// with some count, even when the statement was never executed.
pub proof fn lemma_line_registration_complete(
    infos: Seq<(u64, crate::statement_information::StatementInformationView)>,
    executed: Map<u64, u64>,
    i: int,
    line: u64,
)
    requires
        0 <= i < infos.len(),
        infos[i].1.start <= line <= infos[i].1.end,
    ensures
        aproject_sorted(crate::project_coverage::create_spec(infos, executed)),
        project_registers(
            crate::project_coverage::create_spec(infos, executed),
            infos[i].1.source_file_full_path,
            infos[i].1.function_name,
            line,
        ),
    decreases infos.len(),
{
    lemma_create_spec_sorted(infos, executed);
    let p = crate::project_coverage::create_spec(infos.drop_last(), executed);
    lemma_create_spec_sorted(infos.drop_last(), executed);
    let info = infos.last().1;
    let idx = infos.last().0;
    let count = if executed.dom().contains(idx) {
        executed[idx]
    } else {
        0u64
    };
    if i == infos.len() - 1 {
        lemma_register_lines_registers(
            p,
            info.source_file_full_path,
            info.function_name,
            info.start as int,
            info.end as int,
            count,
        );
        assert(project_registers(
            crate::project_coverage::create_spec(infos, executed),
            info.source_file_full_path,
            info.function_name,
            (line as int) as u64,
        ));
    } else {
        assert(infos.drop_last()[i] == infos[i]);
        lemma_line_registration_complete(infos.drop_last(), executed, i, line);
        lemma_register_lines_registers(
            p,
            info.source_file_full_path,
            info.function_name,
            info.start as int,
            info.end as int,
            count,
        );
    }
}

/// The aggregated coverage of any input is well formed.
proof fn lemma_create_spec_sorted(
    infos: Seq<(u64, crate::statement_information::StatementInformationView)>,
    executed: Map<u64, u64>,
)
    ensures
        aproject_sorted(crate::project_coverage::create_spec(infos, executed)),
    decreases infos.len(),
{
    if infos.len() == 0 {
    } else {
        lemma_create_spec_sorted(infos.drop_last(), executed);
        let p = crate::project_coverage::create_spec(infos.drop_last(), executed);
        let info = infos.last().1;
        let idx = infos.last().0;
        let count = if executed.dom().contains(idx) {
            executed[idx]
        } else {
            0u64
        };
        lemma_register_lines_registers(
            p,
            info.source_file_full_path,
            info.function_name,
            info.start as int,
            info.end as int,
            count,
        );
    }
}

/// Truncating a second time changes nothing, and every count of a truncated
/// mapping is zero or one.
pub proof fn lemma_truncate_idempotent(m: ProjectMap)
    ensures
        map_project_truncate(map_project_truncate(m)) =~~= map_project_truncate(m),
        forall|q: Seq<char>, f: Seq<char>, l: u64|
            map_project_truncate(m).dom().contains(q) && map_project_truncate(
                m,
            )[q].dom().contains(f) && map_project_truncate(m)[q][f].dom().contains(l)
                ==> map_project_truncate(m)[q][f][l] <= 1,
{
    assert forall|q: Seq<char>|
        map_project_truncate(map_project_truncate(m)).dom().contains(
            q,
        ) implies map_project_truncate(map_project_truncate(m))[q] =~~= map_project_truncate(
        m,
    )[q] by {
        assert forall|f: Seq<char>|
            map_file_truncate(map_file_truncate(m[q])).dom().contains(
                f,
            ) implies map_file_truncate(map_file_truncate(m[q]))[f] =~= map_file_truncate(
            m[q],
        )[f] by {
            assert forall|l: u64|
                map_truncate_counts(map_truncate_counts(m[q][f])).dom().contains(
                    l,
                ) implies map_truncate_counts(map_truncate_counts(m[q][f]))[l]
                == map_truncate_counts(m[q][f])[l] by {
                assert(min_one(min_one(m[q][f][l])) == min_one(m[q][f][l]));
            }
        }
    }
}

/// The project entries whose file the second filter does not ignore.
pub open spec fn project_kept(
    p: AProject,
    fs2: crate::statement_category_filter::FilterSpec,
) -> AProject
    decreases p.len(),
{
    if p.len() == 0 {
        p
    } else if crate::statement_category_filter::spec_is_not_ignored(fs2, p[0].0) {
        seq![p[0]] + project_kept(p.skip(1), fs2)
    } else {
        project_kept(p.skip(1), fs2)
    }
}

/// The retained statements whose file the second filter does not ignore.
pub open spec fn infos_kept(
    infos: Seq<(u64, crate::statement_information::StatementInformationView)>,
    fs2: crate::statement_category_filter::FilterSpec,
) -> Seq<(u64, crate::statement_information::StatementInformationView)>
    decreases infos.len(),
{
    if infos.len() == 0 {
        infos
    } else if crate::statement_category_filter::spec_is_not_ignored(
        fs2,
        infos.last().1.source_file_full_path,
    ) {
        infos_kept(infos.drop_last(), fs2).push(infos.last())
    } else {
        infos_kept(infos.drop_last(), fs2)
    }
}

/// Every kept entry is an entry of the original, and keeping preserves the
/// path order.
proof fn lemma_project_kept_sub(p: AProject, fs2: crate::statement_category_filter::FilterSpec)
    ensures
        forall|i: int|
            0 <= i < project_kept(p, fs2).len() ==> exists|j: int|
                0 <= j < p.len() && p[j] == #[trigger] project_kept(p, fs2)[i],
        aproject_sorted(p) ==> aproject_sorted(project_kept(p, fs2)),
    decreases p.len(),
{
    let k = project_kept(p, fs2);
    if p.len() > 0 {
        lemma_project_kept_sub(p.skip(1), fs2);
        let rest = project_kept(p.skip(1), fs2);
        assert forall|i: int| 0 <= i < k.len() implies exists|j: int|
            0 <= j < p.len() && p[j] == #[trigger] k[i] by {
            if crate::statement_category_filter::spec_is_not_ignored(fs2, p[0].0) && i == 0 {
                assert(p[0] == k[0]);
            } else {
                let w = if crate::statement_category_filter::spec_is_not_ignored(fs2, p[0].0) {
                    i - 1
                } else {
                    i
                };
                assert(k[i] == rest[w]);
                let j = choose|j: int| 0 <= j < p.skip(1).len() && p.skip(1)[j] == rest[w];
                assert(p[j + 1] == k[i]);
            }
        }
        if aproject_sorted(p) {
            assert(aproject_sorted(p.skip(1))) by {
                assert(forall|a: int, b: int|
                    0 <= a < b < p.skip(1).len() ==> p.skip(1)[a] == p[a + 1] && p.skip(1)[b] == p[
                        b + 1
                    ]);
            }
            assert forall|a: int, b: int| 0 <= a < b < k.len() implies lex_lt(k[a].0, k[b].0) by {
                if crate::statement_category_filter::spec_is_not_ignored(fs2, p[0].0) {
                    if a == 0 {
                        assert(k[b] == rest[b - 1]);
                        let j = choose|j: int|
                            0 <= j < p.skip(1).len() && p.skip(1)[j] == rest[b - 1];
                        assert(p[j + 1] == k[b]);
                        assert(lex_lt(p[0].0, p[j + 1].0));
                    } else {
                        assert(k[a] == rest[a - 1] && k[b] == rest[b - 1]);
                    }
                } else {
                    assert(k[a] == rest[a] && k[b] == rest[b]);
                }
            }
            assert forall|a: int| 0 <= a < k.len() implies afile_sorted(#[trigger] k[a].1) by {
                let j = choose|j: int| 0 <= j < p.len() && p[j] == k[a];
            }
        }
    }
}

/// Keeping a cons: the head stays exactly when its file is kept.
proof fn lemma_project_kept_cons(
    x: (Seq<char>, AFile),
    rest: AProject,
    fs2: crate::statement_category_filter::FilterSpec,
)
    ensures
        project_kept(seq![x] + rest, fs2) == if crate::statement_category_filter::spec_is_not_ignored(
            fs2,
            x.0,
        ) {
            seq![x] + project_kept(rest, fs2)
        } else {
            project_kept(rest, fs2)
        },
{
    assert((seq![x] + rest)[0] == x);
    assert((seq![x] + rest).skip(1) =~= rest);
}

/// A point addition lands among the kept entries exactly when its file is
/// kept; additions to an ignored file vanish from the kept entries.
proof fn lemma_aproject_add_kept(
    p: AProject,
    fs2: crate::statement_category_filter::FilterSpec,
    path: Seq<char>,
    name: Seq<char>,
    line: u64,
    v: u64,
)
    requires
        aproject_sorted(p),
    ensures
        project_kept(aproject_add(p, path, name, line, v), fs2)
            == if crate::statement_category_filter::spec_is_not_ignored(fs2, path) {
            aproject_add(project_kept(p, fs2), path, name, line, v)
        } else {
            project_kept(p, fs2)
        },
    decreases p.len(),
{
    let kept_path = crate::statement_category_filter::spec_is_not_ignored(fs2, path);
    let single: AFile = seq![(name, seq![(line, v)])];
    lemma_project_kept_sub(p, fs2);
    if p.len() == 0 {
        assert(aproject_add(p, path, name, line, v) =~= seq![(path, single)] + Seq::<
            (Seq<char>, AFile),
        >::empty());
        lemma_project_kept_cons((path, single), Seq::empty(), fs2);
        assert(project_kept(p, fs2) =~= Seq::<(Seq<char>, AFile)>::empty());
    } else if lex_lt(path, p[0].0) {
        assert(aproject_add(p, path, name, line, v) == seq![(path, single)] + p);
        lemma_project_kept_cons((path, single), p, fs2);
        if kept_path {
            let kp = project_kept(p, fs2);
            if kp.len() == 0 {
                assert(aproject_add(kp, path, name, line, v) =~= seq![(path, single)]
                    + Seq::<(Seq<char>, AFile)>::empty());
                assert(seq![(path, single)] + Seq::<(Seq<char>, AFile)>::empty() =~= seq![
                    (path, single),
                ] + kp);
            } else {
                let j = choose|j: int| 0 <= j < p.len() && p[j] == kp[0];
                assert(lex_lt(path, kp[0].0)) by {
                    if j > 0 {
                        crate::text::lemma_lex_lt_transitive(path, p[0].0, p[j].0);
                    }
                }
            }
            assert(project_kept(aproject_add(p, path, name, line, v), fs2) == aproject_add(
                kp,
                path,
                name,
                line,
                v,
            ));
        }
    } else if path == p[0].0 {
        assert(aproject_add(p, path, name, line, v) == seq![(p[0].0, afile_add(p[0].1, name, line, v))]
            + p.skip(1));
        lemma_project_kept_cons((p[0].0, afile_add(p[0].1, name, line, v)), p.skip(1), fs2);
        lemma_project_kept_cons(p[0], p.skip(1), fs2);
        assert(p =~= seq![p[0]] + p.skip(1));
        if kept_path {
            let kp = project_kept(p, fs2);
            assert(kp == seq![p[0]] + project_kept(p.skip(1), fs2));
            assert(kp[0] == p[0]);
            assert(aproject_add(kp, path, name, line, v) == seq![
                (p[0].0, afile_add(p[0].1, name, line, v)),
            ] + kp.skip(1));
            assert(kp.skip(1) =~= project_kept(p.skip(1), fs2));
        }
    } else {
        assert(lex_lt(p[0].0, path)) by {
            if !lex_lt(p[0].0, path) {
                crate::text::lemma_lex_lt_connected(path, p[0].0);
                assert(false);
            }
        }
        assert(aproject_sorted(p.skip(1))) by {
            assert(forall|a: int, b: int|
                0 <= a < b < p.skip(1).len() ==> p.skip(1)[a] == p[a + 1] && p.skip(1)[b] == p[b
                    + 1]);
            assert(forall|a: int|
                0 <= a < p.skip(1).len() ==> #[trigger] p.skip(1)[a] == p[a + 1]);
        }
        lemma_aproject_add_kept(p.skip(1), fs2, path, name, line, v);
        assert(aproject_add(p, path, name, line, v) == seq![p[0]] + aproject_add(
            p.skip(1),
            path,
            name,
            line,
            v,
        ));
        lemma_project_kept_cons(p[0], aproject_add(p.skip(1), path, name, line, v), fs2);
        lemma_project_kept_cons(p[0], p.skip(1), fs2);
        assert(p =~= seq![p[0]] + p.skip(1));
        if crate::statement_category_filter::spec_is_not_ignored(fs2, p[0].0) {
            if kept_path {
                let krest = project_kept(p.skip(1), fs2);
                assert(project_kept(aproject_add(p, path, name, line, v), fs2) == seq![p[0]]
                    + aproject_add(krest, path, name, line, v));
                let kp = project_kept(p, fs2);
                assert(kp == seq![p[0]] + krest);
                assert(aproject_add(kp, path, name, line, v) == seq![p[0]] + aproject_add(
                    kp.skip(1),
                    path,
                    name,
                    line,
                    v,
                ));
                assert(kp.skip(1) =~= krest);
            }
        }
    }
}

/// Registering a line range touches only its own file among the kept entries.
proof fn lemma_register_lines_kept(
    p: AProject,
    fs2: crate::statement_category_filter::FilterSpec,
    path: Seq<char>,
    name: Seq<char>,
    line: int,
    end: int,
    count: u64,
)
    requires
        aproject_sorted(p),
        0 <= line,
        end < 0x1_0000_0000_0000_0000,
    ensures
        project_kept(crate::project_coverage::register_lines(p, path, name, line, end, count), fs2)
            == if crate::statement_category_filter::spec_is_not_ignored(fs2, path) {
            crate::project_coverage::register_lines(
                project_kept(p, fs2),
                path,
                name,
                line,
                end,
                count,
            )
        } else {
            project_kept(p, fs2)
        },
    decreases end + 1 - line,
{
    if line > end {
    } else {
        lemma_aproject_add_kept(p, fs2, path, name, line as u64, count);
        lemma_aproject_add_registers(p, path, name, line as u64, count);
        lemma_register_lines_kept(
            aproject_add(p, path, name, line as u64, count),
            fs2,
            path,
            name,
            line + 1,
            end,
            count,
        );
        if crate::statement_category_filter::spec_is_not_ignored(fs2, path) {
            lemma_project_kept_sub(p, fs2);
        }
    }
}

/// Dropping the ignored statements before aggregation removes exactly the
/// ignored files from the aggregate.
proof fn lemma_create_spec_kept(
    infos: Seq<(u64, crate::statement_information::StatementInformationView)>,
    executed: Map<u64, u64>,
    fs2: crate::statement_category_filter::FilterSpec,
)
    ensures
        crate::project_coverage::create_spec(infos_kept(infos, fs2), executed) =~= project_kept(
            crate::project_coverage::create_spec(infos, executed),
            fs2,
        ),
    decreases infos.len(),
{
    if infos.len() > 0 {
        lemma_create_spec_kept(infos.drop_last(), executed, fs2);
        lemma_create_spec_sorted(infos.drop_last(), executed);
        let p = crate::project_coverage::create_spec(infos.drop_last(), executed);
        let info = infos.last().1;
        let idx = infos.last().0;
        let count = if executed.dom().contains(idx) {
            executed[idx]
        } else {
            0u64
        };
        lemma_register_lines_kept(
            p,
            fs2,
            info.source_file_full_path,
            info.function_name,
            info.start as int,
            info.end as int,
            count,
        );
        if crate::statement_category_filter::spec_is_not_ignored(
            fs2,
            info.source_file_full_path,
        ) {
            assert(infos_kept(infos, fs2).drop_last() =~= infos_kept(infos.drop_last(), fs2));
            assert(infos_kept(infos, fs2).last() == infos.last());
        }
    }
}

/// Two filters that differ only in their ignore patterns, on statements with
/// a single candidate whose path carries no bracketed segment and that the
/// first filter nowhere ignores: the second filter retains exactly the
/// statements of files it does not ignore.
proof fn lemma_build_map_spec_kept(
    fs: crate::statement_category_filter::FilterSpec,
    fs2: crate::statement_category_filter::FilterSpec,
    cov: Seq<(u64, Vec<crate::annotations::CodeLocation>)>,
    prof: Seq<(u64, Vec<String>)>,
)
    requires
        fs2.project_path == fs.project_path,
        fs2.include_test_functions == fs.include_test_functions,
        fs2.include_macros == fs.include_macros,
        fs2.test_functions == fs.test_functions,
        fs2.libfunc_names == fs.libfunc_names,
        forall|i: int|
            0 <= i < cov.len() ==> (#[trigger] cov[i]).1@.len() <= 1,
        forall|i: int, j: int|
            0 <= i < cov.len() && 0 <= j < (#[trigger] cov[i]).1@.len() ==> {
                &&& crate::virtual_file::strip_virtual(#[trigger] cov[i].1@[j]@.path) == cov[i].1@[j]@.path
                &&& crate::statement_category_filter::spec_is_not_ignored(fs, cov[i].1@[j]@.path)
            },
    ensures
        crate::statement_information::build_map_spec(fs2, cov, prof) =~= infos_kept(
            crate::statement_information::build_map_spec(fs, cov, prof),
            fs2,
        ),
    decreases cov.len(),
{
    if cov.len() > 0 {
        assert forall|i: int| 0 <= i < cov.drop_last().len() implies (#[trigger] cov.drop_last()[
        i]).1@.len() <= 1 by {
            assert(cov.drop_last()[i] == cov[i]);
        }
        assert forall|i: int, j: int|
            0 <= i < cov.drop_last().len() && 0 <= j < (#[trigger] cov.drop_last()[i]).1@.len() implies {
            &&& crate::virtual_file::strip_virtual(#[trigger] cov.drop_last()[i].1@[j]@.path)
                == cov.drop_last()[i].1@[j]@.path
            &&& crate::statement_category_filter::spec_is_not_ignored(
                fs,
                cov.drop_last()[i].1@[j]@.path,
            )
        } by {
            assert(cov.drop_last()[i] == cov[i]);
        }
        lemma_build_map_spec_kept(fs, fs2, cov.drop_last(), prof);
        let b1 = crate::statement_information::build_map_spec(fs, cov, prof);
        let b2 = crate::statement_information::build_map_spec(fs2, cov, prof);
        let r1 = crate::statement_information::build_map_spec(fs, cov.drop_last(), prof);
        let r2 = crate::statement_information::build_map_spec(fs2, cov.drop_last(), prof);
        let key = cov.last().0;
        let locs = crate::annotations::code_locations_view(cov.last().1@);
        assert(cov.last() == cov[cov.len() - 1]);
        assert(locs.len() <= 1);
        match crate::annotations::prof_lookup(prof, key) {
            None => {
                assert(b1 == r1 && b2 == r2);
            },
            Some(names) => {
                if locs.len() == 0 || names.len() == 0 {
                    assert(b1 == r1 && b2 == r2);
                } else {
                    let path = locs[0].path;
                    assert(locs[0] == cov[cov.len() - 1].1@[0]@);
                    assert(crate::virtual_file::strip_virtual(path) == path);
                    assert(crate::statement_category_filter::spec_is_not_ignored(fs, path));
                    assert(locs.skip(1).len() == 0);
                    if crate::statement_category_filter::spec_should_include(
                        fs,
                        key,
                        names[0],
                        path,
                    ) {
                        let v = crate::statement_information::StatementInformationView {
                            idx: key,
                            function_name: names[0],
                            source_file_full_path: crate::virtual_file::strip_virtual(path),
                            start: (locs[0].start_line + 1) as u64,
                            end: (locs[0].end_line + 1) as u64,
                        };
                        assert(crate::statement_information::chosen_info(fs, key, locs, names)
                            == Some(v));
                        assert(b1 == r1.push((key, v)));
                        assert(v.source_file_full_path == path);
                        assert(b1.drop_last() =~= r1);
                        assert(b1.last() == (key, v));
                        if crate::statement_category_filter::spec_is_not_ignored(fs2, path) {
                            assert(crate::statement_category_filter::spec_should_include(
                                fs2,
                                key,
                                names[0],
                                path,
                            ));
                            assert(crate::statement_information::chosen_info(
                                fs2,
                                key,
                                locs,
                                names,
                            ) == Some(v));
                            assert(b2 == r2.push((key, v)));
                            assert(infos_kept(b1, fs2) =~= infos_kept(r1, fs2).push((key, v)));
                            assert(b2 =~= infos_kept(b1, fs2));
                        } else {
                            assert(!crate::statement_category_filter::spec_should_include(
                                fs2,
                                key,
                                names[0],
                                path,
                            ));
                            assert(crate::statement_information::chosen_info(
                                fs2,
                                key,
                                locs.skip(1),
                                names.skip(1),
                            ) is None);
                            assert(crate::statement_information::chosen_info(
                                fs2,
                                key,
                                locs,
                                names,
                            ) is None);
                            assert(b2 == r2);
                            assert(infos_kept(b1, fs2) =~= infos_kept(r1, fs2));
                            assert(b2 =~= infos_kept(b1, fs2));
                        }
                    } else {
                        assert(crate::statement_information::chosen_info(
                            fs,
                            key,
                            locs.skip(1),
                            names.skip(1),
                        ) is None);
                        assert(crate::statement_information::chosen_info(fs, key, locs, names)
                            is None);
                        assert(!crate::statement_category_filter::spec_should_include(
                            fs2,
                            key,
                            names[0],
                            path,
                        ));
                        assert(crate::statement_information::chosen_info(
                            fs2,
                            key,
                            locs.skip(1),
                            names.skip(1),
                        ) is None);
                        assert(crate::statement_information::chosen_info(fs2, key, locs, names)
                            is None);
                        assert(b1 == r1 && b2 == r2);
                    }
                }
            },
        }
    }
}

/// Adding ignore patterns removes exactly the ignored files. For a filter
/// that differs from the first only in its ignore patterns, on inputs where
/// every statement has a single candidate location, no candidate path carries
/// a bracketed segment, and the first filter ignores nothing it sees, the
/// aggregate of the second run is the first run's aggregate with the entries
/// of ignored files removed — so its report is the first report with exactly
/// those files' records deleted, the others byte for byte. The executed
/// counts enter as one shared mapping, taken as given for both runs.
pub proof fn lemma_ignore_removes_files(
    fs: crate::statement_category_filter::FilterSpec,
    fs2: crate::statement_category_filter::FilterSpec,
    cov: Seq<(u64, Vec<crate::annotations::CodeLocation>)>,
    prof: Seq<(u64, Vec<String>)>,
    executed: Map<u64, u64>,
)
    requires
        fs2.project_path == fs.project_path,
        fs2.include_test_functions == fs.include_test_functions,
        fs2.include_macros == fs.include_macros,
        fs2.test_functions == fs.test_functions,
        fs2.libfunc_names == fs.libfunc_names,
        forall|i: int|
            0 <= i < cov.len() ==> (#[trigger] cov[i]).1@.len() <= 1,
        forall|i: int, j: int|
            0 <= i < cov.len() && 0 <= j < (#[trigger] cov[i]).1@.len() ==> {
                &&& crate::virtual_file::strip_virtual(#[trigger] cov[i].1@[j]@.path) == cov[i].1@[j]@.path
                &&& crate::statement_category_filter::spec_is_not_ignored(fs, cov[i].1@[j]@.path)
            },
    ensures
        crate::project_coverage::create_spec(
            crate::statement_information::build_map_spec(fs2, cov, prof),
            executed,
        ) =~= project_kept(
            crate::project_coverage::create_spec(
                crate::statement_information::build_map_spec(fs, cov, prof),
                executed,
            ),
            fs2,
        ),
{
    lemma_build_map_spec_kept(fs, fs2, cov, prof);
    lemma_create_spec_kept(
        crate::statement_information::build_map_spec(fs, cov, prof),
        executed,
        fs2,
    );
    assert(crate::project_coverage::create_spec(
        crate::statement_information::build_map_spec(fs2, cov, prof),
        executed,
    ) =~= crate::project_coverage::create_spec(
        infos_kept(crate::statement_information::build_map_spec(fs, cov, prof), fs2),
        executed,
    ));
}

} // verus!
