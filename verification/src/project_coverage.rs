//! Coverage of a whole project: a mapping from source file paths to
//! [`FileCoverage`], kept as an association list sorted by the lexicographic
//! order of the paths. Merging two project coverages is the additive union
//! required when one piece of source is compiled into several artifacts.
use crate::file_coverage::afile_add;
use crate::file_coverage::afile_map_of;
use crate::file_coverage::afile_merge_entry;
use crate::file_coverage::afile_merge_fold;
use crate::file_coverage::afile_sorted;
use crate::file_coverage::afile_truncate;
use crate::file_coverage::lemma_afile_merge_fold_map;
use crate::file_coverage::lemma_afile_merge_fold_sorted;
use crate::file_coverage::map_file_truncate;
use crate::file_coverage::merge_files;
use crate::file_coverage::AFile;
use crate::file_coverage::FileCoverage;
use crate::text::lemma_lex_lt_connected;
use crate::text::lemma_lex_lt_transitive;
use crate::text::lex_lt;
use crate::text::str_eq;
use crate::text::str_lt;
use vstd::prelude::*;

verus! {

/// The mathematical content of a project's entries: paths paired with the
/// content of their file coverage.
pub type AProject = Seq<(Seq<char>, AFile)>;

/// The mapping that a whole project denotes: path to function to line to count.
pub type ProjectMap = Map<Seq<char>, Map<Seq<char>, Map<u64, u64>>>;

/// Paths strictly increasing, and every file's entries well-formed.
pub open spec fn aproject_sorted(p: AProject) -> bool {
    &&& forall|i: int, j: int| 0 <= i < j < p.len() ==> lex_lt(p[i].0, p[j].0)
    &&& forall|i: int| 0 <= i < p.len() ==> afile_sorted(#[trigger] p[i].1)
}

/// Index of the entry for `q`, or -1 if there is none.
pub open spec fn pindex_of_path(p: AProject, q: Seq<char>) -> int
    decreases p.len(),
{
    if p.len() == 0 {
        -1
    } else if p[0].0 == q {
        0
    } else {
        let r = pindex_of_path(p.skip(1), q);
        if r < 0 {
            -1
        } else {
            r + 1
        }
    }
}

pub open spec fn aproject_map_of(p: AProject) -> ProjectMap {
    Map::new(
        |q: Seq<char>| pindex_of_path(p, q) >= 0,
        |q: Seq<char>| afile_map_of(p[pindex_of_path(p, q)].1),
    )
}

pub proof fn lemma_pindex_of_path(p: AProject, q: Seq<char>)
    ensures
        pindex_of_path(p, q) >= 0 ==> {
            &&& pindex_of_path(p, q) < p.len()
            &&& p[pindex_of_path(p, q)].0 == q
        },
        pindex_of_path(p, q) < 0 ==> forall|i: int| 0 <= i < p.len() ==> p[i].0 != q,
    decreases p.len(),
{
    if p.len() > 0 && p[0].0 != q {
        lemma_pindex_of_path(p.skip(1), q);
        if pindex_of_path(p, q) < 0 {
            assert forall|i: int| 0 <= i < p.len() implies p[i].0 != q by {
                if i > 0 {
                    assert(p.skip(1)[i - 1] == p[i]);
                }
            }
        }
    }
}

proof fn lemma_lex_lt_irreflexive(a: Seq<char>)
    ensures
        !lex_lt(a, a),
    decreases a.len(),
{
    if a.len() > 0 {
        lemma_lex_lt_irreflexive(a.skip(1));
    }
}

/// A path occurs in the entries exactly when the denoted map contains it.
pub proof fn lemma_aproject_map_of_contains(p: AProject, i: int)
    requires
        aproject_sorted(p),
        0 <= i < p.len(),
    ensures
        aproject_map_of(p).dom().contains(p[i].0),
        aproject_map_of(p)[p[i].0] == afile_map_of(p[i].1),
{
    lemma_pindex_of_path(p, p[i].0);
    let j = pindex_of_path(p, p[i].0);
    if j >= 0 && i != j {
        assert(p[i].0 == p[j].0);
        if i < j {
            assert(lex_lt(p[i].0, p[j].0));
        } else {
            assert(lex_lt(p[j].0, p[i].0));
        }
        lemma_lex_lt_irreflexive(p[i].0);
        assert(false);
    }
    if j < 0 {
        assert(p[i].0 != p[i].0);
    }
}

/// Adding one line count under a path and a function name.
pub open spec fn aproject_add(
    p: AProject,
    path: Seq<char>,
    name: Seq<char>,
    line: u64,
    v: u64,
) -> AProject
    decreases p.len(),
{
    if p.len() == 0 {
        seq![(path, seq![(name, seq![(line, v)])])]
    } else if lex_lt(path, p[0].0) {
        seq![(path, seq![(name, seq![(line, v)])])] + p
    } else if path == p[0].0 {
        seq![(p[0].0, afile_add(p[0].1, name, line, v))] + p.skip(1)
    } else {
        seq![p[0]] + aproject_add(p.skip(1), path, name, line, v)
    }
}

/// Merging one whole file entry into the entries.
pub open spec fn aproject_merge_entry(p: AProject, path: Seq<char>, f: AFile) -> AProject
    decreases p.len(),
{
    if p.len() == 0 {
        seq![(path, f)]
    } else if lex_lt(path, p[0].0) {
        seq![(path, f)] + p
    } else if path == p[0].0 {
        seq![(p[0].0, afile_merge_fold(p[0].1, f))] + p.skip(1)
    } else {
        seq![p[0]] + aproject_merge_entry(p.skip(1), path, f)
    }
}

/// Folding every file entry of `b` into `a`.
pub open spec fn aproject_merge_fold(a: AProject, b: AProject) -> AProject
    decreases b.len(),
{
    if b.len() == 0 {
        a
    } else {
        aproject_merge_fold(aproject_merge_entry(a, b[0].0, b[0].1), b.skip(1))
    }
}

/// Merging two project mappings: the union of their paths, with the file
/// coverage of shared paths merged.
pub open spec fn merge_projects(a: ProjectMap, b: ProjectMap) -> ProjectMap {
    Map::new(
        |q: Seq<char>| a.dom().contains(q) || b.dom().contains(q),
        |q: Seq<char>|
            if a.dom().contains(q) && b.dom().contains(q) {
                merge_files(a[q], b[q])
            } else if a.dom().contains(q) {
                a[q]
            } else {
                b[q]
            },
    )
}

/// Clamping every count of every file to at most one.
pub open spec fn aproject_truncate(p: AProject) -> AProject {
    p.map_values(|e: (Seq<char>, AFile)| (e.0, afile_truncate(e.1)))
}

pub open spec fn map_project_truncate(m: ProjectMap) -> ProjectMap {
    Map::new(|q: Seq<char>| m.dom().contains(q), |q: Seq<char>| map_file_truncate(m[q]))
}

/// Where an addition or an entry merge lands in the sorted entries.
proof fn lemma_aproject_combine_at(p: AProject, path: Seq<char>, f: AFile, i: int)
    requires
        aproject_sorted(p),
        0 <= i <= p.len(),
        forall|j: int| 0 <= j < i ==> lex_lt(#[trigger] p[j].0, path),
        i < p.len() ==> !lex_lt(p[i as int].0, path),
    ensures
        i < p.len() && p[i].0 == path ==> aproject_merge_entry(p, path, f) =~= p.update(
            i,
            (path, afile_merge_fold(p[i].1, f)),
        ),
        !(i < p.len() && p[i].0 == path) ==> aproject_merge_entry(p, path, f) =~= p.insert(
            i,
            (path, f),
        ),
        i < p.len() && p[i].0 == path ==> aproject_add(p, path, f[0].0, f[0].1[0].0, f[0].1[0].1)
            =~= p.update(i, (path, afile_add(p[i].1, f[0].0, f[0].1[0].0, f[0].1[0].1))),
        !(i < p.len() && p[i].0 == path) ==> aproject_add(
            p,
            path,
            f[0].0,
            f[0].1[0].0,
            f[0].1[0].1,
        ) =~= p.insert(i, (path, seq![(f[0].0, seq![(f[0].1[0].0, f[0].1[0].1)])])),
    decreases p.len(),
{
    if p.len() == 0 {
        assert(aproject_merge_entry(p, path, f) =~= p.insert(0, (path, f)));
        assert(aproject_add(p, path, f[0].0, f[0].1[0].0, f[0].1[0].1) =~= p.insert(
            0,
            (path, seq![(f[0].0, seq![(f[0].1[0].0, f[0].1[0].1)])]),
        ));
    } else if i == 0 {
        if p[0].0 == path {
            lemma_lex_lt_irreflexive(path);
            assert(aproject_merge_entry(p, path, f) =~= p.update(
                0,
                (path, afile_merge_fold(p[0].1, f)),
            ));
            assert(aproject_add(p, path, f[0].0, f[0].1[0].0, f[0].1[0].1) =~= p.update(
                0,
                (path, afile_add(p[0].1, f[0].0, f[0].1[0].0, f[0].1[0].1)),
            ));
        } else {
            if !lex_lt(path, p[0].0) {
                lemma_lex_lt_connected(path, p[0].0);
                assert(false);
            }
            assert(aproject_merge_entry(p, path, f) =~= p.insert(0, (path, f)));
            assert(aproject_add(p, path, f[0].0, f[0].1[0].0, f[0].1[0].1) =~= p.insert(
                0,
                (path, seq![(f[0].0, seq![(f[0].1[0].0, f[0].1[0].1)])]),
            ));
        }
    } else {
        assert(lex_lt(p[0].0, path));
        lemma_lex_lt_irreflexive(p[0].0);
        assert(p[0].0 != path);
        assert(!lex_lt(path, p[0].0)) by {
            if lex_lt(path, p[0].0) {
                crate::text::lemma_lex_lt_asymmetric(p[0].0, path);
            }
        }
        assert(forall|j: int| 0 <= j < i - 1 ==> lex_lt(#[trigger] p.skip(1)[j].0, path)) by {
            assert(forall|j: int| 0 <= j < i - 1 ==> p.skip(1)[j] == p[j + 1]);
        }
        lemma_aproject_combine_at(p.skip(1), path, f, i - 1);
        if i < p.len() && p[i].0 == path {
            assert(p.skip(1)[i - 1] == p[i]);
            assert(aproject_merge_entry(p, path, f) =~= seq![p[0]] + p.skip(1).update(
                i - 1,
                (path, afile_merge_fold(p[i].1, f)),
            ));
            assert(seq![p[0]] + p.skip(1).update(i - 1, (path, afile_merge_fold(p[i].1, f)))
                =~= p.update(i, (path, afile_merge_fold(p[i].1, f))));
            assert(aproject_add(p, path, f[0].0, f[0].1[0].0, f[0].1[0].1) =~= seq![p[0]] + p.skip(
                1,
            ).update(i - 1, (path, afile_add(p[i].1, f[0].0, f[0].1[0].0, f[0].1[0].1))));
            assert(seq![p[0]] + p.skip(1).update(
                i - 1,
                (path, afile_add(p[i].1, f[0].0, f[0].1[0].0, f[0].1[0].1)),
            ) =~= p.update(i, (path, afile_add(p[i].1, f[0].0, f[0].1[0].0, f[0].1[0].1))));
        } else {
            assert(aproject_merge_entry(p, path, f) =~= seq![p[0]] + p.skip(1).insert(
                i - 1,
                (path, f),
            ));
            assert(seq![p[0]] + p.skip(1).insert(i - 1, (path, f)) =~= p.insert(i, (path, f)));
            assert(aproject_add(p, path, f[0].0, f[0].1[0].0, f[0].1[0].1) =~= seq![p[0]] + p.skip(
                1,
            ).insert(i - 1, (path, seq![(f[0].0, seq![(f[0].1[0].0, f[0].1[0].1)])])));
            assert(seq![p[0]] + p.skip(1).insert(
                i - 1,
                (path, seq![(f[0].0, seq![(f[0].1[0].0, f[0].1[0].1)])]),
            ) =~= p.insert(i, (path, seq![(f[0].0, seq![(f[0].1[0].0, f[0].1[0].1)])])));
        }
    }
}

/// Sortedness is preserved by an entry merge.
pub proof fn lemma_aproject_merge_entry_sorted(p: AProject, path: Seq<char>, f: AFile)
    requires
        aproject_sorted(p),
        afile_sorted(f),
    ensures
        aproject_sorted(aproject_merge_entry(p, path, f)),
    decreases p.len(),
{
    let r = aproject_merge_entry(p, path, f);
    if p.len() == 0 {
    } else if lex_lt(path, p[0].0) {
        assert forall|i: int, j: int| 0 <= i < j < r.len() implies lex_lt(r[i].0, r[j].0) by {
            if i > 0 {
                assert(r[i] == p[i - 1] && r[j] == p[j - 1]);
            } else if j > 1 {
                assert(r[j] == p[j - 1]);
                lemma_lex_lt_transitive(path, p[0].0, p[j - 1].0);
            }
        }
        assert forall|i: int| 0 <= i < r.len() implies afile_sorted(#[trigger] r[i].1) by {
            if i > 0 {
                assert(r[i] == p[i - 1]);
            }
        }
    } else if path == p[0].0 {
        lemma_afile_merge_fold_sorted(p[0].1, f);
        assert forall|i: int| 0 <= i < r.len() implies afile_sorted(#[trigger] r[i].1) by {
            if i > 0 {
                assert(r[i] == p[i]);
            }
        }
        assert forall|i: int, j: int| 0 <= i < j < r.len() implies lex_lt(r[i].0, r[j].0) by {
            if i > 0 {
                assert(r[i] == p[i] && r[j] == p[j]);
            } else {
                assert(r[0].0 == p[0].0 && r[j] == p[j]);
            }
        }
    } else {
        if !lex_lt(p[0].0, path) {
            lemma_lex_lt_connected(path, p[0].0);
            assert(false);
        }
        lemma_aproject_merge_entry_sorted(p.skip(1), path, f);
        lemma_aproject_merge_entry_paths(p.skip(1), path, f);
        let rr = aproject_merge_entry(p.skip(1), path, f);
        assert forall|i: int, j: int| 0 <= i < j < r.len() implies lex_lt(r[i].0, r[j].0) by {
            if i == 0 {
                assert(r[0] == p[0]);
                assert(r[j] == rr[j - 1]);
                if rr[j - 1].0 == path {
                } else {
                    let w = choose|w: int|
                        0 <= w < p.skip(1).len() && p.skip(1)[w].0 == rr[j - 1].0;
                    assert(p[w + 1].0 == rr[j - 1].0);
                }
            } else {
                assert(r[i] == rr[i - 1] && r[j] == rr[j - 1]);
            }
        }
        assert forall|i: int| 0 <= i < r.len() implies afile_sorted(#[trigger] r[i].1) by {
            if i > 0 {
                assert(r[i] == rr[i - 1]);
            }
        }
    }
}

proof fn lemma_aproject_merge_entry_paths(p: AProject, path: Seq<char>, f: AFile)
    ensures
        forall|i: int|
            0 <= i < aproject_merge_entry(p, path, f).len() ==> (#[trigger] aproject_merge_entry(
                p,
                path,
                f,
            )[i].0 == path || exists|j: int|
                0 <= j < p.len() && p[j].0 == aproject_merge_entry(p, path, f)[i].0),
    decreases p.len(),
{
    let r = aproject_merge_entry(p, path, f);
    if p.len() == 0 {
    } else if lex_lt(path, p[0].0) {
        assert forall|i: int| 0 <= i < r.len() implies (r[i].0 == path || exists|j: int|
            0 <= j < p.len() && p[j].0 == r[i].0) by {
            if i > 0 {
                assert(p[i - 1].0 == r[i].0);
            }
        }
    } else if path == p[0].0 {
        assert forall|i: int| 0 <= i < r.len() implies (r[i].0 == path || exists|j: int|
            0 <= j < p.len() && p[j].0 == r[i].0) by {
            if i > 0 {
                assert(p[i].0 == r[i].0);
            } else {
                assert(p[0].0 == r[0].0);
            }
        }
    } else {
        lemma_aproject_merge_entry_paths(p.skip(1), path, f);
        let rr = aproject_merge_entry(p.skip(1), path, f);
        assert forall|i: int| 0 <= i < r.len() implies (r[i].0 == path || exists|j: int|
            0 <= j < p.len() && p[j].0 == r[i].0) by {
            if i == 0 {
                assert(p[0].0 == r[0].0);
            } else {
                assert(r[i] == rr[i - 1]);
                if rr[i - 1].0 != path {
                    let w = choose|w: int|
                        0 <= w < p.skip(1).len() && p.skip(1)[w].0 == rr[i - 1].0;
                    assert(p[w + 1].0 == r[i].0);
                }
            }
        }
    }
}

/// How `pindex_of_path` behaves across an entry merge.
proof fn lemma_pindex_merge_entry(p: AProject, path: Seq<char>, f: AFile, q: Seq<char>)
    requires
        aproject_sorted(p),
    ensures
        q == path ==> {
            &&& pindex_of_path(aproject_merge_entry(p, path, f), q) >= 0
            &&& aproject_merge_entry(p, path, f)[pindex_of_path(
                aproject_merge_entry(p, path, f),
                q,
            )].1 == (if pindex_of_path(p, q) >= 0 {
                afile_merge_fold(p[pindex_of_path(p, q)].1, f)
            } else {
                f
            })
        },
        q != path ==> {
            &&& (pindex_of_path(aproject_merge_entry(p, path, f), q) >= 0 <==> pindex_of_path(
                p,
                q,
            ) >= 0)
            &&& (pindex_of_path(p, q) >= 0 ==> aproject_merge_entry(p, path, f)[pindex_of_path(
                aproject_merge_entry(p, path, f),
                q,
            )].1 == p[pindex_of_path(p, q)].1)
        },
    decreases p.len(),
{
    let r = aproject_merge_entry(p, path, f);
    lemma_pindex_of_path(p, q);
    lemma_pindex_of_path(r, q);
    if p.len() == 0 {
    } else if lex_lt(path, p[0].0) {
        lemma_lex_lt_irreflexive(p[0].0);
        assert(r == seq![(path, f)] + p);
        assert(r.skip(1) =~= p);
        if q == path {
            assert forall|i2: int| 0 <= i2 < p.len() implies p[i2].0 != q by {
                if i2 == 0 {
                    if p[0].0 == q {
                        lemma_lex_lt_irreflexive(q);
                    }
                } else {
                    lemma_lex_lt_transitive(path, p[0].0, p[i2].0);
                    if p[i2].0 == q {
                        lemma_lex_lt_irreflexive(q);
                    }
                }
            }
            if pindex_of_path(p, q) >= 0 {
                assert(false);
            }
        }
    } else if path == p[0].0 {
        assert(r == seq![(p[0].0, afile_merge_fold(p[0].1, f))] + p.skip(1));
        assert(r.skip(1) =~= p.skip(1));
    } else {
        assert(r == seq![p[0]] + aproject_merge_entry(p.skip(1), path, f));
        assert(r.skip(1) =~= aproject_merge_entry(p.skip(1), path, f));
        lemma_pindex_merge_entry(p.skip(1), path, f, q);
        lemma_pindex_of_path(p.skip(1), q);
        lemma_pindex_of_path(aproject_merge_entry(p.skip(1), path, f), q);
    }
}

/// The map denoted after an entry merge: the merged path now carries the
/// merged file coverage, every other path is unchanged.
pub proof fn lemma_aproject_merge_entry_map(p: AProject, path: Seq<char>, f: AFile)
    requires
        aproject_sorted(p),
        afile_sorted(f),
    ensures
        aproject_map_of(aproject_merge_entry(p, path, f)) =~~= aproject_map_of(p).insert(
            path,
            merge_files(
                if aproject_map_of(p).dom().contains(path) {
                    aproject_map_of(p)[path]
                } else {
                    Map::empty()
                },
                afile_map_of(f),
            ),
        ),
{
    let r = aproject_merge_entry(p, path, f);
    let goal = aproject_map_of(p).insert(
        path,
        merge_files(
            if aproject_map_of(p).dom().contains(path) {
                aproject_map_of(p)[path]
            } else {
                Map::empty()
            },
            afile_map_of(f),
        ),
    );
    assert forall|q: Seq<char>|
        aproject_map_of(r).dom().contains(q) == goal.dom().contains(q) by {
        lemma_pindex_of_path(p, q);
        lemma_pindex_of_path(r, q);
        lemma_pindex_merge_entry(p, path, f, q);
    }
    assert(aproject_map_of(r).dom() =~= goal.dom());
    assert forall|q: Seq<char>| goal.dom().contains(q) implies aproject_map_of(r)[q] =~~= goal[q]
        by {
        lemma_pindex_of_path(p, q);
        lemma_pindex_of_path(r, q);
        lemma_pindex_merge_entry(p, path, f, q);
        if q == path {
            if pindex_of_path(p, q) >= 0 {
                lemma_afile_merge_fold_map(p[pindex_of_path(p, q)].1, f);
            } else {
                lemma_afile_merge_fold_map(Seq::empty(), f);
                assert(afile_map_of(Seq::empty()) =~= Map::<Seq<char>, Map<u64, u64>>::empty());
                assert(merge_files(Map::empty(), afile_map_of(f)) =~~= afile_map_of(f));
            }
        }
    }
    assert(aproject_map_of(r) =~~= goal);
}

pub proof fn lemma_aproject_merge_fold_sorted(a: AProject, b: AProject)
    requires
        aproject_sorted(a),
        aproject_sorted(b),
    ensures
        aproject_sorted(aproject_merge_fold(a, b)),
    decreases b.len(),
{
    if b.len() > 0 {
        lemma_aproject_merge_entry_sorted(a, b[0].0, b[0].1);
        lemma_aproject_merge_fold_sorted(aproject_merge_entry(a, b[0].0, b[0].1), b.skip(1));
    }
}

/// Folding all file entries of `b` into `a` denotes the merge of the two maps.
pub proof fn lemma_aproject_merge_fold_map(a: AProject, b: AProject)
    requires
        aproject_sorted(a),
        aproject_sorted(b),
    ensures
        aproject_map_of(aproject_merge_fold(a, b)) =~~= merge_projects(
            aproject_map_of(a),
            aproject_map_of(b),
        ),
    decreases b.len(),
{
    if b.len() == 0 {
        assert(aproject_map_of(aproject_merge_fold(a, b)) =~~= merge_projects(
            aproject_map_of(a),
            aproject_map_of(b),
        ));
    } else {
        let path = b[0].0;
        let f = b[0].1;
        let a1 = aproject_merge_entry(a, path, f);
        lemma_aproject_merge_entry_sorted(a, path, f);
        lemma_aproject_merge_entry_map(a, path, f);
        assert(aproject_sorted(b.skip(1)));
        lemma_aproject_merge_fold_map(a1, b.skip(1));
        assert forall|q: Seq<char>|
            merge_projects(aproject_map_of(a1), aproject_map_of(b.skip(1))).dom().contains(q)
                == merge_projects(aproject_map_of(a), aproject_map_of(b)).dom().contains(q) by {
            lemma_pindex_of_path(b, q);
            lemma_pindex_of_path(b.skip(1), q);
            lemma_pindex_of_path(a, q);
            if q == path {
                if pindex_of_path(b.skip(1), q) >= 0 {
                    let w = pindex_of_path(b.skip(1), q);
                    assert(b[w + 1].0 == q);
                    assert(lex_lt(b[0].0, b[w + 1].0));
                    lemma_lex_lt_irreflexive(q);
                    assert(false);
                }
            } else {
                if pindex_of_path(b, q) >= 0 && pindex_of_path(b.skip(1), q) < 0 {
                    let w = pindex_of_path(b, q);
                    assert(w > 0);
                    assert(b.skip(1)[w - 1] == b[w]);
                }
                if pindex_of_path(b, q) < 0 && pindex_of_path(b.skip(1), q) >= 0 {
                    let w = pindex_of_path(b.skip(1), q);
                    assert(b[w + 1].0 == q);
                    assert(false);
                }
            }
        }
        assert(merge_projects(aproject_map_of(a1), aproject_map_of(b.skip(1))).dom()
            =~= merge_projects(aproject_map_of(a), aproject_map_of(b)).dom());
        assert forall|q: Seq<char>|
            merge_projects(aproject_map_of(a), aproject_map_of(b)).dom().contains(
                q,
            ) implies merge_projects(aproject_map_of(a1), aproject_map_of(b.skip(1)))[q]
            =~~= merge_projects(aproject_map_of(a), aproject_map_of(b))[q] by {
            lemma_pindex_of_path(b, q);
            lemma_pindex_of_path(b.skip(1), q);
            lemma_pindex_of_path(a, q);
            lemma_lex_lt_irreflexive(q);
            if q == path {
                if pindex_of_path(b.skip(1), q) >= 0 {
                    let w = pindex_of_path(b.skip(1), q);
                    assert(b[w + 1].0 == q);
                    assert(lex_lt(b[0].0, b[w + 1].0));
                    assert(false);
                }
                assert(pindex_of_path(b, q) == 0);
                if pindex_of_path(a, q) >= 0 {
                    lemma_aproject_map_of_contains(a, pindex_of_path(a, q));
                    crate::file_coverage::lemma_merge_files_associative(
                        aproject_map_of(a)[q],
                        afile_map_of(f),
                        Map::empty(),
                    );
                    assert(merge_files(afile_map_of(f), Map::empty()) =~~= afile_map_of(f));
                    crate::file_coverage::lemma_merge_files_commutative(
                        merge_files(aproject_map_of(a)[q], afile_map_of(f)),
                        Map::empty(),
                    );
                    assert(merge_files(Map::empty(), merge_files(
                        aproject_map_of(a)[q],
                        afile_map_of(f),
                    )) =~~= merge_files(aproject_map_of(a)[q], afile_map_of(f)));
                } else {
                    assert(merge_files(Map::empty(), afile_map_of(f)) =~~= afile_map_of(f));
                }
            } else {
                if pindex_of_path(b, q) >= 0 {
                    let w = pindex_of_path(b, q);
                    assert(w > 0);
                    assert(b.skip(1)[w - 1] == b[w]);
                    lemma_aproject_map_of_contains(b, w);
                    lemma_aproject_map_of_contains(b.skip(1), w - 1);
                } else {
                    if pindex_of_path(b.skip(1), q) >= 0 {
                        let w = pindex_of_path(b.skip(1), q);
                        assert(b[w + 1].0 == q);
                        assert(false);
                    }
                }
            }
        }
        assert(aproject_map_of(aproject_merge_fold(a, b)) =~~= merge_projects(
            aproject_map_of(a),
            aproject_map_of(b),
        ));
    }
}

/// Merging project mappings is commutative: the additive union does not
/// depend on the order of its two arguments.
pub proof fn lemma_merge_projects_commutative(a: ProjectMap, b: ProjectMap)
    ensures
        merge_projects(a, b) =~~= merge_projects(b, a),
{
    assert forall|q: Seq<char>|
        merge_projects(a, b).dom().contains(q) implies merge_projects(a, b)[q] =~~= merge_projects(
        b,
        a,
    )[q] by {
        if a.dom().contains(q) && b.dom().contains(q) {
            crate::file_coverage::lemma_merge_files_commutative(a[q], b[q]);
        }
    }
}

/// Merging project mappings is associative: a fold over any grouping of
/// artifacts yields the same coverage.
pub proof fn lemma_merge_projects_associative(a: ProjectMap, b: ProjectMap, c: ProjectMap)
    ensures
        merge_projects(merge_projects(a, b), c) =~~= merge_projects(a, merge_projects(b, c)),
{
    assert forall|q: Seq<char>|
        merge_projects(merge_projects(a, b), c).dom().contains(q) implies merge_projects(
        merge_projects(a, b),
        c,
    )[q] =~~= merge_projects(a, merge_projects(b, c))[q] by {
        if a.dom().contains(q) && b.dom().contains(q) && c.dom().contains(q) {
            crate::file_coverage::lemma_merge_files_associative(a[q], b[q], c[q]);
        }
    }
}

/// The coverage of a whole project, one entry per source file path.
pub struct ProjectCoverage {
    pub entries: Vec<(String, FileCoverage)>,
}

impl View for ProjectCoverage {
    type V = ProjectMap;

    open spec fn view(&self) -> ProjectMap {
        aproject_map_of(self.abs())
    }
}

impl ProjectCoverage {
    /// The mathematical content of the entries.
    pub open spec fn abs(&self) -> AProject {
        self.entries@.map_values(|e: (String, FileCoverage)| (e.0@, e.1.abs()))
    }

    /// The entries are sorted by path and every file's entries are sorted.
    pub open spec fn wf(&self) -> bool {
        aproject_sorted(self.abs())
    }

    pub fn new() -> (r: ProjectCoverage)
        ensures
            r.wf(),
            r.abs() =~= Seq::<(Seq<char>, AFile)>::empty(),
            r@ =~= Map::<Seq<char>, Map<Seq<char>, Map<u64, u64>>>::empty(),
    {
        let r = ProjectCoverage { entries: Vec::new() };
        proof {
            assert(r.abs() =~= Seq::<(Seq<char>, AFile)>::empty());
            assert(r@ =~= Map::<Seq<char>, Map<Seq<char>, Map<u64, u64>>>::empty());
        }
        r
    }

    /// Position of the first entry whose path is not below `path`.
    fn lower_bound(&self, path: &str) -> (i: usize)
        requires
            self.wf(),
        ensures
            i <= self.entries@.len(),
            forall|j: int| 0 <= j < i ==> lex_lt(#[trigger] self.abs()[j].0, path@),
            i < self.entries@.len() ==> !lex_lt(self.abs()[i as int].0, path@),
    {
        let n = self.entries.len();
        let mut i: usize = 0;
        loop
            invariant
                i <= n,
                n == self.entries@.len(),
                self.wf(),
                forall|j: int| 0 <= j < i ==> lex_lt(#[trigger] self.abs()[j].0, path@),
            ensures
                i <= n,
                forall|j: int| 0 <= j < i ==> lex_lt(#[trigger] self.abs()[j].0, path@),
                i < n ==> !lex_lt(self.abs()[i as int].0, path@),
            decreases n - i,
        {
            if i >= n {
                break ;
            }
            let below = str_lt(self.entries[i].0.as_str(), path);
            proof {
                assert(self.abs()[i as int].0 == self.entries@[i as int].0@);
            }
            if !below {
                break ;
            }
            i = i + 1;
        }
        i
    }

    /// Add `v` to the count of `line` in the function called `name` of the
    /// file at `path`, registering the file, the function and the line as
    /// needed. An addition of zero still registers the line.
    pub fn add(&mut self, path: &str, name: &str, line: u64, v: u64)
        requires
            old(self).wf(),
        ensures
            final(self).wf(),
            final(self).abs() =~= aproject_add(old(self).abs(), path@, name@, line, v),
    {
        let ghost p0 = self.abs();
        let ghost fspec: AFile = seq![(name@, seq![(line, v)])];
        let i = self.lower_bound(path);
        proof {
            lemma_aproject_combine_at(p0, path@, fspec, i as int);
        }
        if i < self.entries.len() {
            let same = str_eq(self.entries[i].0.as_str(), path);
            proof {
                assert(self.abs()[i as int].0 == self.entries@[i as int].0@);
            }
            if same {
                let ghost prev = self.entries@;
                let (key, mut file) = self.entries.remove(i);
                proof {
                    assert(prev[i as int].1.abs() == p0[i as int].1);
                }
                file.add(name, line, v);
                self.entries.insert(i, (key, file));
                proof {
                    assert(self.entries@ =~= prev.update(i as int, (key, file)));
                    assert(self.abs() =~= p0.update(
                        i as int,
                        (path@, afile_add(p0[i as int].1, name@, line, v)),
                    ));
                    assert(self.abs() =~= aproject_add(p0, path@, name@, line, v));
                    lemma_aproject_add_sorted(p0, path@, name@, line, v, i as int);
                }
                return ;
            }
        }
        let mut file = FileCoverage::new();
        file.add(name, line, v);
        self.entries.insert(i, (String::from_str(path), file));
        proof {
            assert(file.abs() =~= fspec);
            assert(self.abs() =~= p0.insert(i as int, (path@, fspec)));
            assert(self.abs() =~= aproject_add(p0, path@, name@, line, v));
            lemma_aproject_add_sorted(p0, path@, name@, line, v, i as int);
        }
    }

    /// Fold every file of `other` into this project's coverage.
    pub fn merge(&mut self, other: &ProjectCoverage)
        requires
            old(self).wf(),
            other.wf(),
        ensures
            final(self).wf(),
            final(self).abs() =~= aproject_merge_fold(old(self).abs(), other.abs()),
            final(self)@ =~~= merge_projects(old(self)@, other@),
    {
        let ghost a0 = self.abs();
        let ghost b = other.abs();
        proof {
            assert(b.skip(0int) =~= b);
        }
        let n = other.entries.len();
        let mut i: usize = 0;
        while i < n
            invariant
                i <= n,
                n == b.len(),
                other.abs() == b,
                other.wf(),
                self.wf(),
                aproject_merge_fold(a0, b) =~= aproject_merge_fold(self.abs(), b.skip(i as int)),
            decreases n - i,
        {
            proof {
                assert(b.skip(i as int)[0] == b[i as int]);
                assert(b.skip(i as int).skip(1) =~= b.skip(i + 1));
            }
            let ghost before = self.abs();
            let (path, file) = (&other.entries[i].0, &other.entries[i].1);
            proof {
                assert(b[i as int] == (path@, file.abs()));
            }
            self.merge_entry(path.as_str(), file);
            proof {
                assert(self.abs() =~= aproject_merge_entry(before, b[i as int].0, b[i as int].1));
                assert(aproject_merge_fold(a0, b) =~= aproject_merge_fold(
                    self.abs(),
                    b.skip(i + 1),
                ));
            }
            i = i + 1;
        }
        proof {
            assert(b.skip(i as int) =~= Seq::<(Seq<char>, AFile)>::empty());
            lemma_aproject_merge_fold_map(a0, b);
        }
    }

    /// Merge one file's coverage into this project's coverage.
    fn merge_entry(&mut self, path: &str, file: &FileCoverage)
        requires
            old(self).wf(),
            file.wf(),
        ensures
            final(self).wf(),
            final(self).abs() =~= aproject_merge_entry(old(self).abs(), path@, file.abs()),
    {
        let ghost p0 = self.abs();
        let i = self.lower_bound(path);
        proof {
            lemma_aproject_combine_at(p0, path@, file.abs(), i as int);
            lemma_aproject_merge_entry_sorted(p0, path@, file.abs());
        }
        if i < self.entries.len() {
            let same = str_eq(self.entries[i].0.as_str(), path);
            proof {
                assert(self.abs()[i as int].0 == self.entries@[i as int].0@);
            }
            if same {
                let ghost prev = self.entries@;
                let (key, mut existing) = self.entries.remove(i);
                proof {
                    assert(prev[i as int].1.abs() == p0[i as int].1);
                }
                existing.merge(file);
                self.entries.insert(i, (key, existing));
                proof {
                    assert(self.entries@ =~= prev.update(i as int, (key, existing)));
                    assert(self.abs() =~= p0.update(
                        i as int,
                        (path@, afile_merge_fold(p0[i as int].1, file.abs())),
                    ));
                    assert(self.abs() =~= aproject_merge_entry(p0, path@, file.abs()));
                }
                return ;
            }
        }
        self.entries.insert(i, (String::from_str(path), file.duplicate()));
        proof {
            assert(self.abs() =~= p0.insert(i as int, (path@, file.abs())));
            assert(self.abs() =~= aproject_merge_entry(p0, path@, file.abs()));
        }
    }

    /// Clamp every count of every file to at most one.
    pub fn truncate_to_one(&mut self)
        requires
            old(self).wf(),
        ensures
            final(self).wf(),
            final(self).abs() =~= aproject_truncate(old(self).abs()),
            final(self)@ =~~= map_project_truncate(old(self)@),
    {
        let ghost p0 = self.abs();
        let n = self.entries.len();
        let mut i: usize = 0;
        while i < n
            invariant
                i <= n,
                n == self.entries@.len(),
                aproject_sorted(p0),
                self.abs().len() == p0.len(),
                forall|j: int| i <= j < p0.len() ==> self.abs()[j] == p0[j],
                forall|j: int| 0 <= j < i ==> self.abs()[j] == (p0[j].0, afile_truncate(p0[j].1)),
            decreases n - i,
        {
            let ghost prev = self.entries@;
            let ghost abs_prev = self.abs();
            let (key, mut file) = self.entries.remove(i);
            proof {
                assert(prev[i as int].1.abs() == p0[i as int].1);
            }
            file.truncate_to_one();
            self.entries.insert(i, (key, file));
            proof {
                assert(self.entries@ =~= prev.update(i as int, (key, file)));
                assert forall|j: int| 0 <= j < p0.len() && j != i implies self.abs()[j]
                    == abs_prev[j] by {
                    assert(self.entries@[j] == prev[j]);
                }
                assert forall|j: int| 0 <= j < i implies self.abs()[j] == (
                p0[j].0,
                afile_truncate(p0[j].1),
                ) by {
                    assert(self.abs()[j] == abs_prev[j]);
                    assert(abs_prev[j] == (p0[j].0, afile_truncate(p0[j].1)));
                }
                assert(self.abs()[i as int] == (p0[i as int].0, afile_truncate(p0[i as int].1)));
            }
            i = i + 1;
        }
        proof {
            assert(self.abs() =~= aproject_truncate(p0));
            lemma_aproject_truncate(p0);
        }
    }

    /// A copy with the same entries.
    pub fn duplicate(&self) -> (r: ProjectCoverage)
        ensures
            r.abs() =~= self.abs(),
            r@ == self@,
    {
        let n = self.entries.len();
        let mut entries: Vec<(String, FileCoverage)> = Vec::new();
        let mut i: usize = 0;
        while i < n
            invariant
                i <= n,
                n == self.entries@.len(),
                entries@.len() == i,
                forall|j: int|
                    0 <= j < i ==> (#[trigger] entries@[j].0@ == self.entries@[j].0@
                        && entries@[j].1.abs() =~= self.entries@[j].1.abs()),
            decreases n - i,
        {
            let ghost before = entries@;
            let path = self.entries[i].0.clone();
            let file = self.entries[i].1.duplicate();
            entries.push((path, file));
            proof {
                assert forall|j: int| 0 <= j < i implies (#[trigger] entries@[j].0@
                    == self.entries@[j].0@ && entries@[j].1.abs() =~= self.entries@[j].1.abs())
                    by {
                    assert(entries@[j] == before[j]);
                    assert(before[j].0@ == self.entries@[j].0@);
                    assert(before[j].1.abs() =~= self.entries@[j].1.abs());
                }
                assert(entries@[i as int].0@ == self.entries@[i as int].0@);
                assert(entries@[i as int].1.abs() =~= self.entries@[i as int].1.abs());
            }
            i = i + 1;
        }
        let r = ProjectCoverage { entries };
        proof {
            assert(r.abs() =~= self.abs());
            assert(aproject_map_of(r.abs()) == aproject_map_of(self.abs()));
        }
        r
    }
}

/// Sortedness is preserved by a point addition.
proof fn lemma_aproject_add_sorted(
    p: AProject,
    path: Seq<char>,
    name: Seq<char>,
    line: u64,
    v: u64,
    i: int,
)
    requires
        aproject_sorted(p),
        0 <= i <= p.len(),
        forall|j: int| 0 <= j < i ==> lex_lt(#[trigger] p[j].0, path),
        i < p.len() ==> !lex_lt(p[i as int].0, path),
    ensures
        aproject_sorted(aproject_add(p, path, name, line, v)),
{
    let ghost fspec: AFile = seq![(name, seq![(line, v)])];
    lemma_aproject_combine_at(p, path, fspec, i);
    lemma_aproject_add_is_merge_single(p, path, name, line, v);
    assert(counts_single_sorted(name, line, v));
    lemma_aproject_merge_entry_sorted(p, path, fspec);
}

/// A one-function, one-line file entry is well formed.
spec fn counts_single_sorted(name: Seq<char>, line: u64, v: u64) -> bool {
    afile_sorted(seq![(name, seq![(line, v)])])
}

/// A point addition is the merge of a one-function, one-line entry.
pub proof fn lemma_aproject_add_is_merge_single(
    p: AProject,
    path: Seq<char>,
    name: Seq<char>,
    line: u64,
    v: u64,
)
    ensures
        aproject_add(p, path, name, line, v) =~= aproject_merge_entry(
            p,
            path,
            seq![(name, seq![(line, v)])],
        ),
    decreases p.len(),
{
    let fspec: AFile = seq![(name, seq![(line, v)])];
    assert(fspec[0] == (name, seq![(line, v)]));
    assert(fspec.skip(1) =~= Seq::<(Seq<char>, Seq<(u64, u64)>)>::empty());
    if p.len() == 0 {
    } else if lex_lt(path, p[0].0) {
    } else if path == p[0].0 {
        assert(afile_merge_fold(p[0].1, fspec) == afile_merge_fold(
            afile_merge_entry(p[0].1, name, seq![(line, v)]),
            fspec.skip(1),
        ));
        crate::file_coverage::lemma_afile_add_single(p[0].1, name, line, v);
    } else {
        lemma_aproject_add_is_merge_single(p.skip(1), path, name, line, v);
    }
}

proof fn lemma_aproject_truncate(p: AProject)
    ensures
        aproject_sorted(p) ==> aproject_sorted(aproject_truncate(p)),
        aproject_sorted(p) ==> aproject_map_of(aproject_truncate(p)) =~~= map_project_truncate(
            aproject_map_of(p),
        ),
{
    if aproject_sorted(p) {
        let t = aproject_truncate(p);
        assert forall|i: int| 0 <= i < t.len() implies afile_sorted(#[trigger] t[i].1) by {
            assert(t[i] == (p[i].0, afile_truncate(p[i].1)));
            crate::file_coverage::lemma_afile_truncate_public(p[i].1);
        }
        assert forall|q: Seq<char>|
            pindex_of_path(t, q) == pindex_of_path(p, q) by {
            lemma_pindex_truncate(p, q);
        }
        assert forall|q: Seq<char>|
            aproject_map_of(t).dom().contains(q) == map_project_truncate(
                aproject_map_of(p),
            ).dom().contains(q) by {
            lemma_pindex_of_path(p, q);
            lemma_pindex_of_path(t, q);
        }
        assert(aproject_map_of(t).dom() =~= map_project_truncate(aproject_map_of(p)).dom());
        assert forall|q: Seq<char>|
            map_project_truncate(aproject_map_of(p)).dom().contains(q) implies aproject_map_of(
            t,
        )[q] =~~= map_project_truncate(aproject_map_of(p))[q] by {
            lemma_pindex_of_path(p, q);
            lemma_pindex_of_path(t, q);
            assert(t[pindex_of_path(p, q)] == (p[pindex_of_path(p, q)].0, afile_truncate(
                p[pindex_of_path(p, q)].1,
            )));
            crate::file_coverage::lemma_afile_truncate_map_public(p[pindex_of_path(p, q)].1);
        }
        assert(aproject_map_of(t) =~~= map_project_truncate(aproject_map_of(p)));
    }
}

proof fn lemma_pindex_truncate(p: AProject, q: Seq<char>)
    ensures
        pindex_of_path(aproject_truncate(p), q) == pindex_of_path(p, q),
    decreases p.len(),
{
    let t = aproject_truncate(p);
    if p.len() > 0 {
        assert(t[0] == (p[0].0, afile_truncate(p[0].1)));
        if p[0].0 != q {
            lemma_pindex_truncate(p.skip(1), q);
            assert(t.skip(1) =~= aproject_truncate(p.skip(1)));
        }
    }
}

/// Registering one statement's line range: every line of the range is added
/// under the statement's file and function with the statement's count, so a
/// line that was never executed still appears with count zero.
pub open spec fn register_lines(
    p: AProject,
    path: Seq<char>,
    name: Seq<char>,
    line: int,
    end: int,
    count: u64,
) -> AProject
    decreases end + 1 - line,
{
    if line > end || line < 0 {
        p
    } else {
        register_lines(aproject_add(p, path, name, line as u64, count), path, name, line + 1, end, count)
    }
}

/// The project coverage that one artifact's retained statements and executed
/// counts denote: every statement registers its line range with its count,
/// zero for statements that never ran.
pub open spec fn create_spec(
    infos: Seq<(u64, crate::statement_information::StatementInformationView)>,
    executed: Map<u64, u64>,
) -> AProject
    decreases infos.len(),
{
    if infos.len() == 0 {
        Seq::empty()
    } else {
        let p = create_spec(infos.drop_last(), executed);
        let idx = infos.last().0;
        let info = infos.last().1;
        let count = if executed.dom().contains(idx) {
            executed[idx]
        } else {
            0u64
        };
        register_lines(
            p,
            info.source_file_full_path,
            info.function_name,
            info.start as int,
            info.end as int,
            count,
        )
    }
}

impl ProjectCoverage {
    /// Register every line of the range with the given count.
    fn register_line_execution(&mut self, path: &str, name: &str, range: &crate::statement_information::LineRange, count: u64)
        requires
            old(self).wf(),
        ensures
            final(self).wf(),
            final(self).abs() =~= register_lines(
                old(self).abs(),
                path@,
                name@,
                range.start as int,
                range.end as int,
                count,
            ),
    {
        if range.start > range.end {
            return ;
        }
        let mut line = range.start;
        loop
            invariant_except_break
                register_lines(
                    old(self).abs(),
                    path@,
                    name@,
                    range.start as int,
                    range.end as int,
                    count,
                ) =~= register_lines(
                    self.abs(),
                    path@,
                    name@,
                    line as int,
                    range.end as int,
                    count,
                ),
            invariant
                self.wf(),
                range.start <= line <= range.end,
            ensures
                self.wf(),
                register_lines(
                    old(self).abs(),
                    path@,
                    name@,
                    range.start as int,
                    range.end as int,
                    count,
                ) =~= self.abs(),
            decreases range.end - line,
        {
            let ghost before = self.abs();
            self.add(path, name, line, count);
            proof {
                assert(register_lines(before, path@, name@, line as int, range.end as int, count)
                    =~= register_lines(
                    self.abs(),
                    path@,
                    name@,
                    line + 1,
                    range.end as int,
                    count,
                ));
            }
            if line == range.end {
                proof {
                    assert(register_lines(
                        self.abs(),
                        path@,
                        name@,
                        line + 1,
                        range.end as int,
                        count,
                    ) =~= self.abs());
                }
                break ;
            }
            line = line + 1;
        }
    }
}

/// Fold one artifact's coverage input into a fresh project coverage: every
/// retained statement registers its line range, carrying its executed count,
/// or zero if it never ran.
pub fn create(coverage_input: crate::coverage_input::CoverageInput) -> (r: ProjectCoverage)
    requires
        coverage_input.executed_statement_count.wf(),
    ensures
        r.wf(),
        r.abs() =~= create_spec(
            crate::statement_information::info_entries_view(
                coverage_input.statement_information_map.entries@,
            ),
            coverage_input.executed_statement_count@,
        ),
{
    let ghost infos = crate::statement_information::info_entries_view(
        coverage_input.statement_information_map.entries@,
    );
    let ghost executed = coverage_input.executed_statement_count@;
    let mut project = ProjectCoverage::new();
    let n = coverage_input.statement_information_map.entries.len();
    let mut i: usize = 0;
    proof {
        assert(infos.take(0int) =~= Seq::<
            (u64, crate::statement_information::StatementInformationView),
        >::empty());
    }
    while i < n
        invariant
            i <= n,
            n == infos.len(),
            infos == crate::statement_information::info_entries_view(
                coverage_input.statement_information_map.entries@,
            ),
            executed == coverage_input.executed_statement_count@,
            coverage_input.executed_statement_count.wf(),
            project.wf(),
            project.abs() =~= create_spec(infos.take(i as int), executed),
        decreases n - i,
    {
        proof {
            assert(infos.take(i + 1).drop_last() =~= infos.take(i as int));
            assert(infos.take(i + 1).last() == infos[i as int]);
            assert(infos[i as int] == (
                coverage_input.statement_information_map.entries@[i as int].0,
                coverage_input.statement_information_map.entries@[i as int].1@,
            ));
        }
        let idx = coverage_input.statement_information_map.entries[i].0;
        let info = &coverage_input.statement_information_map.entries[i].1;
        let count = match coverage_input.executed_statement_count.get(idx) {
            Some(c) => c,
            None => 0,
        };
        project.register_line_execution(
            info.source_file_full_path.as_str(),
            info.function_name.as_str(),
            &info.line_range,
            count,
        );
        i = i + 1;
    }
    proof {
        assert(infos.take(n as int) =~= infos);
    }
    project
}

/// Merge two project coverages and return the result.
pub fn merge(this: ProjectCoverage, that: ProjectCoverage) -> (r: ProjectCoverage)
    requires
        this.wf(),
        that.wf(),
    ensures
        r.wf(),
        r.abs() =~= aproject_merge_fold(this.abs(), that.abs()),
        r@ =~~= merge_projects(this@, that@),
{
    let mut merged = this;
    merged.merge(&that);
    merged
}

/// Clamp every hit count of the project to at most one. Raw counts are not
/// stable across build-tool versions; a clamped report only records whether a
/// line was hit at all.
pub fn truncate_to_one(project_coverage: &mut ProjectCoverage)
    requires
        old(project_coverage).wf(),
    ensures
        final(project_coverage).wf(),
        final(project_coverage).abs() =~= aproject_truncate(old(project_coverage).abs()),
        final(project_coverage)@ =~~= map_project_truncate(old(project_coverage)@),
{
    project_coverage.truncate_to_one();
}

} // verus!
