//! Turns low-level execution traces of compiled programs into a line-coverage
//! report: debug metadata maps each intermediate statement to its source
//! function and lines, the recorded program counters are resolved, filtered
//! and tallied against that mapping, the per-artifact results are merged, and
//! the merged coverage is rendered in the LCOV text format.
use vstd::prelude::*;

pub mod annotations;
pub mod args;
pub mod coverage_input;
pub mod errors;
pub mod executed_statement_count;
pub mod file_coverage;
pub mod function_coverage;
pub mod ignore_matcher;
pub mod laws;
pub mod lcov;
pub mod libfuncs;
pub mod loading;
pub mod project_coverage;
pub mod statement_category_filter;
pub mod statement_information;
pub mod test_function_filter;
pub mod text;
pub mod virtual_file;

use crate::annotations::code_locations_view;
use crate::annotations::names_view;
use crate::args::IncludedComponent;
use crate::args::RunOptions;
use crate::errors::CoverageError;
use crate::executed_statement_count::all_resolved_ids;
use crate::executed_statement_count::dedup_ids;
use crate::executed_statement_count::tally;
use crate::function_coverage::counts_map_of;
use crate::ignore_matcher::CairoCoverageIgnoreMatcher;
use crate::lcov::lcov_project;
use crate::loading::CasmDebugInfo;
use crate::loading::CasmLevelInfo;
use crate::loading::ExecutionData;
use crate::project_coverage::aproject_merge_fold;
use crate::project_coverage::aproject_truncate;
use crate::project_coverage::create_spec;
use crate::project_coverage::AProject;
use crate::project_coverage::ProjectCoverage;
use crate::statement_category_filter::filter_spec_of;
use crate::statement_category_filter::StatementCategoryFilter;
use crate::statement_information::build_map_spec;
use crate::statement_information::lines_in_range;

verus! {

/// Every line number and program counter of the loaded data is small enough
/// to survive the 1-based shift and the header arithmetic.
pub open spec fn execution_data_in_range(data: ExecutionData) -> bool {
    &&& forall|i: int|
        0 <= i < data.enriched_program.coverage_annotations.statements_code_locations@.len()
            ==> lines_in_range(
            code_locations_view(
                #[trigger] data.enriched_program.coverage_annotations.statements_code_locations@[i].1@,
            ),
        )
    &&& forall|t: int, i: int|
        0 <= t < data.casm_level_infos@.len() && 0 <= i
            < (#[trigger] data.casm_level_infos@[t]).vm_trace@.len()
            ==> #[trigger] data.casm_level_infos@[t].vm_trace@[i] < u64::MAX
    &&& data.enriched_program.statements@.len() <= u64::MAX
}

/// The coverage of one artifact, given the debug map the backend compiler
/// produced for its program body: the retained statements are resolved from
/// the artifact's annotations through the run's filter, the artifact's traces
/// are resolved, deduplicated and tallied against the debug map, and every
/// retained statement registers its line range with its count.
pub open spec fn artifact_coverage(
    data: ExecutionData,
    project_path: Seq<char>,
    components: Seq<IncludedComponent>,
    ignore_root: Seq<char>,
    ignore_patterns: Seq<Seq<char>>,
    debug_map: CasmDebugInfo,
) -> AProject {
    let fs = filter_spec_of(
        project_path,
        components,
        ignore_root,
        ignore_patterns,
        data.enriched_program,
    );
    let infos = build_map_spec(
        fs,
        data.enriched_program.coverage_annotations.statements_code_locations@,
        data.enriched_program.profiler_annotations.statements_functions@,
    );
    let executed = counts_map_of(
        tally(
            dedup_ids(
                all_resolved_ids(
                    debug_map.statement_start_offsets@,
                    debug_map.bytecode_length,
                    data.casm_level_infos@.map_values(|c: CasmLevelInfo| c@),
                ),
                infos,
            ),
        ),
    );
    create_spec(infos, executed)
}

/// The merged coverage of all artifacts, given one debug map per artifact:
/// the artifacts' coverage, folded left to right with the additive merge.
pub open spec fn merged_coverage(
    datas: Seq<ExecutionData>,
    project_path: Seq<char>,
    components: Seq<IncludedComponent>,
    ignore_root: Seq<char>,
    ignore_patterns: Seq<Seq<char>>,
    debug_maps: Seq<CasmDebugInfo>,
) -> AProject
    decreases datas.len(),
{
    if datas.len() == 0 {
        Seq::empty()
    } else {
        let last = artifact_coverage(
            datas.last(),
            project_path,
            components,
            ignore_root,
            ignore_patterns,
            debug_maps[datas.len() - 1],
        );
        if datas.len() == 1 {
            last
        } else {
            aproject_merge_fold(
                merged_coverage(
                    datas.drop_last(),
                    project_path,
                    components,
                    ignore_root,
                    ignore_patterns,
                    debug_maps,
                ),
                last,
            )
        }
    }
}

/// Every debug map of the sequence is well formed.
pub open spec fn all_debug_maps_wf(debug_maps: Seq<CasmDebugInfo>) -> bool {
    forall|j: int| 0 <= j < debug_maps.len() ==> (#[trigger] debug_maps[j]).wf()
}

/// The merged coverage reads only the debug maps of its artifacts: entries of
/// the map sequence beyond the artifacts play no part.
proof fn lemma_merged_coverage_prefix(
    datas: Seq<ExecutionData>,
    project_path: Seq<char>,
    components: Seq<IncludedComponent>,
    ignore_root: Seq<char>,
    ignore_patterns: Seq<Seq<char>>,
    ds1: Seq<CasmDebugInfo>,
    ds2: Seq<CasmDebugInfo>,
)
    requires
        forall|j: int| 0 <= j < datas.len() ==> ds1[j] == ds2[j],
    ensures
        merged_coverage(datas, project_path, components, ignore_root, ignore_patterns, ds1)
            == merged_coverage(datas, project_path, components, ignore_root, ignore_patterns, ds2),
    decreases datas.len(),
{
    if datas.len() > 1 {
        lemma_merged_coverage_prefix(
            datas.drop_last(),
            project_path,
            components,
            ignore_root,
            ignore_patterns,
            ds1,
            ds2,
        );
    }
}

/// Run the core coverage pipeline on the loaded artifacts: build each
/// artifact's filter and coverage input, aggregate it, merge the artifacts'
/// coverage, and render the merged coverage as an LCOV report. Counts are
/// truncated to one unless the options say otherwise.
///
/// On success the report is pinned to the inputs: it renders the merged
/// coverage of the artifacts for some well-formed backend debug map per
/// artifact — which map the backend compiler produces for a program body is
/// the one thing the contract leaves open. The report fails only when the
/// ignore patterns are malformed, when there is no artifact to merge, or when
/// the backend compiler rejects an artifact's program body.
pub fn run(
    execution_data_list: Vec<ExecutionData>,
    project_path: &str,
    ignore_root: &str,
    ignore_patterns: &Vec<String>,
    options: &RunOptions,
) -> (r: Result<String, CoverageError>)
    requires
        forall|d: int|
            0 <= d < execution_data_list@.len() ==> #[trigger] execution_data_in_range(
                execution_data_list@[d],
            ),
    ensures
        r matches Err(e) ==> (e is InvalidIgnoreFile || e is NothingToMerge
            || e is BackendCompilationFailed),
        (r matches Err(e) && e is NothingToMerge) ==> execution_data_list@.len() == 0,
        (r matches Err(e) && e is InvalidIgnoreFile) ==> ignore_patterns@.len() > 0,
        execution_data_list@.len() == 0 ==> r is Err,
        r matches Ok(report) ==> {
            &&& execution_data_list@.len() > 0
            &&& exists|debug_maps: Seq<CasmDebugInfo>|
                {
                    &&& #[trigger] all_debug_maps_wf(debug_maps)
                    &&& debug_maps.len() == execution_data_list@.len()
                    &&& report@ == lcov_project(
                        if options.no_truncation {
                            merged_coverage(
                                execution_data_list@,
                                project_path@,
                                options.included_components@,
                                ignore_root@,
                                names_view(ignore_patterns@),
                                debug_maps,
                            )
                        } else {
                            aproject_truncate(
                                merged_coverage(
                                    execution_data_list@,
                                    project_path@,
                                    options.included_components@,
                                    ignore_root@,
                                    names_view(ignore_patterns@),
                                    debug_maps,
                                ),
                            )
                        },
                    )
                }
        },
{
    let ignore_matcher = match CairoCoverageIgnoreMatcher::new(ignore_root, ignore_patterns) {
        Ok(m) => m,
        Err(e) => {
            return Err(e);
        },
    };
    let mut merged: Option<ProjectCoverage> = None;
    let ghost mut debug_maps: Seq<CasmDebugInfo> = Seq::empty();
    let n = execution_data_list.len();
    let mut i: usize = 0;
    while i < n
        invariant
            i <= n,
            n == execution_data_list@.len(),
            forall|d: int|
                0 <= d < execution_data_list@.len() ==> #[trigger] execution_data_in_range(
                    execution_data_list@[d],
                ),
            ignore_matcher.spec_root() == ignore_root@,
            ignore_matcher.spec_patterns() == names_view(ignore_patterns@),
            debug_maps.len() == i,
            all_debug_maps_wf(debug_maps),
            i == 0 ==> merged is None,
            i > 0 ==> (merged matches Some(p) && p.wf() && p.abs() =~= merged_coverage(
                execution_data_list@.take(i as int),
                project_path@,
                options.included_components@,
                ignore_root@,
                names_view(ignore_patterns@),
                debug_maps,
            )),
        decreases n - i,
    {
        let execution_data = &execution_data_list[i];
        proof {
            assert(execution_data_in_range(execution_data_list@[i as int]));
        }
        let matcher = ignore_matcher.duplicate();
        let filter = StatementCategoryFilter::new(
            project_path,
            &options.included_components,
            matcher,
            &execution_data.enriched_program,
        );
        let ghost fs = filter_spec_of(
            project_path@,
            options.included_components@,
            ignore_root@,
            names_view(ignore_patterns@),
            execution_data_list@[i as int].enriched_program,
        );
        proof {
            assert(filter@ == fs);
        }
        let coverage_input = match coverage_input::build(execution_data, &filter) {
            Ok(ci) => ci,
            Err(e) => {
                return Err(e);
            },
        };
        let ghost d = choose|d: CasmDebugInfo|
            #[trigger] d.wf() && coverage_input.executed_statement_count.entries@ =~= tally(
                dedup_ids(
                    all_resolved_ids(
                        d.statement_start_offsets@,
                        d.bytecode_length,
                        execution_data.casm_level_infos@.map_values(|c: CasmLevelInfo| c@),
                    ),
                    crate::statement_information::info_entries_view(
                        coverage_input.statement_information_map.entries@,
                    ),
                ),
            );
        let artifact = project_coverage::create(coverage_input);
        proof {
            let infos = crate::statement_information::info_entries_view(
                coverage_input.statement_information_map.entries@,
            );
            assert(infos == build_map_spec(
                fs,
                execution_data_list@[i as int].enriched_program.coverage_annotations.statements_code_locations@,
                execution_data_list@[i as int].enriched_program.profiler_annotations.statements_functions@,
            ));
            assert(coverage_input.executed_statement_count@ == counts_map_of(
                tally(
                    dedup_ids(
                        all_resolved_ids(
                            d.statement_start_offsets@,
                            d.bytecode_length,
                            execution_data_list@[i as int].casm_level_infos@.map_values(
                                |c: CasmLevelInfo| c@,
                            ),
                        ),
                        infos,
                    ),
                ),
            ));
            assert(artifact.abs() =~= artifact_coverage(
                execution_data_list@[i as int],
                project_path@,
                options.included_components@,
                ignore_root@,
                names_view(ignore_patterns@),
                d,
            ));
        }
        let ghost previous_maps = debug_maps;
        proof {
            debug_maps = debug_maps.push(d);
        }
        let ghost before = merged;
        merged = match merged {
            None => Some(artifact),
            Some(mut acc) => {
                acc.merge(&artifact);
                Some(acc)
            },
        };
        proof {
            let datas = execution_data_list@;
            assert(datas.take(i + 1).drop_last() =~= datas.take(i as int));
            assert(datas.take(i + 1).last() == datas[i as int]);
            assert(debug_maps[i as int] == d);
            if i > 0 {
                lemma_merged_coverage_prefix(
                    datas.take(i as int),
                    project_path@,
                    options.included_components@,
                    ignore_root@,
                    names_view(ignore_patterns@),
                    previous_maps,
                    debug_maps,
                );
            }
            assert(merged matches Some(p) && (p.abs() =~= merged_coverage(
                datas.take(i + 1),
                project_path@,
                options.included_components@,
                ignore_root@,
                names_view(ignore_patterns@),
                debug_maps,
            )));
        }
        i = i + 1;
    }
    let mut project_coverage = match merged {
        Some(p) => p,
        None => {
            return Err(CoverageError::NothingToMerge);
        },
    };
    proof {
        assert(execution_data_list@.take(n as int) =~= execution_data_list@);
    }
    let ghost untruncated = project_coverage.abs();
    if !options.no_truncation {
        project_coverage::truncate_to_one(&mut project_coverage);
        proof {
            assert(project_coverage.abs() =~= aproject_truncate(untruncated));
        }
    }
    let report = lcov::fmt_string(&project_coverage);
    proof {
        let pinned = merged_coverage(
            execution_data_list@,
            project_path@,
            options.included_components@,
            ignore_root@,
            names_view(ignore_patterns@),
            debug_maps,
        );
        assert(untruncated == pinned);
        if options.no_truncation {
            assert(report@ == lcov_project(pinned));
        } else {
            assert(project_coverage.abs() == aproject_truncate(pinned));
            assert(report@ == lcov_project(aproject_truncate(pinned)));
        }
        assert(all_debug_maps_wf(debug_maps) && debug_maps.len() == execution_data_list@.len());
    }
    Ok(report)
}

} // verus!
