//! All the data that the coverage analysis of one artifact needs: which
//! statements were executed how often, and what is known about each retained
//! statement. Building it compiles the artifact's program body to its
//! low-level form, a costly step that dominates a run.
use crate::annotations::code_locations_view;
use crate::errors::CoverageError;
use crate::executed_statement_count;
use crate::executed_statement_count::all_resolved_ids;
use crate::executed_statement_count::dedup_ids;
use crate::executed_statement_count::tally;
use crate::function_coverage::ExecutedStatementCount;
use crate::loading::compile;
use crate::loading::CasmDebugInfo;
use crate::loading::CasmLevelInfo;
use crate::loading::ExecutionData;
use crate::statement_category_filter::StatementCategoryFilter;
use crate::statement_information;
use crate::statement_information::info_entries_view;
use crate::statement_information::lines_in_range;
use crate::statement_information::StatementInformationMap;
use vstd::prelude::*;

verus! {

/// All necessary data for the coverage analysis of one artifact.
pub struct CoverageInput {
    pub executed_statement_count: ExecutedStatementCount,
    pub statement_information_map: StatementInformationMap,
}

/// Build the [`CoverageInput`] of one artifact. The backend compiler decides
/// which programs it accepts; for whatever debug map it hands back, the
/// executed counts are the tally of the deduplicated resolved traces.
pub fn build(execution_data: &ExecutionData, filter: &StatementCategoryFilter) -> (r: Result<
    CoverageInput,
    CoverageError,
>)
    requires
        forall|i: int|
            0 <= i
                < execution_data.enriched_program.coverage_annotations.statements_code_locations@.len()
                ==> lines_in_range(
                code_locations_view(
                    #[trigger] execution_data.enriched_program.coverage_annotations.statements_code_locations@[i].1@,
                ),
            ),
        forall|t: int, i: int|
            0 <= t < execution_data.casm_level_infos@.len() && 0 <= i
                < (#[trigger] execution_data.casm_level_infos@[t]).vm_trace@.len()
                ==> #[trigger] execution_data.casm_level_infos@[t].vm_trace@[i] < u64::MAX,
    ensures
        r matches Ok(ci) ==> {
            &&& info_entries_view(ci.statement_information_map.entries@)
                =~= statement_information::build_map_spec(
                filter@,
                execution_data.enriched_program.coverage_annotations.statements_code_locations@,
                execution_data.enriched_program.profiler_annotations.statements_functions@,
            )
            &&& ci.executed_statement_count.wf()
            &&& exists|d: CasmDebugInfo|
                #[trigger] d.wf() && ci.executed_statement_count.entries@ =~= tally(
                    dedup_ids(
                        all_resolved_ids(
                            d.statement_start_offsets@,
                            d.bytecode_length,
                            execution_data.casm_level_infos@.map_values(
                                |c: CasmLevelInfo| c@,
                            ),
                        ),
                        info_entries_view(ci.statement_information_map.entries@),
                    ),
                )
        },
        r matches Err(e) ==> e is BackendCompilationFailed,
{
    let casm_debug_info = match compile(&execution_data.enriched_program.program) {
        Some(d) => d,
        None => {
            return Err(CoverageError::BackendCompilationFailed);
        },
    };
    let statement_information_map = statement_information::build_map(
        &execution_data.enriched_program.coverage_annotations,
        &execution_data.enriched_program.profiler_annotations,
        filter,
    );
    let executed_statement_count = executed_statement_count::build(
        &execution_data.casm_level_infos,
        &casm_debug_info,
        &statement_information_map,
    );
    let r = CoverageInput { executed_statement_count, statement_information_map };
    proof {
        assert(casm_debug_info.wf() && r.executed_statement_count.entries@ =~= tally(
            dedup_ids(
                all_resolved_ids(
                    casm_debug_info.statement_start_offsets@,
                    casm_debug_info.bytecode_length,
                    execution_data.casm_level_infos@.map_values(|c: CasmLevelInfo| c@),
                ),
                info_entries_view(r.statement_information_map.entries@),
            ),
        ));
    }
    Ok(r)
}

} // verus!
