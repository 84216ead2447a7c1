//! Tests of the trace counting: program-counter resolution through the debug
//! map, deduplication of neighboring hits, and the tally.
use cairo_coverage_core::executed_statement_count::build;
use cairo_coverage_core::executed_statement_count::map_pcs_to_sierra_statement_ids;
use cairo_coverage_core::loading::CasmDebugInfo;
use cairo_coverage_core::loading::CasmLevelInfo;
use cairo_coverage_core::statement_information::LineRange;
use cairo_coverage_core::statement_information::StatementInformation;
use cairo_coverage_core::statement_information::StatementInformationMap;

fn debug_map() -> CasmDebugInfo {
    CasmDebugInfo { statement_start_offsets: vec![0, 10, 20], bytecode_length: 30 }
}

fn info(idx: u64, name: &str, line: u64) -> (u64, StatementInformation) {
    (
        idx,
        StatementInformation {
            idx,
            function_name: String::from(name),
            source_file_full_path: String::from("/proj/src/lib.cairo"),
            line_range: LineRange { start: line, end: line },
        },
    )
}

/// Statements 0 and 1 resolve to the same origin; statement 2 to another.
fn info_map() -> StatementInformationMap {
    StatementInformationMap {
        entries: vec![info(0, "f", 1), info(1, "f", 1), info(2, "g", 5)],
    }
}

#[test]
fn pcs_resolve_through_sorted_offsets() {
    let trace = CasmLevelInfo { run_with_call_header: false, vm_trace: vec![1, 5, 11, 21, 31] };
    let resolved = map_pcs_to_sierra_statement_ids(&debug_map(), &trace);
    assert_eq!(resolved, vec![Some(0), Some(0), Some(1), Some(2), None]);
}

#[test]
fn pcs_below_the_header_resolve_to_nothing() {
    let trace = CasmLevelInfo { run_with_call_header: true, vm_trace: vec![3, 9, 12, 8] };
    // The body starts one past the last recorded address: addresses below 9
    // lie in the call header.
    let resolved = map_pcs_to_sierra_statement_ids(&debug_map(), &trace);
    assert_eq!(resolved, vec![None, Some(0), Some(0), None]);
}

/// Five consecutive hits of origin-equivalent statements count once.
#[test]
fn adjacent_hits_collapse() {
    let traces = vec![CasmLevelInfo {
        run_with_call_header: false,
        vm_trace: vec![1, 2, 11, 12, 3],
    }];
    // Statements 0, 0, 1, 1, 0: all five resolve to the same origin.
    let counts = build(&traces, &debug_map(), &info_map());
    assert_eq!(counts.get(0), Some(1));
    assert_eq!(counts.get(1), None);
    assert_eq!(counts.get(2), None);
}

/// Hits of the same origin interleaved with another statement form separate
/// runs and count separately.
#[test]
fn interleaved_hits_count_separately() {
    let traces = vec![CasmLevelInfo {
        run_with_call_header: false,
        vm_trace: vec![1, 2, 3, 21, 4, 5],
    }];
    // Statements 0, 0, 0, 2, 0, 0: two runs of the first origin.
    let counts = build(&traces, &debug_map(), &info_map());
    assert_eq!(counts.get(0), Some(2));
    assert_eq!(counts.get(2), Some(1));
}

/// Two consecutive statements that both lack information never collapse.
#[test]
fn untracked_statements_stay_distinct() {
    let sparse = StatementInformationMap { entries: vec![info(0, "f", 1)] };
    let traces = vec![CasmLevelInfo { run_with_call_header: false, vm_trace: vec![11, 21] }];
    // Statements 1 and 2 have no information; they are kept apart.
    let counts = build(&traces, &debug_map(), &sparse);
    assert_eq!(counts.get(1), Some(1));
    assert_eq!(counts.get(2), Some(1));
}

/// Consecutive repeats of one untracked statement index also stay distinct,
/// so each repeat is tallied.
#[test]
fn untracked_repeats_are_tallied() {
    let sparse = StatementInformationMap { entries: vec![] };
    let traces = vec![CasmLevelInfo { run_with_call_header: false, vm_trace: vec![11, 12] }];
    let counts = build(&traces, &debug_map(), &sparse);
    assert_eq!(counts.get(1), Some(2));
}

/// The tally spans all traces of the artifact in order.
#[test]
fn counts_accumulate_across_traces() {
    let traces = vec![
        CasmLevelInfo { run_with_call_header: false, vm_trace: vec![1, 21] },
        CasmLevelInfo { run_with_call_header: false, vm_trace: vec![1] },
    ];
    let counts = build(&traces, &debug_map(), &info_map());
    assert_eq!(counts.get(0), Some(2));
    assert_eq!(counts.get(2), Some(1));
}

/// An empty debug map resolves nothing.
#[test]
fn empty_debug_map_counts_nothing() {
    let empty = CasmDebugInfo { statement_start_offsets: vec![], bytecode_length: 0 };
    let traces = vec![CasmLevelInfo { run_with_call_header: false, vm_trace: vec![1, 2, 3] }];
    let counts = build(&traces, &empty, &info_map());
    assert_eq!(counts.entries.len(), 0);
}
