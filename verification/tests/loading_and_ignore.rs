//! Tests of trace extraction and grouping, the annotation joins, the ignore
//! matcher, and the error descriptions.
use cairo_coverage_core::annotations::have_same_keys;
use cairo_coverage_core::annotations::CodeLocation;
use cairo_coverage_core::annotations::CoverageAnnotations;
use cairo_coverage_core::annotations::Position;
use cairo_coverage_core::annotations::ProfilerAnnotations;
use cairo_coverage_core::annotations::Range;
use cairo_coverage_core::errors::CoverageError;
use cairo_coverage_core::ignore_matcher::CairoCoverageIgnoreMatcher;
use cairo_coverage_core::loading::group_by_sierra_path;
use cairo_coverage_core::loading::load_cairo_execution_infos;
use cairo_coverage_core::loading::CairoExecutionInfo;
use cairo_coverage_core::loading::CallTrace;
use cairo_coverage_core::loading::CasmLevelInfo;
use cairo_coverage_core::statement_information::LineRange;
use cairo_coverage_core::test_function_filter::TestFunctionFilter;

fn execution(path: &str, pcs: Vec<u64>) -> CairoExecutionInfo {
    CairoExecutionInfo {
        source_sierra_path: String::from(path),
        casm_level_info: CasmLevelInfo { run_with_call_header: false, vm_trace: pcs },
    }
}

#[test]
fn nested_calls_are_collected_in_order() {
    let trace = CallTrace {
        cairo_execution_info: Some(execution("/a.json", vec![1])),
        nested_calls: vec![
            CallTrace {
                cairo_execution_info: None,
                nested_calls: vec![CallTrace {
                    cairo_execution_info: Some(execution("/b.json", vec![2])),
                    nested_calls: vec![],
                }],
            },
            CallTrace {
                cairo_execution_info: Some(execution("/a.json", vec![3])),
                nested_calls: vec![],
            },
        ],
    };
    let mut infos = Vec::new();
    load_cairo_execution_infos(&trace, &mut infos);
    assert_eq!(infos.len(), 3);
    assert_eq!(infos[0].source_sierra_path, "/a.json");
    assert_eq!(infos[0].casm_level_info.vm_trace, vec![1]);
    assert_eq!(infos[1].source_sierra_path, "/b.json");
    assert_eq!(infos[2].source_sierra_path, "/a.json");
    assert_eq!(infos[2].casm_level_info.vm_trace, vec![3]);
}

#[test]
fn traces_group_by_artifact_path() {
    let infos = vec![
        execution("/a.json", vec![1]),
        execution("/b.json", vec![2]),
        execution("/a.json", vec![3]),
    ];
    let groups = group_by_sierra_path(infos);
    assert_eq!(groups.len(), 2);
    assert_eq!(groups[0].0, "/a.json");
    assert_eq!(groups[0].1.len(), 2);
    assert_eq!(groups[0].1[0].vm_trace, vec![1]);
    assert_eq!(groups[0].1[1].vm_trace, vec![3]);
    assert_eq!(groups[1].0, "/b.json");
    assert_eq!(groups[1].1.len(), 1);
}

#[test]
fn matching_annotation_keys_are_detected() {
    let loc = CodeLocation {
        source_file_full_path: String::from("/proj/a.cairo"),
        span: Range { start: Position { line: 0 }, end: Position { line: 0 } },
    };
    let coverage = CoverageAnnotations { statements_code_locations: vec![(0, vec![loc])] };
    let matching = ProfilerAnnotations {
        statements_functions: vec![(0, vec![String::from("f")])],
    };
    let differing = ProfilerAnnotations {
        statements_functions: vec![(1, vec![String::from("f")])],
    };
    assert!(have_same_keys(&coverage, &matching));
    assert!(!have_same_keys(&coverage, &differing));
}

#[test]
fn empty_matcher_ignores_nothing() {
    let matcher = CairoCoverageIgnoreMatcher::new("/proj", &vec![]).unwrap();
    assert!(!matcher.is_ignored("/proj/src/lib.cairo"));
    assert!(!matcher.is_ignored("anything"));
}

#[test]
fn patterns_drive_the_matcher() {
    let patterns = vec![String::from("*/generated/*"), String::from("simple_*.cairo")];
    let matcher = CairoCoverageIgnoreMatcher::new("/proj", &patterns).unwrap();
    assert!(matcher.is_ignored("/proj/src/generated/a.cairo"));
    assert!(matcher.is_ignored("/proj/src/simple_add.cairo"));
    assert!(!matcher.is_ignored("/proj/src/lib.cairo"));
}

#[test]
fn malformed_pattern_fails_construction() {
    let patterns = vec![String::from("[z-a]")];
    match CairoCoverageIgnoreMatcher::new("/proj", &patterns) {
        Err(CoverageError::InvalidIgnoreFile) => {}
        _ => panic!("expected the invalid-ignore-file error"),
    }
    assert_eq!(
        CoverageError::InvalidIgnoreFile.message(),
        "failed to parse the coverage ignore file"
    );
}

#[test]
fn test_function_filter_gates_marked_functions() {
    let marked = vec![String::from("tests::my_test")];
    let excluding = TestFunctionFilter::new(&marked, false);
    assert!(!excluding.should_include("tests::my_test"));
    assert!(excluding.should_include("lib::main"));
    let including = TestFunctionFilter::new(&marked, true);
    assert!(including.should_include("tests::my_test"));
}

#[test]
fn line_ranges_shift_to_one_based() {
    let range = Range { start: Position { line: 4 }, end: Position { line: 6 } };
    let shifted = LineRange::from_span(&range);
    assert_eq!(shifted.start, 5);
    assert_eq!(shifted.end, 7);
    let moved = LineRange { start: 1, end: 2 }.move_by_1();
    assert_eq!(moved.start, 2);
    assert_eq!(moved.end, 3);
}

#[test]
fn error_messages_name_the_failure() {
    assert_eq!(
        CoverageError::BackendCompilationFailed.message(),
        "failed to compile program to casm"
    );
}
