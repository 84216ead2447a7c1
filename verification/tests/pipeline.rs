//! Scenario tests driving the pipeline from annotations and executed counts
//! to the final LCOV text.
use cairo_coverage_core::annotations::CodeLocation;
use cairo_coverage_core::annotations::CoverageAnnotations;
use cairo_coverage_core::annotations::Position;
use cairo_coverage_core::annotations::ProfilerAnnotations;
use cairo_coverage_core::annotations::Range;
use cairo_coverage_core::args::IncludedComponent;
use cairo_coverage_core::args::RunOptions;
use cairo_coverage_core::coverage_input::CoverageInput;
use cairo_coverage_core::errors::CoverageError;
use cairo_coverage_core::function_coverage::FunctionCoverage;
use cairo_coverage_core::ignore_matcher::CairoCoverageIgnoreMatcher;
use cairo_coverage_core::lcov::fmt_string;
use cairo_coverage_core::loading::EnrichedProgram;
use cairo_coverage_core::project_coverage::create;
use cairo_coverage_core::statement_category_filter::StatementCategoryFilter;
use cairo_coverage_core::statement_information::build_map;

fn empty_program() -> cairo_lang_sierra::program::Program {
    cairo_lang_sierra::program::Program {
        type_declarations: vec![],
        libfunc_declarations: vec![],
        statements: vec![],
        funcs: vec![],
    }
}

fn location(path: &str, start: u64, end: u64) -> CodeLocation {
    CodeLocation {
        source_file_full_path: String::from(path),
        span: Range { start: Position { line: start }, end: Position { line: end } },
    }
}

fn enriched(
    coverage: CoverageAnnotations,
    profiler: ProfilerAnnotations,
) -> EnrichedProgram {
    EnrichedProgram {
        program: empty_program(),
        test_executables: vec![],
        coverage_annotations: coverage,
        profiler_annotations: profiler,
        statements: vec![],
        libfunc_declarations: vec![],
    }
}

fn plain_filter(project_path: &str, components: Vec<IncludedComponent>) -> StatementCategoryFilter {
    let matcher = CairoCoverageIgnoreMatcher::new(project_path, &vec![]).unwrap();
    let coverage = CoverageAnnotations { statements_code_locations: vec![] };
    let profiler = ProfilerAnnotations { statements_functions: vec![] };
    let program = enriched(coverage, profiler);
    StatementCategoryFilter::new(project_path, &components, matcher, &program)
}

/// The single-file scenario: two functions with two statements each, executed
/// a different number of times per line, rendered without truncation.
#[test]
fn end_to_end_scenario() {
    let coverage = CoverageAnnotations {
        statements_code_locations: vec![
            (0, vec![location("/proj/src/lib.cairo", 1, 1)]),
            (1, vec![location("/proj/src/lib.cairo", 2, 2)]),
            (2, vec![location("/proj/src/lib.cairo", 6, 6)]),
            (3, vec![location("/proj/src/lib.cairo", 7, 7)]),
        ],
    };
    let profiler = ProfilerAnnotations {
        statements_functions: vec![
            (0, vec![String::from("increase_by_two")]),
            (1, vec![String::from("increase_by_two")]),
            (2, vec![String::from("increase_by_one")]),
            (3, vec![String::from("increase_by_one")]),
        ],
    };
    let filter = plain_filter("/proj", vec![]);
    let statement_information_map = build_map(&coverage, &profiler, &filter);
    assert_eq!(statement_information_map.entries.len(), 4);

    let mut executed_statement_count = FunctionCoverage::new();
    executed_statement_count.add(0, 1);
    executed_statement_count.add(1, 3);
    executed_statement_count.add(2, 2);
    executed_statement_count.add(3, 4);

    let project = create(CoverageInput { executed_statement_count, statement_information_map });
    let report = fmt_string(&project);
    let expected = "TN:\n\
        SF:/proj/src/lib.cairo\n\
        FN:7,increase_by_one\n\
        FNDA:4,increase_by_one\n\
        FN:2,increase_by_two\n\
        FNDA:3,increase_by_two\n\
        FNF:2\n\
        FNH:2\n\
        DA:2,1\n\
        DA:3,3\n\
        DA:7,2\n\
        DA:8,4\n\
        LF:4\n\
        LH:4\n\
        end_of_record\n";
    assert_eq!(report, expected);
}

/// With macros excluded, a program whose every statement comes from a
/// virtual file produces an empty report.
#[test]
fn macros_not_included() {
    let coverage = CoverageAnnotations {
        statements_code_locations: vec![
            (0, vec![location("/proj/src/lib.cairo[assert_macro]", 1, 1)]),
            (1, vec![location("/proj/src/lib.cairo[array_inline_macro]", 2, 2)]),
        ],
    };
    let profiler = ProfilerAnnotations {
        statements_functions: vec![
            (0, vec![String::from("m::f")]),
            (1, vec![String::from("m::f")]),
        ],
    };
    let filter = plain_filter("/proj", vec![]);
    let statement_information_map = build_map(&coverage, &profiler, &filter);
    assert_eq!(statement_information_map.entries.len(), 0);

    let project = create(CoverageInput {
        executed_statement_count: FunctionCoverage::new(),
        statement_information_map,
    });
    let report = fmt_string(&project);
    assert!(report.is_empty());
}

/// With macros included, the same statements are retained and their virtual
/// suffixes are stripped from the reported path: the macros-off retained set
/// is strictly contained in the macros-on one.
#[test]
fn macros_included_strictly_more() {
    let coverage = CoverageAnnotations {
        statements_code_locations: vec![
            (0, vec![location("/proj/src/lib.cairo[assert_macro]", 1, 1)]),
        ],
    };
    let profiler = ProfilerAnnotations {
        statements_functions: vec![(0, vec![String::from("m::f")])],
    };
    let filter = plain_filter("/proj", vec![IncludedComponent::Macros]);
    let statement_information_map = build_map(&coverage, &profiler, &filter);
    assert_eq!(statement_information_map.entries.len(), 1);
    assert_eq!(
        statement_information_map.entries[0].1.source_file_full_path,
        "/proj/src/lib.cairo"
    );
}

/// A test function is dropped unless test functions are included.
#[test]
fn test_functions_gated() {
    let coverage = CoverageAnnotations {
        statements_code_locations: vec![(0, vec![location("/proj/tests/t.cairo", 4, 4)])],
    };
    let profiler = ProfilerAnnotations {
        statements_functions: vec![(0, vec![String::from("tests::my_test")])],
    };
    let build_with = |components: Vec<IncludedComponent>| {
        let matcher = CairoCoverageIgnoreMatcher::new("/proj", &vec![]).unwrap();
        let mut program = enriched(
            CoverageAnnotations { statements_code_locations: vec![] },
            ProfilerAnnotations { statements_functions: vec![] },
        );
        program.test_executables = vec![String::from("tests::my_test")];
        let filter = StatementCategoryFilter::new("/proj", &components, matcher, &program);
        build_map(&coverage, &profiler, &filter).entries.len()
    };
    assert_eq!(build_with(vec![]), 0);
    assert_eq!(build_with(vec![IncludedComponent::TestFunctions]), 1);
}

/// An ignore pattern removes exactly the matched files' records and leaves
/// the others byte-identical.
#[test]
fn ignore_rule_scenario() {
    let coverage = CoverageAnnotations {
        statements_code_locations: vec![
            (0, vec![location("/proj/src/multiply.cairo", 1, 1)]),
            (1, vec![location("/proj/src/simple_add.cairo", 2, 2)]),
        ],
    };
    let profiler = ProfilerAnnotations {
        statements_functions: vec![
            (0, vec![String::from("multiply")]),
            (1, vec![String::from("simple_add")]),
        ],
    };
    let report_with = |patterns: Vec<String>| {
        let matcher = CairoCoverageIgnoreMatcher::new("/proj", &patterns).unwrap();
        let program = enriched(
            CoverageAnnotations { statements_code_locations: vec![] },
            ProfilerAnnotations { statements_functions: vec![] },
        );
        let filter = StatementCategoryFilter::new("/proj", &vec![], matcher, &program);
        let statement_information_map = build_map(&coverage, &profiler, &filter);
        let project = create(CoverageInput {
            executed_statement_count: FunctionCoverage::new(),
            statement_information_map,
        });
        fmt_string(&project)
    };
    let full = report_with(vec![]);
    let filtered = report_with(vec![String::from("multiply.cairo")]);
    let multiply_block: Vec<&str> = full.split("end_of_record\n").collect();
    assert_eq!(multiply_block.len(), 3);
    assert!(multiply_block[0].contains("SF:/proj/src/multiply.cairo"));
    assert!(multiply_block[1].contains("SF:/proj/src/simple_add.cairo"));
    let expected_remainder = format!("{}end_of_record\n", multiply_block[1]);
    assert_eq!(filtered, expected_remainder);
}

/// Statements outside the project path are never counted.
#[test]
fn dependency_code_excluded() {
    let coverage = CoverageAnnotations {
        statements_code_locations: vec![
            (0, vec![location("/deps/corelib/array.cairo", 1, 1)]),
        ],
    };
    let profiler = ProfilerAnnotations {
        statements_functions: vec![(0, vec![String::from("core::array::append")])],
    };
    let filter = plain_filter("/proj", vec![]);
    assert_eq!(build_map(&coverage, &profiler, &filter).entries.len(), 0);
}

/// A statement whose first candidate is rejected falls back to the next one.
#[test]
fn candidate_priority_order() {
    let coverage = CoverageAnnotations {
        statements_code_locations: vec![
            (
                0,
                vec![
                    location("/deps/corelib/array.cairo", 9, 9),
                    location("/proj/src/lib.cairo", 3, 3),
                ],
            ),
        ],
    };
    let profiler = ProfilerAnnotations {
        statements_functions: vec![
            (0, vec![String::from("core::array::append"), String::from("main")]),
        ],
    };
    let filter = plain_filter("/proj", vec![]);
    let map = build_map(&coverage, &profiler, &filter);
    assert_eq!(map.entries.len(), 1);
    assert_eq!(map.entries[0].1.function_name, "main");
    assert_eq!(map.entries[0].1.line_range.start, 4);
    assert_eq!(map.entries[0].1.line_range.end, 4);
}

/// Running with no artifacts reports that there is nothing to merge.
#[test]
fn no_artifacts_is_an_error() {
    let options = RunOptions { included_components: vec![], no_truncation: false };
    let result = cairo_coverage_core::run(vec![], "/proj", "/proj", &vec![], &options);
    match result {
        Err(CoverageError::NothingToMerge) => {}
        _ => panic!("expected the nothing-to-merge error"),
    }
    assert_eq!(
        CoverageError::NothingToMerge.message(),
        "at least one trace file must be provided"
    );
}

/// A program whose statements invoke an undeclared operation is rejected by
/// the backend compiler.
#[test]
fn unresolvable_program_fails_compilation() {
    let program = cairo_lang_sierra::program::Program {
        type_declarations: vec![],
        libfunc_declarations: vec![],
        statements: vec![cairo_lang_sierra::program::GenStatement::Invocation(
            cairo_lang_sierra::program::GenInvocation {
                libfunc_id: cairo_lang_sierra::ids::ConcreteLibfuncId {
                    id: 7,
                    debug_name: None,
                },
                args: vec![],
                branches: vec![],
            },
        )],
        funcs: vec![],
    };
    let mut enriched_program = enriched(
        CoverageAnnotations { statements_code_locations: vec![] },
        ProfilerAnnotations { statements_functions: vec![] },
    );
    enriched_program.program = program;
    enriched_program.statements = vec![
        cairo_coverage_core::libfuncs::SierraStatement::Invocation { libfunc_id: 7 },
    ];
    let data = cairo_coverage_core::loading::ExecutionData {
        casm_level_infos: vec![],
        enriched_program,
    };
    let options = RunOptions { included_components: vec![], no_truncation: false };
    let result = cairo_coverage_core::run(vec![data], "/proj", "/proj", &vec![], &options);
    match result {
        Err(CoverageError::BackendCompilationFailed) => {}
        _ => panic!("expected the backend-compilation error"),
    }
}

/// Running the whole pipeline on one artifact of an empty program yields an
/// empty report: the backend accepts the empty program and nothing is
/// annotated.
#[test]
fn run_on_empty_program() {
    let data = cairo_coverage_core::loading::ExecutionData {
        casm_level_infos: vec![],
        enriched_program: enriched(
            CoverageAnnotations { statements_code_locations: vec![] },
            ProfilerAnnotations { statements_functions: vec![] },
        ),
    };
    let options = RunOptions { included_components: vec![], no_truncation: false };
    let result = cairo_coverage_core::run(vec![data], "/proj", "/proj", &vec![], &options);
    assert_eq!(result.ok(), Some(String::new()));
}
