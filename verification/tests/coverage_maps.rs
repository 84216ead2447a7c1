//! Tests of the coverage structures: additions, merging in any order and
//! grouping, truncation, and the per-function summaries.
use cairo_coverage_core::function_coverage::FunctionCoverage;
use cairo_coverage_core::lcov::fmt_string;
use cairo_coverage_core::project_coverage::merge;
use cairo_coverage_core::project_coverage::truncate_to_one;
use cairo_coverage_core::project_coverage::ProjectCoverage;

fn sample_a() -> ProjectCoverage {
    let mut p = ProjectCoverage::new();
    p.add("/proj/a.cairo", "f", 2, 1);
    p.add("/proj/a.cairo", "f", 3, 0);
    p.add("/proj/b.cairo", "g", 7, 5);
    p
}

fn sample_b() -> ProjectCoverage {
    let mut p = ProjectCoverage::new();
    p.add("/proj/a.cairo", "f", 2, 2);
    p.add("/proj/c.cairo", "h", 1, 1);
    p
}

fn sample_c() -> ProjectCoverage {
    let mut p = ProjectCoverage::new();
    p.add("/proj/b.cairo", "g", 7, 1);
    p.add("/proj/b.cairo", "g2", 9, 0);
    p
}

/// Merging is commutative: both orders render to the same report.
#[test]
fn merge_is_commutative() {
    let ab = merge(sample_a(), sample_b());
    let ba = merge(sample_b(), sample_a());
    assert_eq!(fmt_string(&ab), fmt_string(&ba));
}

/// Merging is associative: both groupings render to the same report.
#[test]
fn merge_is_associative() {
    let left = merge(merge(sample_a(), sample_b()), sample_c());
    let right = merge(sample_a(), merge(sample_b(), sample_c()));
    assert_eq!(fmt_string(&left), fmt_string(&right));
}

/// Merging sums the counts of shared lines and keeps the union of files.
#[test]
fn merge_sums_counts() {
    let merged = merge(sample_a(), sample_b());
    let report = fmt_string(&merged);
    assert!(report.contains("DA:2,3\n"));
    assert!(report.contains("SF:/proj/a.cairo\n"));
    assert!(report.contains("SF:/proj/b.cairo\n"));
    assert!(report.contains("SF:/proj/c.cairo\n"));
}

/// Truncation clamps every count to one and applying it twice changes
/// nothing.
#[test]
fn truncation_idempotent_and_bounded() {
    let mut once = merge(sample_a(), sample_b());
    truncate_to_one(&mut once);
    let first = fmt_string(&once);
    assert!(first.contains("DA:2,1\n"));
    assert!(first.contains("DA:3,0\n"));
    assert!(first.contains("DA:7,1\n"));
    truncate_to_one(&mut once);
    assert_eq!(fmt_string(&once), first);
}

/// The report orders files by path, functions by name and lines by number,
/// and computes the found/hit summaries.
#[test]
fn report_is_fully_ordered() {
    let mut p = ProjectCoverage::new();
    p.add("/proj/b.cairo", "beta", 9, 0);
    p.add("/proj/a.cairo", "late", 5, 2);
    p.add("/proj/a.cairo", "early", 8, 0);
    p.add("/proj/a.cairo", "early", 2, 1);
    let report = fmt_string(&p);
    let expected = "TN:\n\
        SF:/proj/a.cairo\n\
        FN:2,early\n\
        FNDA:1,early\n\
        FN:5,late\n\
        FNDA:2,late\n\
        FNF:2\n\
        FNH:2\n\
        DA:2,1\n\
        DA:5,2\n\
        DA:8,0\n\
        LF:3\n\
        LH:2\n\
        end_of_record\n\
        TN:\n\
        SF:/proj/b.cairo\n\
        FN:9,beta\n\
        FNDA:0,beta\n\
        FNF:1\n\
        FNH:0\n\
        DA:9,0\n\
        LF:1\n\
        LH:0\n\
        end_of_record\n";
    assert_eq!(report, expected);
}

/// Building and rendering the same coverage twice yields byte-identical
/// reports.
#[test]
fn report_is_reproducible() {
    let first = fmt_string(&merge(sample_a(), sample_b()));
    let second = fmt_string(&merge(sample_a(), sample_b()));
    assert_eq!(first, second);
}

/// A function's execution count is the greatest count among its lines.
#[test]
fn function_count_is_line_maximum() {
    let mut fc = FunctionCoverage::new();
    fc.add(2, 1);
    fc.add(3, 7);
    fc.add(4, 0);
    assert_eq!(fc.max_execution_count(), 7);
    assert_eq!(fc.starts_at(), 2);
    assert!(fc.was_executed());
    assert_eq!(fc.executed_lines(), 2);
    assert_eq!(fc.get(3), Some(7));
    assert_eq!(fc.get(9), None);
}

/// Adding zero registers the line without counting an execution.
#[test]
fn zero_addition_registers_the_line() {
    let mut fc = FunctionCoverage::new();
    fc.add(11, 0);
    assert_eq!(fc.get(11), Some(0));
    assert!(!fc.was_executed());
    assert_eq!(fc.max_execution_count(), 0);
}

/// Counts saturate instead of wrapping.
#[test]
fn counts_saturate() {
    let mut fc = FunctionCoverage::new();
    fc.add(1, u64::MAX);
    fc.add(1, 5);
    assert_eq!(fc.get(1), Some(u64::MAX));
}
