//! Tests of the textual building blocks: decimal rendering, ordering,
//! substring search, operation-name simplification and virtual-file paths.
use cairo_coverage_core::libfuncs::build_names_map;
use cairo_coverage_core::libfuncs::is_unreliable_libfunc;
use cairo_coverage_core::libfuncs::remove_prefix;
use cairo_coverage_core::libfuncs::truncate_at_char;
use cairo_coverage_core::libfuncs::truncate_at_chars;
use cairo_coverage_core::libfuncs::LibfuncDeclaration;
use cairo_coverage_core::libfuncs::SierraStatement;
use cairo_coverage_core::text::str_contains;
use cairo_coverage_core::text::str_eq;
use cairo_coverage_core::text::str_lt;
use cairo_coverage_core::text::u64_to_string;
use cairo_coverage_core::virtual_file::has_virtual_file_segment;
use cairo_coverage_core::virtual_file::strip_virtual_file_segments;

#[test]
fn decimal_rendering() {
    assert_eq!(u64_to_string(0), "0");
    assert_eq!(u64_to_string(7), "7");
    assert_eq!(u64_to_string(10), "10");
    assert_eq!(u64_to_string(90301), "90301");
    assert_eq!(u64_to_string(u64::MAX), "18446744073709551615");
}

#[test]
fn string_order_and_search() {
    assert!(str_lt("a", "b"));
    assert!(str_lt("abc", "abd"));
    assert!(str_lt("ab", "abc"));
    assert!(!str_lt("abc", "abc"));
    assert!(!str_lt("b", "a"));
    assert!(str_eq("same", "same"));
    assert!(!str_eq("same", "sane"));
    assert!(str_contains("/proj/src/lib.cairo", "/proj"));
    assert!(str_contains("abc", ""));
    assert!(!str_contains("/other/src/lib.cairo", "/proj"));
}

#[test]
fn operation_names_are_simplified() {
    assert_eq!(remove_prefix(String::from("store_temp<felt252>")), "store_temp");
    assert_eq!(remove_prefix(String::from("function_call(user@f::f)")), "function_call");
    assert_eq!(remove_prefix(String::from("drop")), "drop");
    assert_eq!(truncate_at_chars(String::from("a<b(c"), &['<', '(']), "a");
    assert_eq!(truncate_at_char("felt252_add<3>", '<'), "felt252_add");
    assert_eq!(truncate_at_char("plain", '<'), "plain");
}

#[test]
fn unreliable_operations_are_known() {
    assert!(is_unreliable_libfunc("store_temp"));
    assert!(is_unreliable_libfunc("drop"));
    assert!(is_unreliable_libfunc("return"));
    assert!(!is_unreliable_libfunc("felt252_add"));
    assert!(!is_unreliable_libfunc("function_call"));
}

#[test]
fn names_map_follows_declarations() {
    let declarations = vec![
        LibfuncDeclaration { id: 4, long_id: String::from("store_temp<felt252>") },
        LibfuncDeclaration { id: 9, long_id: String::from("felt252_add") },
    ];
    let statements = vec![
        SierraStatement::Invocation { libfunc_id: 9 },
        SierraStatement::Invocation { libfunc_id: 4 },
        SierraStatement::Invocation { libfunc_id: 77 },
        SierraStatement::Return,
    ];
    let names = build_names_map(&declarations, &statements);
    assert_eq!(names.entries.len(), 3);
    assert_eq!(names.entries[0], (0, String::from("felt252_add")));
    assert_eq!(names.entries[1], (1, String::from("store_temp")));
    assert_eq!(names.entries[2], (3, String::from("return")));
}

#[test]
fn virtual_segments_are_recognized() {
    assert!(has_virtual_file_segment("lib.cairo[assert_macro]"));
    assert!(has_virtual_file_segment("a[b][c]"));
    assert!(!has_virtual_file_segment("lib.cairo"));
    assert!(!has_virtual_file_segment("open[only"));
    assert!(!has_virtual_file_segment("closed]only"));
    assert!(!has_virtual_file_segment("a[b\nc]"));
}

#[test]
fn virtual_segments_are_stripped() {
    assert_eq!(strip_virtual_file_segments("lib.cairo[assert_macro]"), "lib.cairo");
    assert_eq!(strip_virtual_file_segments("a[x][y]b"), "ab");
    assert_eq!(strip_virtual_file_segments("plain"), "plain");
    assert_eq!(strip_virtual_file_segments("open[rest"), "open[rest");
    assert_eq!(strip_virtual_file_segments("a[b[c]d"), "ad");
    assert_eq!(strip_virtual_file_segments("a[b\nc]d"), "a[b\nc]d");
}
