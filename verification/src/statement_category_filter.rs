//! The per-statement gate of the coverage report: a statement counts only if
//! it passes the macro/test gate, lies in the user's project, invokes a
//! reliable operation, and is not ignored by the project's ignore file.
use crate::args::spec_includes;
use crate::args::includes_component;
use crate::args::IncludedComponent;
use crate::ignore_matcher::ignored_by;
use crate::ignore_matcher::CairoCoverageIgnoreMatcher;
use crate::libfuncs::build_names_map;
use crate::libfuncs::is_unreliable_libfunc;
use crate::libfuncs::is_unreliable_name;
use crate::libfuncs::lookup_name;
use crate::libfuncs::LibfuncNamesMap;
use crate::loading::EnrichedProgram;
use crate::text::contains_seq;
use crate::text::str_contains;
use crate::text::str_eq;
use crate::virtual_file::has_virtual_file_segment;
use crate::virtual_file::has_virtual_segment;
use vstd::prelude::*;

verus! {

/// Everything the filter's decision depends on, as mathematical values.
#[verifier::ext_equal]
pub ghost struct FilterSpec {
    pub project_path: Seq<char>,
    pub include_test_functions: bool,
    pub include_macros: bool,
    pub test_functions: Seq<Seq<char>>,
    pub ignore_root: Seq<char>,
    pub ignore_patterns: Seq<Seq<char>>,
    pub libfunc_names: Seq<(u64, Seq<char>)>,
}

/// The filter that one artifact's run uses: the given project path and
/// inclusion options, the artifact's test executables, the given ignore
/// patterns, and the simplified operation names of the artifact's program.
pub open spec fn filter_spec_of(
    project_path: Seq<char>,
    components: Seq<IncludedComponent>,
    ignore_root: Seq<char>,
    ignore_patterns: Seq<Seq<char>>,
    program: crate::loading::EnrichedProgram,
) -> FilterSpec {
    FilterSpec {
        project_path,
        include_test_functions: spec_includes(components, IncludedComponent::TestFunctions),
        include_macros: spec_includes(components, IncludedComponent::Macros),
        test_functions: crate::annotations::names_view(program.test_executables@),
        ignore_root,
        ignore_patterns,
        libfunc_names: crate::libfuncs::names_map_spec(
            crate::libfuncs::decls_view(program.libfunc_declarations@),
            program.statements@,
        ),
    }
}

/// Whether a function is one of the test executables.
pub open spec fn spec_is_test_function(fs: FilterSpec, function_name: Seq<char>) -> bool {
    exists|i: int|
        0 <= i < fs.test_functions.len() && fs.test_functions[i] == function_name
}

/// The macro/test gate: a test function counts only when test functions are
/// included; code from a virtual file counts only when macros are included;
/// everything else passes.
pub open spec fn spec_is_allowed_macro(
    fs: FilterSpec,
    function_name: Seq<char>,
    source_file_full_path: Seq<char>,
) -> bool {
    if spec_is_test_function(fs, function_name) {
        fs.include_test_functions
    } else if has_virtual_segment(source_file_full_path) {
        fs.include_macros
    } else {
        true
    }
}

/// The ownership gate: the path must contain the project path. Dependency
/// code resolves to absolute paths outside the project root.
pub open spec fn spec_is_user_function(fs: FilterSpec, source_file_full_path: Seq<char>) -> bool {
    contains_seq(source_file_full_path, fs.project_path)
}

/// The reliability gate: the statement's operation must not be on the
/// unreliable list.
pub open spec fn spec_is_reliable_libfunc(fs: FilterSpec, idx: u64) -> bool {
    !match lookup_name(fs.libfunc_names, idx) {
        Some(name) => is_unreliable_name(name),
        None => false,
    }
}

/// The ignore gate: the path must not match the project's ignore file.
pub open spec fn spec_is_not_ignored(fs: FilterSpec, source_file_full_path: Seq<char>) -> bool {
    !ignored_by(fs.ignore_root, fs.ignore_patterns, source_file_full_path, false)
}

/// All four gates together.
pub open spec fn spec_should_include(
    fs: FilterSpec,
    idx: u64,
    function_name: Seq<char>,
    source_file_full_path: Seq<char>,
) -> bool {
    &&& spec_is_allowed_macro(fs, function_name, source_file_full_path)
    &&& spec_is_user_function(fs, source_file_full_path)
    &&& spec_is_reliable_libfunc(fs, idx)
    &&& spec_is_not_ignored(fs, source_file_full_path)
}

/// Enabling an inclusion option never shrinks the set of included statements:
/// whatever a filter includes, the same filter with test functions or macros
/// also switched on still includes.
pub proof fn lemma_monotonic_in_options(
    fs: FilterSpec,
    other: FilterSpec,
    idx: u64,
    function_name: Seq<char>,
    source_file_full_path: Seq<char>,
)
    requires
        fs.project_path == other.project_path,
        fs.test_functions == other.test_functions,
        fs.ignore_root == other.ignore_root,
        fs.ignore_patterns == other.ignore_patterns,
        fs.libfunc_names == other.libfunc_names,
        fs.include_test_functions ==> other.include_test_functions,
        fs.include_macros ==> other.include_macros,
        spec_should_include(fs, idx, function_name, source_file_full_path),
    ensures
        spec_should_include(other, idx, function_name, source_file_full_path),
{
}

/// Decides, per statement, whether it contributes to the coverage report.
pub struct StatementCategoryFilter {
    user_project_path: String,
    include_test_functions: bool,
    include_macros: bool,
    test_functions: Vec<String>,
    ignore_matcher: CairoCoverageIgnoreMatcher,
    libfunc_names_by_idx: LibfuncNamesMap,
}

impl View for StatementCategoryFilter {
    type V = FilterSpec;

    closed spec fn view(&self) -> FilterSpec {
        FilterSpec {
            project_path: self.user_project_path@,
            include_test_functions: self.include_test_functions,
            include_macros: self.include_macros,
            test_functions: crate::annotations::names_view(self.test_functions@),
            ignore_root: self.ignore_matcher.spec_root(),
            ignore_patterns: self.ignore_matcher.spec_patterns(),
            libfunc_names: self.libfunc_names_by_idx.abs(),
        }
    }
}

impl StatementCategoryFilter {

    /// Build the filter for one program artifact.
    pub fn new(
        user_project_path: &str,
        included_components: &Vec<IncludedComponent>,
        ignore_matcher: CairoCoverageIgnoreMatcher,
        enriched_program: &EnrichedProgram,
    ) -> (r: StatementCategoryFilter)
        requires
            enriched_program.statements@.len() <= u64::MAX,
        ensures
            r@ == filter_spec_of(
                user_project_path@,
                included_components@,
                ignore_matcher.spec_root(),
                ignore_matcher.spec_patterns(),
                *enriched_program,
            ),
    {
        let include_test_functions = includes_component(
            included_components,
            IncludedComponent::TestFunctions,
        );
        let include_macros = includes_component(included_components, IncludedComponent::Macros);
        let test_functions = duplicate_names(&enriched_program.test_executables);
        let libfunc_names_by_idx = build_names_map(
            &enriched_program.libfunc_declarations,
            &enriched_program.statements,
        );
        let r = StatementCategoryFilter {
            user_project_path: String::from_str(user_project_path),
            include_test_functions,
            include_macros,
            test_functions,
            ignore_matcher,
            libfunc_names_by_idx,
        };
        proof {
            assert(r@ =~= filter_spec_of(
                user_project_path@,
                included_components@,
                r.ignore_matcher.spec_root(),
                r.ignore_matcher.spec_patterns(),
                *enriched_program,
            ));
        }
        r
    }

    /// Check if the statement with the given index should be included in the
    /// coverage report.
    pub fn should_include(
        &self,
        idx: u64,
        function_name: &str,
        source_file_full_path: &str,
    ) -> (r: bool)
        ensures
            r == spec_should_include(self@, idx, function_name@, source_file_full_path@),
    {
        self.is_allowed_macro(function_name, source_file_full_path) && self.is_user_function(
            source_file_full_path,
        ) && self.is_reliable_libfunc(idx) && self.is_not_ignored(source_file_full_path)
    }

    fn is_allowed_macro(&self, function_name: &str, source_file_full_path: &str) -> (r: bool)
        ensures
            r == spec_is_allowed_macro(self@, function_name@, source_file_full_path@),
    {
        if self.contains_test_function(function_name) {
            self.include_test_functions
        } else if has_virtual_file_segment(source_file_full_path) {
            self.include_macros
        } else {
            true
        }
    }

    fn contains_test_function(&self, function_name: &str) -> (r: bool)
        ensures
            r == spec_is_test_function(self@, function_name@),
    {
        let n = self.test_functions.len();
        let mut i: usize = 0;
        while i < n
            invariant
                i <= n,
                n == self.test_functions@.len(),
                forall|j: int| 0 <= j < i ==> self@.test_functions[j] != function_name@,
            decreases n - i,
        {
            proof {
                assert(self@.test_functions[i as int] == self.test_functions@[i as int]@);
            }
            if str_eq(self.test_functions[i].as_str(), function_name) {
                return true;
            }
            i = i + 1;
        }
        false
    }

    fn is_user_function(&self, source_file_full_path: &str) -> (r: bool)
        ensures
            r == spec_is_user_function(self@, source_file_full_path@),
    {
        str_contains(source_file_full_path, self.user_project_path.as_str())
    }

    fn is_reliable_libfunc(&self, idx: u64) -> (r: bool)
        ensures
            r == spec_is_reliable_libfunc(self@, idx),
    {
        match self.libfunc_names_by_idx.get(idx) {
            Some(name) => !is_unreliable_libfunc(name.as_str()),
            None => true,
        }
    }

    fn is_not_ignored(&self, source_file_full_path: &str) -> (r: bool)
        ensures
            r == spec_is_not_ignored(self@, source_file_full_path@),
    {
        !self.ignore_matcher.is_ignored(source_file_full_path)
    }

}

/// A copy of a list of names.
fn duplicate_names(names: &Vec<String>) -> (r: Vec<String>)
    ensures
        crate::annotations::names_view(r@) =~= crate::annotations::names_view(names@),
{
    let n = names.len();
    let mut out: Vec<String> = Vec::new();
    let mut i: usize = 0;
    while i < n
        invariant
            i <= n,
            n == names@.len(),
            out@.len() == i,
            forall|j: int| 0 <= j < i ==> #[trigger] out@[j]@ == names@[j]@,
        decreases n - i,
    {
        let ghost before = out@;
        out.push(names[i].clone());
        proof {
            assert forall|j: int| 0 <= j < i implies #[trigger] out@[j]@ == names@[j]@ by {
                assert(out@[j] == before[j]);
            }
        }
        i = i + 1;
    }
    proof {
        assert forall|j: int|
            0 <= j < n implies crate::annotations::names_view(out@)[j]
            == crate::annotations::names_view(names@)[j] by {
            assert(crate::annotations::names_view(out@)[j] == out@[j]@);
            assert(crate::annotations::names_view(names@)[j] == names@[j]@);
        }
    }
    out
}

} // verus!
