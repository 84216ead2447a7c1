//! A gate on test functions alone: when test functions are not included,
//! any function marked with a test attribute is left out of the report.
use crate::annotations::names_view;
use crate::text::str_eq;
use vstd::prelude::*;

verus! {

/// Filters out functions marked with a test attribute, unless test functions
/// are included in the report.
pub struct TestFunctionFilter {
    include_test_functions: bool,
    test_functions: Vec<String>,
}

impl TestFunctionFilter {
    /// Whether test functions are included.
    pub closed spec fn spec_include_test_functions(&self) -> bool {
        self.include_test_functions
    }

    /// The names of the functions marked with a test attribute.
    pub closed spec fn spec_test_functions(&self) -> Seq<Seq<char>> {
        names_view(self.test_functions@)
    }

    /// Build the filter from the marked functions' names.
    pub fn new(
        functions_marked_with_test_attribute: &Vec<String>,
        include_test_functions: bool,
    ) -> (r: TestFunctionFilter)
        ensures
            r.spec_include_test_functions() == include_test_functions,
            r.spec_test_functions() =~= names_view(functions_marked_with_test_attribute@),
    {
        let n = functions_marked_with_test_attribute.len();
        let mut test_functions: Vec<String> = Vec::new();
        let mut i: usize = 0;
        while i < n
            invariant
                i <= n,
                n == functions_marked_with_test_attribute@.len(),
                test_functions@.len() == i,
                forall|j: int|
                    0 <= j < i ==> #[trigger] test_functions@[j]@
                        == functions_marked_with_test_attribute@[j]@,
            decreases n - i,
        {
            let ghost before = test_functions@;
            test_functions.push(functions_marked_with_test_attribute[i].clone());
            proof {
                assert forall|j: int| 0 <= j < i implies #[trigger] test_functions@[j]@
                    == functions_marked_with_test_attribute@[j]@ by {
                    assert(test_functions@[j] == before[j]);
                }
            }
            i = i + 1;
        }
        let r = TestFunctionFilter { include_test_functions, test_functions };
        proof {
            assert forall|j: int|
                0 <= j < n implies r.spec_test_functions()[j] == names_view(
                functions_marked_with_test_attribute@,
            )[j] by {
                assert(r.spec_test_functions()[j] == r.test_functions@[j]@);
                assert(names_view(functions_marked_with_test_attribute@)[j]
                    == functions_marked_with_test_attribute@[j]@);
            }
        }
        r
    }

    /// Whether a function is marked with a test attribute.
    pub open spec fn spec_is_test_function(&self, function_name: Seq<char>) -> bool {
        exists|i: int|
            0 <= i < self.spec_test_functions().len() && self.spec_test_functions()[i]
                == function_name
    }

    /// A function passes unless it is a test function and test functions are
    /// not included.
    pub fn should_include(&self, function_name: &str) -> (r: bool)
        ensures
            r == (self.spec_include_test_functions() || !self.spec_is_test_function(
                function_name@,
            )),
    {
        let included = self.include_test_functions;
        proof {
            assert(included == self.spec_include_test_functions());
        }
        if included {
            return true;
        }
        let n = self.test_functions.len();
        let mut i: usize = 0;
        while i < n
            invariant
                i <= n,
                n == self.test_functions@.len(),
                !self.spec_include_test_functions(),
                forall|j: int| 0 <= j < i ==> self.spec_test_functions()[j] != function_name@,
            decreases n - i,
        {
            proof {
                assert(self.spec_test_functions()[i as int] == self.test_functions@[i as int]@);
            }
            if str_eq(self.test_functions[i].as_str(), function_name) {
                proof {
                    assert(self.spec_test_functions().len() == self.test_functions@.len());
                    assert(self.spec_test_functions()[i as int] == function_name@);
                    assert(self.spec_is_test_function(function_name@));
                }
                return false;
            }
            i = i + 1;
        }
        proof {
            if self.spec_is_test_function(function_name@) {
                let w = choose|w: int|
                    0 <= w < self.spec_test_functions().len() && self.spec_test_functions()[w]
                        == function_name@;
                assert(false);
            }
        }
        true
    }
}

} // verus!
