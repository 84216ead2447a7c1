//! Options accepted by the coverage run.
use vstd::prelude::*;

verus! {

/// Additional components that can be included in the coverage report.
#[derive(Clone, Copy, PartialEq, Eq, Structural)]
pub enum IncludedComponent {
    /// Count coverage of functions marked as tests.
    TestFunctions,
    /// Count coverage of code generated by macro expansion.
    Macros,
}

/// Options accepted by the `run` function.
pub struct RunOptions {
    /// Additional components to count in the coverage report.
    pub included_components: Vec<IncludedComponent>,
    /// If set, the hit count of the lines will not be truncated to 1.
    pub no_truncation: bool,
}

impl Default for RunOptions {
    /// No extra components, and counts truncated to one.
    fn default() -> (r: RunOptions)
        ensures
            r.included_components@ =~= Seq::<IncludedComponent>::empty(),
            !r.no_truncation,
    {
        RunOptions { included_components: Vec::new(), no_truncation: false }
    }
}

/// Whether a component is among the included ones.
pub open spec fn spec_includes(components: Seq<IncludedComponent>, c: IncludedComponent) -> bool {
    exists|i: int| 0 <= i < components.len() && components[i] == c
}

/// Whether a component is among the requested ones.
pub fn includes_component(components: &Vec<IncludedComponent>, c: IncludedComponent) -> (r: bool)
    ensures
        r == spec_includes(components@, c),
{
    let n = components.len();
    let mut i: usize = 0;
    while i < n
        invariant
            i <= n,
            n == components@.len(),
            forall|j: int| 0 <= j < i ==> components@[j] != c,
        decreases n - i,
    {
        if components[i] == c {
            return true;
        }
        i = i + 1;
    }
    false
}

} // verus!
