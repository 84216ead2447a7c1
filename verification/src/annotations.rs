//! The debug metadata that a compiled program artifact carries, as plain
//! values: per-statement code locations, per-statement function names, and the
//! list of test-executable function names.
use vstd::prelude::*;

verus! {

/// A position inside a source file. Debug annotations count lines from zero.
#[derive(Clone, Copy, PartialEq, Eq, Structural)]
pub struct Position {
    pub line: u64,
}

/// A source span, inclusive at both ends, in zero-based lines.
#[derive(Clone, Copy, PartialEq, Eq, Structural)]
pub struct Range {
    pub start: Position,
    pub end: Position,
}

/// One candidate origin of a statement: a source file and the span inside it.
pub struct CodeLocation {
    pub source_file_full_path: String,
    pub span: Range,
}

/// The mathematical content of a code location.
pub ghost struct CodeLocationView {
    pub path: Seq<char>,
    pub start_line: u64,
    pub end_line: u64,
}

impl View for CodeLocation {
    type V = CodeLocationView;

    open spec fn view(&self) -> CodeLocationView {
        CodeLocationView {
            path: self.source_file_full_path@,
            start_line: self.span.start.line,
            end_line: self.span.end.line,
        }
    }
}

/// The content of a sequence of code locations.
pub open spec fn code_locations_view(s: Seq<CodeLocation>) -> Seq<CodeLocationView> {
    s.map_values(|c: CodeLocation| c@)
}

/// The content of a sequence of function names.
pub open spec fn names_view(s: Seq<String>) -> Seq<Seq<char>> {
    s.map_values(|n: String| n@)
}

/// Per-statement code locations, keyed by statement index. Candidate
/// locations are ordered by priority, most specific first.
pub struct CoverageAnnotations {
    pub statements_code_locations: Vec<(u64, Vec<CodeLocation>)>,
}

/// Per-statement function names, keyed by statement index, in the same
/// priority order as the code locations.
pub struct ProfilerAnnotations {
    pub statements_functions: Vec<(u64, Vec<String>)>,
}

/// A key occurs among the coverage annotation keys.
pub open spec fn coverage_has_key(s: Seq<(u64, Vec<CodeLocation>)>, k: u64) -> bool {
    exists|i: int| 0 <= i < s.len() && s[i].0 == k
}

/// A key occurs among the profiler annotation keys.
pub open spec fn profiler_has_key(s: Seq<(u64, Vec<String>)>, k: u64) -> bool {
    exists|i: int| 0 <= i < s.len() && s[i].0 == k
}

impl CoverageAnnotations {
    /// Each statement index appears at most once.
    pub open spec fn wf(&self) -> bool {
        forall|i: int, j: int|
            0 <= i < j < self.statements_code_locations@.len()
                ==> self.statements_code_locations@[i].0 != self.statements_code_locations@[j].0
    }
}

impl ProfilerAnnotations {
    /// Each statement index appears at most once.
    pub open spec fn wf(&self) -> bool {
        forall|i: int, j: int|
            0 <= i < j < self.statements_functions@.len() ==> self.statements_functions@[i].0
                != self.statements_functions@[j].0
    }

    /// The names recorded for one statement index, if any.
    pub fn get(&self, k: u64) -> (r: Option<&Vec<String>>)
        ensures
            match r {
                Some(names) => prof_lookup(self.statements_functions@, k) == Some(
                    names_view(names@),
                ),
                None => prof_lookup(self.statements_functions@, k) is None,
            },
    {
        let n = self.statements_functions.len();
        let mut i: usize = 0;
        while i < n
            invariant
                i <= n,
                n == self.statements_functions@.len(),
                forall|j: int| 0 <= j < i ==> self.statements_functions@[j].0 != k,
            decreases n - i,
        {
            if self.statements_functions[i].0 == k {
                proof {
                    lemma_prof_lookup_at(self.statements_functions@, k, i as int);
                }
                return Some(&self.statements_functions[i].1);
            }
            i = i + 1;
        }
        proof {
            lemma_prof_lookup_none(self.statements_functions@, k);
        }
        None
    }
}

/// The function names recorded under a statement index: the first entry with
/// that key, if any.
pub open spec fn prof_lookup(s: Seq<(u64, Vec<String>)>, k: u64) -> Option<Seq<Seq<char>>>
    decreases s.len(),
{
    if s.len() == 0 {
        None
    } else if s[0].0 == k {
        Some(names_view(s[0].1@))
    } else {
        prof_lookup(s.skip(1), k)
    }
}

/// A scan that stops at the first entry with the key computes the lookup.
pub proof fn lemma_prof_lookup_at(s: Seq<(u64, Vec<String>)>, k: u64, i: int)
    requires
        0 <= i < s.len(),
        s[i].0 == k,
        forall|j: int| 0 <= j < i ==> s[j].0 != k,
    ensures
        prof_lookup(s, k) == Some(names_view(s[i].1@)),
    decreases s.len(),
{
    if i > 0 {
        assert forall|j: int| 0 <= j < i - 1 implies s.skip(1)[j].0 != k by {
            assert(s.skip(1)[j] == s[j + 1]);
        }
        assert(s.skip(1)[i - 1] == s[i]);
        lemma_prof_lookup_at(s.skip(1), k, i - 1);
    }
}

/// A key that occurs nowhere has no names.
pub proof fn lemma_prof_lookup_none(s: Seq<(u64, Vec<String>)>, k: u64)
    requires
        forall|j: int| 0 <= j < s.len() ==> s[j].0 != k,
    ensures
        prof_lookup(s, k) is None,
    decreases s.len(),
{
    if s.len() > 0 {
        assert forall|j: int| 0 <= j < s.skip(1).len() implies s.skip(1)[j].0 != k by {
            assert(s.skip(1)[j] == s[j + 1]);
        }
        lemma_prof_lookup_none(s.skip(1), k);
    }
}

/// The two annotation namespaces describe the same statements: every
/// statement index of one occurs in the other.
pub fn have_same_keys(coverage: &CoverageAnnotations, profiler: &ProfilerAnnotations) -> (r: bool)
    ensures
        r == {
            &&& forall|i: int|
                0 <= i < coverage.statements_code_locations@.len() ==> profiler_has_key(
                    profiler.statements_functions@,
                    #[trigger] coverage.statements_code_locations@[i].0,
                )
            &&& forall|i: int|
                0 <= i < profiler.statements_functions@.len() ==> coverage_has_key(
                    coverage.statements_code_locations@,
                    #[trigger] profiler.statements_functions@[i].0,
                )
        },
{
    let n = coverage.statements_code_locations.len();
    let mut i: usize = 0;
    while i < n
        invariant
            i <= n,
            n == coverage.statements_code_locations@.len(),
            forall|j: int|
                0 <= j < i ==> profiler_has_key(
                    profiler.statements_functions@,
                    #[trigger] coverage.statements_code_locations@[j].0,
                ),
        decreases n - i,
    {
        let key = coverage.statements_code_locations[i].0;
        if !profiler_contains_key(profiler, key) {
            return false;
        }
        i = i + 1;
    }
    let m = profiler.statements_functions.len();
    let mut j: usize = 0;
    while j < m
        invariant
            j <= m,
            m == profiler.statements_functions@.len(),
            forall|w: int|
                0 <= w < coverage.statements_code_locations@.len() ==> profiler_has_key(
                    profiler.statements_functions@,
                    #[trigger] coverage.statements_code_locations@[w].0,
                ),
            forall|w: int|
                0 <= w < j ==> coverage_has_key(
                    coverage.statements_code_locations@,
                    #[trigger] profiler.statements_functions@[w].0,
                ),
        decreases m - j,
    {
        let key = profiler.statements_functions[j].0;
        if !coverage_contains_key(coverage, key) {
            return false;
        }
        j = j + 1;
    }
    true
}

fn profiler_contains_key(profiler: &ProfilerAnnotations, k: u64) -> (r: bool)
    ensures
        r == profiler_has_key(profiler.statements_functions@, k),
{
    let n = profiler.statements_functions.len();
    let mut i: usize = 0;
    while i < n
        invariant
            i <= n,
            n == profiler.statements_functions@.len(),
            forall|j: int| 0 <= j < i ==> profiler.statements_functions@[j].0 != k,
        decreases n - i,
    {
        if profiler.statements_functions[i].0 == k {
            return true;
        }
        i = i + 1;
    }
    false
}

fn coverage_contains_key(coverage: &CoverageAnnotations, k: u64) -> (r: bool)
    ensures
        r == coverage_has_key(coverage.statements_code_locations@, k),
{
    let n = coverage.statements_code_locations.len();
    let mut i: usize = 0;
    while i < n
        invariant
            i <= n,
            n == coverage.statements_code_locations@.len(),
            forall|j: int| 0 <= j < i ==> coverage.statements_code_locations@[j].0 != k,
        decreases n - i,
    {
        if coverage.statements_code_locations[i].0 == k {
            return true;
        }
        i = i + 1;
    }
    false
}

} // verus!
