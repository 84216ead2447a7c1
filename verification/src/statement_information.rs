//! Per-statement information resolved from the debug annotations: for each
//! retained statement, the function it belongs to, the source file it comes
//! from, and the source lines it covers.
use crate::annotations::code_locations_view;
use crate::annotations::prof_lookup;
use crate::annotations::CodeLocation;
use crate::annotations::CodeLocationView;
use crate::annotations::CoverageAnnotations;
use crate::annotations::ProfilerAnnotations;
use crate::annotations::Range;
use crate::statement_category_filter::spec_should_include;
use crate::statement_category_filter::FilterSpec;
use crate::statement_category_filter::StatementCategoryFilter;
use crate::virtual_file::strip_virtual;
use crate::virtual_file::strip_virtual_file_segments;
use vstd::prelude::*;

verus! {

/// The source lines attributed to a statement, 1-based and inclusive at both
/// ends.
#[derive(Clone, Copy, PartialEq, Eq, Structural)]
pub struct LineRange {
    pub start: u64,
    pub end: u64,
}

impl LineRange {
    /// A range never runs backwards and lines are counted from one.
    pub open spec fn wf(&self) -> bool {
        1 <= self.start <= self.end
    }

    /// The 1-based range of a 0-based source span.
    pub fn from_span(span: &Range) -> (r: LineRange)
        requires
            span.start.line < u64::MAX,
            span.end.line < u64::MAX,
        ensures
            r.start == span.start.line + 1,
            r.end == span.end.line + 1,
    {
        LineRange { start: span.start.line + 1, end: span.end.line + 1 }
    }

    /// Shift a 0-based range to 1-based line numbers.
    pub fn move_by_1(&self) -> (r: LineRange)
        requires
            self.start < u64::MAX,
            self.end < u64::MAX,
        ensures
            r.start == self.start + 1,
            r.end == self.end + 1,
    {
        LineRange { start: self.start + 1, end: self.end + 1 }
    }
}

/// What the coverage pipeline knows about one retained statement.
pub struct StatementInformation {
    pub idx: u64,
    pub function_name: String,
    pub source_file_full_path: String,
    pub line_range: LineRange,
}

/// The mathematical content of a statement's information.
pub ghost struct StatementInformationView {
    pub idx: u64,
    pub function_name: Seq<char>,
    pub source_file_full_path: Seq<char>,
    pub start: u64,
    pub end: u64,
}

impl View for StatementInformation {
    type V = StatementInformationView;

    open spec fn view(&self) -> StatementInformationView {
        StatementInformationView {
            idx: self.idx,
            function_name: self.function_name@,
            source_file_full_path: self.source_file_full_path@,
            start: self.line_range.start,
            end: self.line_range.end,
        }
    }
}

/// Two statements resolve to the same origin when function, file and line
/// range agree; the statement index itself plays no part. Consecutive trace
/// hits with the same origin stand for one execution of one source line.
pub open spec fn same_origin(a: StatementInformationView, b: StatementInformationView) -> bool {
    &&& a.function_name == b.function_name
    &&& a.source_file_full_path == b.source_file_full_path
    &&& a.start == b.start
    &&& a.end == b.end
}

impl StatementInformation {
    /// Whether this statement resolves to the same origin as another.
    pub fn has_same_origin(&self, other: &StatementInformation) -> (r: bool)
        ensures
            r == same_origin(self@, other@),
    {
        crate::text::str_eq(self.function_name.as_str(), other.function_name.as_str())
            && crate::text::str_eq(
            self.source_file_full_path.as_str(),
            other.source_file_full_path.as_str(),
        ) && self.line_range.start == other.line_range.start && self.line_range.end
            == other.line_range.end
    }
}

/// The mathematical content of the map's entries.
pub open spec fn info_entries_view(s: Seq<(u64, StatementInformation)>) -> Seq<
    (u64, StatementInformationView),
> {
    s.map_values(|e: (u64, StatementInformation)| (e.0, e.1@))
}

/// The first entry with the given statement index, if any.
pub open spec fn info_lookup(s: Seq<(u64, StatementInformationView)>, k: u64) -> Option<
    StatementInformationView,
>
    decreases s.len(),
{
    if s.len() == 0 {
        None
    } else if s[0].0 == k {
        Some(s[0].1)
    } else {
        info_lookup(s.skip(1), k)
    }
}

pub proof fn lemma_info_lookup_at(s: Seq<(u64, StatementInformationView)>, k: u64, i: int)
    requires
        0 <= i < s.len(),
        s[i].0 == k,
        forall|j: int| 0 <= j < i ==> s[j].0 != k,
    ensures
        info_lookup(s, k) == Some(s[i].1),
    decreases s.len(),
{
    if i > 0 {
        assert forall|j: int| 0 <= j < i - 1 implies s.skip(1)[j].0 != k by {
            assert(s.skip(1)[j] == s[j + 1]);
        }
        assert(s.skip(1)[i - 1] == s[i]);
        lemma_info_lookup_at(s.skip(1), k, i - 1);
    }
}

pub proof fn lemma_info_lookup_none(s: Seq<(u64, StatementInformationView)>, k: u64)
    requires
        forall|j: int| 0 <= j < s.len() ==> s[j].0 != k,
    ensures
        info_lookup(s, k) is None,
    decreases s.len(),
{
    if s.len() > 0 {
        assert forall|j: int| 0 <= j < s.skip(1).len() implies s.skip(1)[j].0 != k by {
            assert(s.skip(1)[j] == s[j + 1]);
        }
        lemma_info_lookup_none(s.skip(1), k);
    }
}

/// The information of every retained statement, keyed by statement index.
pub struct StatementInformationMap {
    pub entries: Vec<(u64, StatementInformation)>,
}

impl StatementInformationMap {
    /// The information recorded for one statement index, if any.
    pub fn get(&self, k: u64) -> (r: Option<&StatementInformation>)
        ensures
            match r {
                Some(info) => info_lookup(info_entries_view(self.entries@), k) == Some(info@),
                None => info_lookup(info_entries_view(self.entries@), k) is None,
            },
    {
        let ghost views = info_entries_view(self.entries@);
        let n = self.entries.len();
        let mut i: usize = 0;
        while i < n
            invariant
                i <= n,
                n == self.entries@.len(),
                views == info_entries_view(self.entries@),
                forall|j: int| 0 <= j < i ==> views[j].0 != k,
            decreases n - i,
        {
            proof {
                assert(views[i as int] == (self.entries@[i as int].0, self.entries@[i as int].1@));
            }
            if self.entries[i].0 == k {
                proof {
                    lemma_info_lookup_at(views, k, i as int);
                }
                return Some(&self.entries[i].1);
            }
            i = i + 1;
        }
        proof {
            lemma_info_lookup_none(views, k);
        }
        None
    }
}

/// Every line of every candidate location fits a 1-based line number.
pub open spec fn lines_in_range(locs: Seq<CodeLocationView>) -> bool {
    forall|i: int|
        0 <= i < locs.len() ==> (#[trigger] locs[i]).start_line < u64::MAX && locs[i].end_line
            < u64::MAX
}

/// The information of one statement: candidate locations and names are paired
/// up in priority order, and the first pair that the filter lets through is
/// chosen; its path is cleansed of virtual-file segments, its span shifted to
/// 1-based lines. A statement with no accepted candidate yields nothing.
pub open spec fn chosen_info(
    fs: FilterSpec,
    idx: u64,
    locs: Seq<CodeLocationView>,
    names: Seq<Seq<char>>,
) -> Option<StatementInformationView>
    decreases locs.len(),
{
    if locs.len() == 0 || names.len() == 0 {
        None
    } else if spec_should_include(fs, idx, names[0], locs[0].path) {
        Some(
            StatementInformationView {
                idx,
                function_name: names[0],
                source_file_full_path: strip_virtual(locs[0].path),
                start: (locs[0].start_line + 1) as u64,
                end: (locs[0].end_line + 1) as u64,
            },
        )
    } else {
        chosen_info(fs, idx, locs.skip(1), names.skip(1))
    }
}

/// The retained entries of the whole map, one per annotated statement that
/// has function names and an accepted candidate, in annotation order.
pub open spec fn build_map_spec(
    fs: FilterSpec,
    cov: Seq<(u64, Vec<CodeLocation>)>,
    prof: Seq<(u64, Vec<String>)>,
) -> Seq<(u64, StatementInformationView)>
    decreases cov.len(),
{
    if cov.len() == 0 {
        Seq::empty()
    } else {
        let rest = build_map_spec(fs, cov.drop_last(), prof);
        let key = cov.last().0;
        match prof_lookup(prof, key) {
            None => rest,
            Some(names) => match chosen_info(
                fs,
                key,
                code_locations_view(cov.last().1@),
                names,
            ) {
                None => rest,
                Some(info) => rest.push((key, info)),
            },
        }
    }
}

/// Resolve one statement: zip its candidate locations with its function
/// names, keep the first candidate the filter accepts, and cleanse its path.
fn get_statement_information(
    idx: u64,
    code_locations: &Vec<CodeLocation>,
    function_names: &Vec<String>,
    filter: &StatementCategoryFilter,
) -> (r: Option<StatementInformation>)
    requires
        lines_in_range(code_locations_view(code_locations@)),
    ensures
        match r {
            Some(info) => chosen_info(
                filter@,
                idx,
                code_locations_view(code_locations@),
                crate::annotations::names_view(function_names@),
            ) == Some(info@),
            None => chosen_info(
                filter@,
                idx,
                code_locations_view(code_locations@),
                crate::annotations::names_view(function_names@),
            ) is None,
        },
{
    let ghost locs = code_locations_view(code_locations@);
    let ghost names = crate::annotations::names_view(function_names@);
    let n = if code_locations.len() < function_names.len() {
        code_locations.len()
    } else {
        function_names.len()
    };
    let mut i: usize = 0;
    proof {
        assert(locs.skip(0int) =~= locs);
        assert(names.skip(0int) =~= names);
    }
    while i < n
        invariant
            i <= n,
            n <= code_locations@.len(),
            n <= function_names@.len(),
            n == if code_locations@.len() < function_names@.len() {
                code_locations@.len()
            } else {
                function_names@.len()
            },
            locs == code_locations_view(code_locations@),
            names == crate::annotations::names_view(function_names@),
            lines_in_range(locs),
            chosen_info(filter@, idx, locs, names) == chosen_info(
                filter@,
                idx,
                locs.skip(i as int),
                names.skip(i as int),
            ),
        decreases n - i,
    {
        proof {
            assert(locs.skip(i as int)[0] == locs[i as int]);
            assert(names.skip(i as int)[0] == names[i as int]);
            assert(locs[i as int] == code_locations@[i as int]@);
            assert(names[i as int] == function_names@[i as int]@);
        }
        let location = &code_locations[i];
        let name = &function_names[i];
        if filter.should_include(idx, name.as_str(), location.source_file_full_path.as_str()) {
            let stripped = strip_virtual_file_segments(location.source_file_full_path.as_str());
            let line_range = LineRange {
                start: location.span.start.line + 1,
                end: location.span.end.line + 1,
            };
            let info = StatementInformation {
                idx,
                function_name: name.clone(),
                source_file_full_path: stripped,
                line_range,
            };
            return Some(info);
        }
        proof {
            assert(locs.skip(i as int).skip(1) =~= locs.skip(i + 1));
            assert(names.skip(i as int).skip(1) =~= names.skip(i + 1));
        }
        i = i + 1;
    }
    proof {
        if i < locs.len() {
            assert(names.skip(i as int).len() == 0);
        } else {
            assert(locs.skip(i as int).len() == 0);
        }
    }
    None
}

/// Build the map of retained statements from the two annotation namespaces,
/// resolving each statement through the filter.
pub fn build_map(
    coverage_annotations: &CoverageAnnotations,
    profiler_annotations: &ProfilerAnnotations,
    filter: &StatementCategoryFilter,
) -> (r: StatementInformationMap)
    requires
        forall|i: int|
            0 <= i < coverage_annotations.statements_code_locations@.len() ==> lines_in_range(
                code_locations_view(
                    #[trigger] coverage_annotations.statements_code_locations@[i].1@,
                ),
            ),
    ensures
        info_entries_view(r.entries@) =~= build_map_spec(
            filter@,
            coverage_annotations.statements_code_locations@,
            profiler_annotations.statements_functions@,
        ),
{
    let ghost cov = coverage_annotations.statements_code_locations@;
    let ghost prof = profiler_annotations.statements_functions@;
    let n = coverage_annotations.statements_code_locations.len();
    let mut entries: Vec<(u64, StatementInformation)> = Vec::new();
    let mut i: usize = 0;
    proof {
        assert(cov.take(0int) =~= Seq::<(u64, Vec<CodeLocation>)>::empty());
    }
    while i < n
        invariant
            i <= n,
            n == cov.len(),
            cov == coverage_annotations.statements_code_locations@,
            prof == profiler_annotations.statements_functions@,
            forall|w: int|
                0 <= w < cov.len() ==> lines_in_range(
                    code_locations_view(#[trigger] cov[w].1@),
                ),
            info_entries_view(entries@) =~= build_map_spec(filter@, cov.take(i as int), prof),
        decreases n - i,
    {
        let ghost before = entries@;
        proof {
            assert(cov.take(i + 1).drop_last() =~= cov.take(i as int));
            assert(cov.take(i + 1).last() == cov[i as int]);
        }
        let key = coverage_annotations.statements_code_locations[i].0;
        let locations = &coverage_annotations.statements_code_locations[i].1;
        match profiler_annotations.get(key) {
            None => {},
            Some(function_names) => {
                match get_statement_information(key, locations, function_names, filter) {
                    None => {},
                    Some(info) => {
                        entries.push((key, info));
                    },
                }
            },
        }
        proof {
            assert forall|j: int| 0 <= j < before.len() implies entries@[j] == before[j] by {}
            assert(info_entries_view(entries@) =~= build_map_spec(filter@, cov.take(i + 1), prof));
        }
        i = i + 1;
    }
    proof {
        assert(cov.take(n as int) =~= cov);
    }
    StatementInformationMap { entries }
}

} // verus!
