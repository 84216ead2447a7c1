//! Coverage of a single source file: a mapping from function names to
//! [`FunctionCoverage`], kept as an association list sorted by the
//! lexicographic order of the names.
use crate::function_coverage::counts_map_of;
use crate::function_coverage::counts_sorted;
use crate::function_coverage::lemma_seq_merge_counts_map;
use crate::function_coverage::lemma_seq_merge_counts_sorted;
use crate::function_coverage::map_add_count;
use crate::function_coverage::map_truncate_counts;
use crate::function_coverage::merge_counts;
use crate::function_coverage::seq_add_count;
use crate::function_coverage::seq_merge_counts;
use crate::function_coverage::seq_truncate_counts;
use crate::function_coverage::FunctionCoverage;
use crate::text::lemma_lex_lt_connected;
use crate::text::lex_lt;
use crate::text::str_eq;
use crate::text::str_lt;
use vstd::prelude::*;

verus! {

/// The mathematical content of a file's entries: names paired with the
/// entries of their function coverage.
pub type AFile = Seq<(Seq<char>, Seq<(u64, u64)>)>;

/// Names strictly increasing, and every value a sorted count list.
pub open spec fn afile_sorted(f: AFile) -> bool {
    &&& forall|i: int, j: int| 0 <= i < j < f.len() ==> lex_lt(f[i].0, f[j].0)
    &&& forall|i: int| 0 <= i < f.len() ==> counts_sorted(#[trigger] f[i].1)
}

/// Index of the entry named `q`, or -1 if there is none.
pub open spec fn aindex_of_name(f: AFile, q: Seq<char>) -> int
    decreases f.len(),
{
    if f.len() == 0 {
        -1
    } else if f[0].0 == q {
        0
    } else {
        let r = aindex_of_name(f.skip(1), q);
        if r < 0 {
            -1
        } else {
            r + 1
        }
    }
}

/// The mapping from names to line-count mappings that a file's entries denote.
pub open spec fn afile_map_of(f: AFile) -> Map<Seq<char>, Map<u64, u64>> {
    Map::new(
        |q: Seq<char>| aindex_of_name(f, q) >= 0,
        |q: Seq<char>| counts_map_of(f[aindex_of_name(f, q)].1),
    )
}

pub proof fn lemma_aindex_of_name(f: AFile, q: Seq<char>)
    ensures
        aindex_of_name(f, q) >= 0 ==> {
            &&& aindex_of_name(f, q) < f.len()
            &&& f[aindex_of_name(f, q)].0 == q
        },
        aindex_of_name(f, q) < 0 ==> forall|i: int| 0 <= i < f.len() ==> f[i].0 != q,
    decreases f.len(),
{
    if f.len() > 0 && f[0].0 != q {
        lemma_aindex_of_name(f.skip(1), q);
        if aindex_of_name(f, q) < 0 {
            assert forall|i: int| 0 <= i < f.len() implies f[i].0 != q by {
                if i > 0 {
                    assert(f.skip(1)[i - 1] == f[i]);
                }
            }
        }
    }
}

/// A name occurs in the entries exactly when the denoted map contains it.
pub proof fn lemma_afile_map_of_contains(f: AFile, i: int)
    requires
        afile_sorted(f),
        0 <= i < f.len(),
    ensures
        afile_map_of(f).dom().contains(f[i].0),
        afile_map_of(f)[f[i].0] == counts_map_of(f[i].1),
    decreases f.len(),
{
    lemma_aindex_of_name(f, f[i].0);
    let j = aindex_of_name(f, f[i].0);
    if j >= 0 && i != j {
        assert(f[i].0 == f[j].0);
        if i < j {
            assert(lex_lt(f[i].0, f[j].0));
        } else {
            assert(lex_lt(f[j].0, f[i].0));
        }
        lemma_lex_lt_irreflexive(f[i].0);
        assert(false);
    }
    if j < 0 {
        assert(f[i].0 != f[i].0);
    }
}

proof fn lemma_lex_lt_irreflexive(a: Seq<char>)
    ensures
        !lex_lt(a, a),
    decreases a.len(),
{
    if a.len() > 0 {
        lemma_lex_lt_irreflexive(a.skip(1));
    }
}

/// Adding one line count under a name: the name is inserted in order if it is
/// new, with a single-line count list; otherwise its count list is updated.
pub open spec fn afile_add(f: AFile, name: Seq<char>, line: u64, v: u64) -> AFile
    decreases f.len(),
{
    if f.len() == 0 {
        seq![(name, seq![(line, v)])]
    } else if lex_lt(name, f[0].0) {
        seq![(name, seq![(line, v)])] + f
    } else if name == f[0].0 {
        seq![(f[0].0, seq_add_count(f[0].1, line, v))] + f.skip(1)
    } else {
        seq![f[0]] + afile_add(f.skip(1), name, line, v)
    }
}

/// Adding one line count under a name, on the denoted map.
pub open spec fn map_file_add(
    m: Map<Seq<char>, Map<u64, u64>>,
    name: Seq<char>,
    line: u64,
    v: u64,
) -> Map<Seq<char>, Map<u64, u64>> {
    m.insert(
        name,
        map_add_count(
            if m.dom().contains(name) {
                m[name]
            } else {
                Map::empty()
            },
            line,
            v,
        ),
    )
}

/// Merging one whole entry into the entries: combine count lists under an
/// existing name, insert the entry in order under a new one.
pub open spec fn afile_merge_entry(f: AFile, name: Seq<char>, counts: Seq<(u64, u64)>) -> AFile
    decreases f.len(),
{
    if f.len() == 0 {
        seq![(name, counts)]
    } else if lex_lt(name, f[0].0) {
        seq![(name, counts)] + f
    } else if name == f[0].0 {
        seq![(f[0].0, seq_merge_counts(f[0].1, counts))] + f.skip(1)
    } else {
        seq![f[0]] + afile_merge_entry(f.skip(1), name, counts)
    }
}

/// Folding every entry of `b` into `a`.
pub open spec fn afile_merge_fold(a: AFile, b: AFile) -> AFile
    decreases b.len(),
{
    if b.len() == 0 {
        a
    } else {
        afile_merge_fold(afile_merge_entry(a, b[0].0, b[0].1), b.skip(1))
    }
}

/// Merging two file mappings: the union of their names, with the line counts
/// of shared names merged.
pub open spec fn merge_files(
    a: Map<Seq<char>, Map<u64, u64>>,
    b: Map<Seq<char>, Map<u64, u64>>,
) -> Map<Seq<char>, Map<u64, u64>> {
    Map::new(
        |q: Seq<char>| a.dom().contains(q) || b.dom().contains(q),
        |q: Seq<char>|
            if a.dom().contains(q) && b.dom().contains(q) {
                merge_counts(a[q], b[q])
            } else if a.dom().contains(q) {
                a[q]
            } else {
                b[q]
            },
    )
}

/// Clamping every count of every function to at most one.
pub open spec fn afile_truncate(f: AFile) -> AFile {
    f.map_values(|e: (Seq<char>, Seq<(u64, u64)>)| (e.0, seq_truncate_counts(e.1)))
}

pub open spec fn map_file_truncate(m: Map<Seq<char>, Map<u64, u64>>) -> Map<
    Seq<char>,
    Map<u64, u64>,
> {
    Map::new(|q: Seq<char>| m.dom().contains(q), |q: Seq<char>| map_truncate_counts(m[q]))
}

/// Where an addition or an entry merge lands in the sorted entries.
proof fn lemma_afile_combine_at(f: AFile, name: Seq<char>, counts: Seq<(u64, u64)>, i: int)
    requires
        afile_sorted(f),
        0 <= i <= f.len(),
        forall|j: int| 0 <= j < i ==> lex_lt(#[trigger] f[j].0, name),
        i < f.len() ==> !lex_lt(f[i as int].0, name),
    ensures
        i < f.len() && f[i].0 == name ==> afile_merge_entry(f, name, counts) =~= f.update(
            i,
            (name, seq_merge_counts(f[i].1, counts)),
        ),
        !(i < f.len() && f[i].0 == name) ==> afile_merge_entry(f, name, counts) =~= f.insert(
            i,
            (name, counts),
        ),
        i < f.len() && f[i].0 == name ==> afile_add(f, name, counts[0].0, counts[0].1)
            =~= f.update(i, (name, seq_add_count(f[i].1, counts[0].0, counts[0].1))),
        !(i < f.len() && f[i].0 == name) ==> afile_add(f, name, counts[0].0, counts[0].1)
            =~= f.insert(i, (name, seq![(counts[0].0, counts[0].1)])),
    decreases f.len(),
{
    if f.len() == 0 {
        assert(afile_merge_entry(f, name, counts) =~= f.insert(0, (name, counts)));
        assert(afile_add(f, name, counts[0].0, counts[0].1) =~= f.insert(
            0,
            (name, seq![(counts[0].0, counts[0].1)]),
        ));
    } else if i == 0 {
        if f[0].0 == name {
            lemma_lex_lt_irreflexive(name);
            assert(afile_merge_entry(f, name, counts) =~= f.update(
                0,
                (name, seq_merge_counts(f[0].1, counts)),
            ));
            assert(afile_add(f, name, counts[0].0, counts[0].1) =~= f.update(
                0,
                (name, seq_add_count(f[0].1, counts[0].0, counts[0].1)),
            ));
        } else {
            if !lex_lt(name, f[0].0) {
                lemma_lex_lt_connected(name, f[0].0);
                assert(false);
            }
            assert(lex_lt(name, f[0].0));
            assert(afile_merge_entry(f, name, counts) =~= f.insert(0, (name, counts)));
            assert(afile_add(f, name, counts[0].0, counts[0].1) =~= f.insert(
                0,
                (name, seq![(counts[0].0, counts[0].1)]),
            ));
        }
    } else {
        assert(lex_lt(f[0].0, name));
        lemma_lex_lt_irreflexive(f[0].0);
        assert(f[0].0 != name);
        assert(!lex_lt(name, f[0].0)) by {
            if lex_lt(name, f[0].0) {
                crate::text::lemma_lex_lt_asymmetric(f[0].0, name);
            }
        }
        assert(forall|j: int|
            0 <= j < i - 1 ==> lex_lt(#[trigger] f.skip(1)[j].0, name)) by {
            assert(forall|j: int| 0 <= j < i - 1 ==> f.skip(1)[j] == f[j + 1]);
        }
        lemma_afile_combine_at(f.skip(1), name, counts, i - 1);
        if i < f.len() && f[i].0 == name {
            assert(f.skip(1)[i - 1] == f[i]);
            assert(afile_merge_entry(f, name, counts) =~= seq![f[0]] + f.skip(1).update(
                i - 1,
                (name, seq_merge_counts(f[i].1, counts)),
            ));
            assert(seq![f[0]] + f.skip(1).update(i - 1, (name, seq_merge_counts(f[i].1, counts)))
                =~= f.update(i, (name, seq_merge_counts(f[i].1, counts))));
            assert(afile_add(f, name, counts[0].0, counts[0].1) =~= seq![f[0]] + f.skip(1).update(
                i - 1,
                (name, seq_add_count(f[i].1, counts[0].0, counts[0].1)),
            ));
            assert(seq![f[0]] + f.skip(1).update(
                i - 1,
                (name, seq_add_count(f[i].1, counts[0].0, counts[0].1)),
            ) =~= f.update(i, (name, seq_add_count(f[i].1, counts[0].0, counts[0].1))));
        } else {
            assert(afile_merge_entry(f, name, counts) =~= seq![f[0]] + f.skip(1).insert(
                i - 1,
                (name, counts),
            ));
            assert(seq![f[0]] + f.skip(1).insert(i - 1, (name, counts)) =~= f.insert(
                i,
                (name, counts),
            ));
            assert(afile_add(f, name, counts[0].0, counts[0].1) =~= seq![f[0]] + f.skip(1).insert(
                i - 1,
                (name, seq![(counts[0].0, counts[0].1)]),
            ));
            assert(seq![f[0]] + f.skip(1).insert(i - 1, (name, seq![(counts[0].0, counts[0].1)]))
                =~= f.insert(i, (name, seq![(counts[0].0, counts[0].1)])));
        }
    }
}

/// Sortedness is preserved by an entry merge, and the new name is the merged
/// one or one of the old names.
pub proof fn lemma_afile_merge_entry_sorted(f: AFile, name: Seq<char>, counts: Seq<(u64, u64)>)
    requires
        afile_sorted(f),
        counts_sorted(counts),
    ensures
        afile_sorted(afile_merge_entry(f, name, counts)),
    decreases f.len(),
{
    let r = afile_merge_entry(f, name, counts);
    if f.len() == 0 {
    } else if lex_lt(name, f[0].0) {
        assert forall|i: int, j: int| 0 <= i < j < r.len() implies lex_lt(r[i].0, r[j].0) by {
            if i > 0 {
                assert(r[i] == f[i - 1] && r[j] == f[j - 1]);
            } else if j > 1 {
                assert(r[j] == f[j - 1]);
                crate::text::lemma_lex_lt_transitive(name, f[0].0, f[j - 1].0);
            }
        }
    } else if name == f[0].0 {
        lemma_seq_merge_counts_sorted(f[0].1, counts);
        assert forall|i: int| 0 <= i < r.len() implies counts_sorted(#[trigger] r[i].1) by {
            if i > 0 {
                assert(r[i] == f[i]);
            }
        }
        assert forall|i: int, j: int| 0 <= i < j < r.len() implies lex_lt(r[i].0, r[j].0) by {
            if i > 0 {
                assert(r[i] == f[i] && r[j] == f[j]);
            } else {
                assert(r[0].0 == f[0].0 && r[j] == f[j]);
            }
        }
    } else {
        if !lex_lt(f[0].0, name) {
            lemma_lex_lt_connected(name, f[0].0);
            assert(false);
        }
        assert(lex_lt(f[0].0, name));
        lemma_afile_merge_entry_sorted(f.skip(1), name, counts);
        lemma_afile_merge_entry_names(f.skip(1), name, counts);
        let rr = afile_merge_entry(f.skip(1), name, counts);
        assert forall|i: int, j: int| 0 <= i < j < r.len() implies lex_lt(r[i].0, r[j].0) by {
            if i == 0 {
                assert(r[0] == f[0]);
                assert(r[j] == rr[j - 1]);
                if rr[j - 1].0 == name {
                } else {
                    let w = choose|w: int|
                        0 <= w < f.skip(1).len() && f.skip(1)[w].0 == rr[j - 1].0;
                    assert(f[w + 1].0 == rr[j - 1].0);
                }
            } else {
                assert(r[i] == rr[i - 1] && r[j] == rr[j - 1]);
            }
        }
        assert forall|i: int| 0 <= i < r.len() implies counts_sorted(#[trigger] r[i].1) by {
            if i > 0 {
                assert(r[i] == rr[i - 1]);
            }
        }
    }
}

proof fn lemma_afile_merge_entry_names(f: AFile, name: Seq<char>, counts: Seq<(u64, u64)>)
    ensures
        forall|i: int|
            0 <= i < afile_merge_entry(f, name, counts).len() ==> (#[trigger] afile_merge_entry(
                f,
                name,
                counts,
            )[i].0 == name || exists|j: int|
                0 <= j < f.len() && f[j].0 == afile_merge_entry(f, name, counts)[i].0),
    decreases f.len(),
{
    let r = afile_merge_entry(f, name, counts);
    if f.len() == 0 {
    } else if lex_lt(name, f[0].0) {
        assert forall|i: int| 0 <= i < r.len() implies (r[i].0 == name || exists|j: int|
            0 <= j < f.len() && f[j].0 == r[i].0) by {
            if i > 0 {
                assert(f[i - 1].0 == r[i].0);
            }
        }
    } else if name == f[0].0 {
        assert forall|i: int| 0 <= i < r.len() implies (r[i].0 == name || exists|j: int|
            0 <= j < f.len() && f[j].0 == r[i].0) by {
            if i > 0 {
                assert(f[i].0 == r[i].0);
            } else {
                assert(f[0].0 == r[0].0);
            }
        }
    } else {
        lemma_afile_merge_entry_names(f.skip(1), name, counts);
        let rr = afile_merge_entry(f.skip(1), name, counts);
        assert forall|i: int| 0 <= i < r.len() implies (r[i].0 == name || exists|j: int|
            0 <= j < f.len() && f[j].0 == r[i].0) by {
            if i == 0 {
                assert(f[0].0 == r[0].0);
            } else {
                assert(r[i] == rr[i - 1]);
                if rr[i - 1].0 != name {
                    let w = choose|w: int|
                        0 <= w < f.skip(1).len() && f.skip(1)[w].0 == rr[i - 1].0;
                    assert(f[w + 1].0 == r[i].0);
                }
            }
        }
    }
}

/// How `aindex_of_name` behaves across an entry merge.
proof fn lemma_aindex_merge_entry(f: AFile, name: Seq<char>, counts: Seq<(u64, u64)>, q: Seq<char>)
    requires
        afile_sorted(f),
    ensures
        q == name ==> {
            &&& aindex_of_name(afile_merge_entry(f, name, counts), q) >= 0
            &&& afile_merge_entry(f, name, counts)[aindex_of_name(
                afile_merge_entry(f, name, counts),
                q,
            )].1 == (if aindex_of_name(f, q) >= 0 {
                seq_merge_counts(f[aindex_of_name(f, q)].1, counts)
            } else {
                counts
            })
        },
        q != name ==> {
            &&& (aindex_of_name(afile_merge_entry(f, name, counts), q) >= 0 <==> aindex_of_name(
                f,
                q,
            ) >= 0)
            &&& (aindex_of_name(f, q) >= 0 ==> afile_merge_entry(f, name, counts)[aindex_of_name(
                afile_merge_entry(f, name, counts),
                q,
            )].1 == f[aindex_of_name(f, q)].1)
        },
    decreases f.len(),
{
    let r = afile_merge_entry(f, name, counts);
    lemma_aindex_of_name(f, q);
    lemma_aindex_of_name(r, q);
    if f.len() == 0 {
    } else if lex_lt(name, f[0].0) {
        lemma_lex_lt_irreflexive(f[0].0);
        assert(r == seq![(name, counts)] + f);
        assert(r.skip(1) =~= f);
        if q == name {
            assert forall|i2: int| 0 <= i2 < f.len() implies f[i2].0 != q by {
                if i2 == 0 {
                    if f[0].0 == q {
                        lemma_lex_lt_irreflexive(q);
                    }
                } else {
                    crate::text::lemma_lex_lt_transitive(name, f[0].0, f[i2].0);
                    if f[i2].0 == q {
                        lemma_lex_lt_irreflexive(q);
                    }
                }
            }
            if aindex_of_name(f, q) >= 0 {
                assert(false);
            }
        }
    } else if name == f[0].0 {
        assert(r == seq![(f[0].0, seq_merge_counts(f[0].1, counts))] + f.skip(1));
        assert(r.skip(1) =~= f.skip(1));
    } else {
        assert(r == seq![f[0]] + afile_merge_entry(f.skip(1), name, counts));
        assert(r.skip(1) =~= afile_merge_entry(f.skip(1), name, counts));
        lemma_aindex_merge_entry(f.skip(1), name, counts, q);
        lemma_aindex_of_name(f.skip(1), q);
        lemma_aindex_of_name(afile_merge_entry(f.skip(1), name, counts), q);
    }
}

/// The map denoted after an entry merge: the merged name now carries the
/// merged counts, every other name is unchanged.
pub proof fn lemma_afile_merge_entry_map(f: AFile, name: Seq<char>, counts: Seq<(u64, u64)>)
    requires
        afile_sorted(f),
        counts_sorted(counts),
    ensures
        afile_map_of(afile_merge_entry(f, name, counts)) =~~= afile_map_of(f).insert(
            name,
            merge_counts(
                if afile_map_of(f).dom().contains(name) {
                    afile_map_of(f)[name]
                } else {
                    Map::empty()
                },
                counts_map_of(counts),
            ),
        ),
{
    let r = afile_merge_entry(f, name, counts);
    let goal = afile_map_of(f).insert(
        name,
        merge_counts(
            if afile_map_of(f).dom().contains(name) {
                afile_map_of(f)[name]
            } else {
                Map::empty()
            },
            counts_map_of(counts),
        ),
    );
    assert forall|q: Seq<char>|
        afile_map_of(r).dom().contains(q) == goal.dom().contains(q) by {
        lemma_aindex_of_name(f, q);
        lemma_aindex_of_name(r, q);
        lemma_aindex_merge_entry(f, name, counts, q);
    }
    assert(afile_map_of(r).dom() =~= goal.dom());
    assert forall|q: Seq<char>| goal.dom().contains(q) implies afile_map_of(r)[q] =~= goal[q] by {
        lemma_aindex_of_name(f, q);
        lemma_aindex_of_name(r, q);
        lemma_aindex_merge_entry(f, name, counts, q);
        if q == name {
            if aindex_of_name(f, q) >= 0 {
                lemma_seq_merge_counts_map(f[aindex_of_name(f, q)].1, counts);
            } else {
                lemma_seq_merge_counts_map(Seq::<(u64, u64)>::empty(), counts);
                assert(counts_map_of(Seq::<(u64, u64)>::empty()) =~= Map::<u64, u64>::empty());
                assert(merge_counts(Map::empty(), counts_map_of(counts)) =~= counts_map_of(
                    counts,
                ));
            }
        }
    }
    assert(afile_map_of(r) =~~= goal);
}

/// The entries of one source file's coverage, one per function name.
pub struct FileCoverage {
    pub entries: Vec<(String, FunctionCoverage)>,
}

impl View for FileCoverage {
    type V = Map<Seq<char>, Map<u64, u64>>;

    open spec fn view(&self) -> Map<Seq<char>, Map<u64, u64>> {
        afile_map_of(self.abs())
    }
}

impl FileCoverage {
    /// The mathematical content of the entries.
    pub open spec fn abs(&self) -> AFile {
        self.entries@.map_values(|e: (String, FunctionCoverage)| (e.0@, e.1.entries@))
    }

    /// The entries are sorted by name and every count list is sorted.
    pub open spec fn wf(&self) -> bool {
        afile_sorted(self.abs())
    }

    pub fn new() -> (r: FileCoverage)
        ensures
            r.wf(),
            r.abs() =~= Seq::<(Seq<char>, Seq<(u64, u64)>)>::empty(),
            r@ =~= Map::<Seq<char>, Map<u64, u64>>::empty(),
    {
        let r = FileCoverage { entries: Vec::new() };
        proof {
            assert(r.abs() =~= Seq::<(Seq<char>, Seq<(u64, u64)>)>::empty());
            assert(r@ =~= Map::<Seq<char>, Map<u64, u64>>::empty());
        }
        r
    }

    /// Position of the first entry whose name is not below `name`, in the
    /// lexicographic order.
    fn lower_bound(&self, name: &str) -> (i: usize)
        requires
            self.wf(),
        ensures
            i <= self.entries@.len(),
            forall|j: int| 0 <= j < i ==> lex_lt(#[trigger] self.abs()[j].0, name@),
            i < self.entries@.len() ==> !lex_lt(self.abs()[i as int].0, name@),
    {
        let n = self.entries.len();
        let mut i: usize = 0;
        loop
            invariant
                i <= n,
                n == self.entries@.len(),
                self.wf(),
                forall|j: int| 0 <= j < i ==> lex_lt(#[trigger] self.abs()[j].0, name@),
            ensures
                i <= n,
                forall|j: int| 0 <= j < i ==> lex_lt(#[trigger] self.abs()[j].0, name@),
                i < n ==> !lex_lt(self.abs()[i as int].0, name@),
            decreases n - i,
        {
            if i >= n {
                break ;
            }
            let below = str_lt(self.entries[i].0.as_str(), name);
            proof {
                assert(self.abs()[i as int].0 == self.entries@[i as int].0@);
            }
            if !below {
                break ;
            }
            i = i + 1;
        }
        i
    }

    /// Add `v` to the count of `line` in the function called `name`,
    /// registering the function and the line as needed.
    pub fn add(&mut self, name: &str, line: u64, v: u64)
        requires
            old(self).wf(),
        ensures
            final(self).wf(),
            final(self).abs() =~= afile_add(old(self).abs(), name@, line, v),
    {
        let ghost f0 = self.abs();
        let i = self.lower_bound(name);
        proof {
            lemma_afile_combine_at(f0, name@, seq![(line, v)], i as int);
        }
        if i < self.entries.len() {
            let same = str_eq(self.entries[i].0.as_str(), name);
            proof {
                assert(self.abs()[i as int].0 == self.entries@[i as int].0@);
            }
            if same {
                let (key, mut fc) = self.entries.remove(i);
                fc.add(line, v);
                self.entries.insert(i, (key, fc));
                proof {
                    assert(self.abs() =~= f0.update(
                        i as int,
                        (name@, seq_add_count(f0[i as int].1, line, v)),
                    ));
                    assert(self.abs() =~= afile_add(f0, name@, line, v));
                    lemma_afile_add_is_merge_single(f0, name@, line, v);
                    lemma_afile_merge_entry_sorted(f0, name@, seq![(line, v)]);
                }
                return ;
            }
        }
        let mut fc = FunctionCoverage::new();
        fc.add(line, v);
        self.entries.insert(i, (String::from_str(name), fc));
        proof {
            assert(fc.entries@ =~= seq![(line, v)]);
            assert(self.abs() =~= f0.insert(i as int, (name@, seq![(line, v)])));
            assert(self.abs() =~= afile_add(f0, name@, line, v));
            lemma_afile_add_is_merge_single(f0, name@, line, v);
            lemma_afile_merge_entry_sorted(f0, name@, seq![(line, v)]);
        }
    }

    /// Fold every function of `other` into this file's coverage.
    pub fn merge(&mut self, other: &FileCoverage)
        requires
            old(self).wf(),
            other.wf(),
        ensures
            final(self).wf(),
            final(self).abs() =~= afile_merge_fold(old(self).abs(), other.abs()),
            final(self)@ =~~= merge_files(old(self)@, other@),
    {
        let ghost a0 = self.abs();
        let ghost b = other.abs();
        proof {
            assert(b.skip(0int) =~= b);
        }
        let n = other.entries.len();
        let mut i: usize = 0;
        while i < n
            invariant
                i <= n,
                n == b.len(),
                other.abs() == b,
                other.wf(),
                self.wf(),
                afile_merge_fold(a0, b) =~= afile_merge_fold(self.abs(), b.skip(i as int)),
            decreases n - i,
        {
            proof {
                assert(b.skip(i as int)[0] == b[i as int]);
                assert(b.skip(i as int).skip(1) =~= b.skip(i + 1));
            }
            let ghost before = self.abs();
            let (name, fc) = (&other.entries[i].0, &other.entries[i].1);
            proof {
                assert(b[i as int] == (name@, fc.entries@));
            }
            self.merge_entry(name.as_str(), fc);
            proof {
                assert(self.abs() =~= afile_merge_entry(before, b[i as int].0, b[i as int].1));
                assert(afile_merge_fold(a0, b) =~= afile_merge_fold(self.abs(), b.skip(i + 1)));
            }
            i = i + 1;
        }
        proof {
            assert(b.skip(i as int) =~= Seq::<(Seq<char>, Seq<(u64, u64)>)>::empty());
            lemma_afile_merge_fold_map(a0, b);
        }
    }

    /// Merge one function's counts into this file's coverage.
    fn merge_entry(&mut self, name: &str, fc: &FunctionCoverage)
        requires
            old(self).wf(),
            fc.wf(),
        ensures
            final(self).wf(),
            final(self).abs() =~= afile_merge_entry(old(self).abs(), name@, fc.entries@),
    {
        let ghost f0 = self.abs();
        let i = self.lower_bound(name);
        proof {
            lemma_afile_combine_at(f0, name@, fc.entries@, i as int);
            lemma_afile_merge_entry_sorted(f0, name@, fc.entries@);
        }
        if i < self.entries.len() {
            let same = str_eq(self.entries[i].0.as_str(), name);
            proof {
                assert(self.abs()[i as int].0 == self.entries@[i as int].0@);
            }
            if same {
                let (key, mut existing) = self.entries.remove(i);
                existing.merge(fc);
                self.entries.insert(i, (key, existing));
                proof {
                    assert(self.abs() =~= f0.update(
                        i as int,
                        (name@, seq_merge_counts(f0[i as int].1, fc.entries@)),
                    ));
                    assert(self.abs() =~= afile_merge_entry(f0, name@, fc.entries@));
                }
                return ;
            }
        }
        self.entries.insert(i, (String::from_str(name), fc.duplicate()));
        proof {
            assert(self.abs() =~= f0.insert(i as int, (name@, fc.entries@)));
            assert(self.abs() =~= afile_merge_entry(f0, name@, fc.entries@));
        }
    }

    /// Clamp every count of every function to at most one.
    pub fn truncate_to_one(&mut self)
        requires
            old(self).wf(),
        ensures
            final(self).wf(),
            final(self).abs() =~= afile_truncate(old(self).abs()),
            final(self)@ =~~= map_file_truncate(old(self)@),
    {
        let ghost f0 = self.abs();
        let n = self.entries.len();
        let mut i: usize = 0;
        while i < n
            invariant
                i <= n,
                n == self.entries@.len(),
                afile_sorted(f0),
                self.abs().len() == f0.len(),
                forall|j: int| i <= j < f0.len() ==> self.abs()[j] == f0[j],
                forall|j: int|
                    0 <= j < i ==> self.abs()[j] == (f0[j].0, seq_truncate_counts(f0[j].1)),
            decreases n - i,
        {
            let ghost prev = self.entries@;
            let ghost abs_prev = self.abs();
            let (key, mut fc) = self.entries.remove(i);
            proof {
                fc_wf_from_sorted(f0, i as int);
                assert(prev[i as int].1.entries@ == f0[i as int].1);
            }
            fc.truncate_to_one();
            self.entries.insert(i, (key, fc));
            proof {
                assert(self.entries@ =~= prev.update(i as int, (key, fc)));
                assert forall|j: int| 0 <= j < f0.len() && j != i implies self.abs()[j]
                    == abs_prev[j] by {
                    assert(self.entries@[j] == prev[j]);
                }
                assert forall|j: int| 0 <= j < i implies self.abs()[j] == (
                f0[j].0,
                seq_truncate_counts(f0[j].1),
                ) by {
                    assert(self.abs()[j] == abs_prev[j]);
                    assert(abs_prev[j] == (f0[j].0, seq_truncate_counts(f0[j].1)));
                }
                assert(self.abs()[i as int] == (f0[i as int].0, seq_truncate_counts(
                    f0[i as int].1,
                )));
            }
            i = i + 1;
        }
        proof {
            assert(self.abs() =~= afile_truncate(f0));
            lemma_afile_truncate(f0);
        }
    }

    /// The number of functions in the file.
    pub fn functions_found(&self) -> (r: usize)
        ensures
            r == self.entries@.len(),
    {
        self.entries.len()
    }

    /// The number of functions with any executed line.
    pub fn executed_functions(&self) -> (r: usize)
        ensures
            r == afile_hit_count(self.abs()),
    {
        let n = self.entries.len();
        let mut hit: usize = 0;
        let mut i: usize = 0;
        proof {
            assert(self.abs().take(0int) =~= Seq::<(Seq<char>, Seq<(u64, u64)>)>::empty());
        }
        while i < n
            invariant
                i <= n,
                n == self.entries@.len(),
                n == self.abs().len(),
                hit == afile_hit_count(self.abs().take(i as int)),
                hit <= i,
            decreases n - i,
        {
            let was = self.entries[i].1.was_executed();
            proof {
                assert(self.abs().take(i + 1).drop_last() =~= self.abs().take(i as int));
                assert(self.abs().take(i + 1).last() == self.abs()[i as int]);
                assert(self.abs()[i as int].1 == self.entries@[i as int].1.entries@);
            }
            if was {
                hit = hit + 1;
            }
            i = i + 1;
        }
        proof {
            assert(self.abs().take(i as int) =~= self.abs());
        }
        hit
    }

    /// All the file's line counts in one mapping: the merge of every
    /// function's counts.
    pub fn flatten(&self) -> (r: FunctionCoverage)
        requires
            self.wf(),
        ensures
            r.wf(),
            r.entries@ =~= afile_flatten(self.abs()),
    {
        let mut flat = FunctionCoverage::new();
        let n = self.entries.len();
        let mut i: usize = 0;
        proof {
            assert(self.abs().take(0int) =~= Seq::<(Seq<char>, Seq<(u64, u64)>)>::empty());
        }
        while i < n
            invariant
                i <= n,
                n == self.entries@.len(),
                n == self.abs().len(),
                self.wf(),
                flat.wf(),
                flat.entries@ =~= afile_flatten(self.abs().take(i as int)),
            decreases n - i,
        {
            proof {
                assert(self.abs().take(i + 1).drop_last() =~= self.abs().take(i as int));
                assert(self.abs().take(i + 1).last() == self.abs()[i as int]);
                assert(self.abs()[i as int].1 == self.entries@[i as int].1.entries@);
                fc_wf_from_sorted(self.abs(), i as int);
            }
            flat.merge(&self.entries[i].1);
            i = i + 1;
        }
        proof {
            assert(self.abs().take(i as int) =~= self.abs());
        }
        flat
    }

    /// A copy with the same entries.
    pub fn duplicate(&self) -> (r: FileCoverage)
        ensures
            r.abs() =~= self.abs(),
            r@ == self@,
    {
        let n = self.entries.len();
        let mut entries: Vec<(String, FunctionCoverage)> = Vec::new();
        let mut i: usize = 0;
        while i < n
            invariant
                i <= n,
                n == self.entries@.len(),
                entries@.len() == i,
                forall|j: int|
                    0 <= j < i ==> (#[trigger] entries@[j].0@ == self.entries@[j].0@
                        && entries@[j].1.entries@ == self.entries@[j].1.entries@),
            decreases n - i,
        {
            let ghost before = entries@;
            let name = self.entries[i].0.clone();
            let fc = self.entries[i].1.duplicate();
            entries.push((name, fc));
            proof {
                assert forall|j: int| 0 <= j < i implies (#[trigger] entries@[j].0@
                    == self.entries@[j].0@ && entries@[j].1.entries@
                    == self.entries@[j].1.entries@) by {
                    assert(entries@[j] == before[j]);
                    assert(before[j].0@ == self.entries@[j].0@);
                    assert(before[j].1.entries@ == self.entries@[j].1.entries@);
                }
                assert(entries@[i as int].0@ == self.entries@[i as int].0@);
                assert(entries@[i as int].1.entries@ == self.entries@[i as int].1.entries@);
            }
            i = i + 1;
        }
        let r = FileCoverage { entries };
        proof {
            assert(r.abs() =~= self.abs());
            assert(afile_map_of(r.abs()) == afile_map_of(self.abs()));
        }
        r
    }
}

/// The value at one position of sorted entries is itself sorted.
proof fn fc_wf_from_sorted(f: AFile, i: int)
    requires
        afile_sorted(f),
        0 <= i < f.len(),
    ensures
        counts_sorted(f[i].1),
{
}

/// How many functions have any executed line.
pub open spec fn afile_hit_count(f: AFile) -> nat
    decreases f.len(),
{
    if f.len() == 0 {
        0
    } else {
        afile_hit_count(f.drop_last()) + (if exists|i: int|
            0 <= i < f.last().1.len() && #[trigger] f.last().1[i].1 > 0 {
            1nat
        } else {
            0nat
        })
    }
}

/// The merge of every function's counts, in order.
pub open spec fn afile_flatten(f: AFile) -> Seq<(u64, u64)>
    decreases f.len(),
{
    if f.len() == 0 {
        Seq::empty()
    } else {
        seq_merge_counts(afile_flatten(f.drop_last()), f.last().1)
    }
}

/// A point addition is the merge of a one-line entry.
proof fn lemma_afile_add_is_merge_single(f: AFile, name: Seq<char>, line: u64, v: u64)
    ensures
        afile_add(f, name, line, v) =~= afile_merge_entry(f, name, seq![(line, v)]),
    decreases f.len(),
{
    let single: Seq<(u64, u64)> = seq![(line, v)];
    assert(single[0] == (line, v));
    assert(single.skip(1) =~= Seq::<(u64, u64)>::empty());
    if f.len() == 0 {
    } else if lex_lt(name, f[0].0) {
    } else if name == f[0].0 {
        assert(seq_merge_counts(f[0].1, single) == seq_merge_counts(
            seq_add_count(f[0].1, line, v),
            single.skip(1),
        ));
        assert(seq_merge_counts(f[0].1, single) == seq_add_count(f[0].1, line, v));
    } else {
        lemma_afile_add_is_merge_single(f.skip(1), name, line, v);
    }
}

/// A point addition is the merge of a one-line entry.
pub proof fn lemma_afile_add_single(f: AFile, name: Seq<char>, line: u64, v: u64)
    ensures
        afile_add(f, name, line, v) =~= afile_merge_entry(f, name, seq![(line, v)]),
{
    lemma_afile_add_is_merge_single(f, name, line, v);
}

/// Clamping preserves well-formedness of a file's entries.
pub proof fn lemma_afile_truncate_public(f: AFile)
    ensures
        afile_sorted(f) ==> afile_sorted(afile_truncate(f)),
{
    lemma_afile_truncate(f);
}

/// Clamping the entries clamps the denoted mapping.
pub proof fn lemma_afile_truncate_map_public(f: AFile)
    requires
        afile_sorted(f),
    ensures
        afile_map_of(afile_truncate(f)) =~~= map_file_truncate(afile_map_of(f)),
{
    lemma_afile_truncate(f);
}

pub proof fn lemma_afile_merge_fold_sorted(a: AFile, b: AFile)
    requires
        afile_sorted(a),
        afile_sorted(b),
    ensures
        afile_sorted(afile_merge_fold(a, b)),
    decreases b.len(),
{
    if b.len() > 0 {
        lemma_afile_merge_entry_sorted(a, b[0].0, b[0].1);
        lemma_afile_merge_fold_sorted(afile_merge_entry(a, b[0].0, b[0].1), b.skip(1));
    }
}

/// Folding all entries of `b` into `a` denotes the merge of the two maps.
pub proof fn lemma_afile_merge_fold_map(a: AFile, b: AFile)
    requires
        afile_sorted(a),
        afile_sorted(b),
    ensures
        afile_map_of(afile_merge_fold(a, b)) =~~= merge_files(afile_map_of(a), afile_map_of(b)),
    decreases b.len(),
{
    if b.len() == 0 {
        assert(afile_map_of(afile_merge_fold(a, b)) =~~= merge_files(
            afile_map_of(a),
            afile_map_of(b),
        ));
    } else {
        let name = b[0].0;
        let counts = b[0].1;
        let a1 = afile_merge_entry(a, name, counts);
        lemma_afile_merge_entry_sorted(a, name, counts);
        lemma_afile_merge_entry_map(a, name, counts);
        assert(afile_sorted(b.skip(1)));
        lemma_afile_merge_fold_map(a1, b.skip(1));
        assert forall|q: Seq<char>| true implies {
            &&& (merge_files(afile_map_of(a1), afile_map_of(b.skip(1))).dom().contains(q)
                <==> merge_files(afile_map_of(a), afile_map_of(b)).dom().contains(q))
            &&& (merge_files(afile_map_of(a1), afile_map_of(b.skip(1))).dom().contains(q)
                ==> merge_files(afile_map_of(a1), afile_map_of(b.skip(1)))[q] =~= merge_files(
                afile_map_of(a),
                afile_map_of(b),
            )[q])
        } by {
            lemma_aindex_of_name(b, q);
            lemma_aindex_of_name(b.skip(1), q);
            lemma_aindex_of_name(a, q);
            lemma_lex_lt_irreflexive(q);
            if q == name {
                if aindex_of_name(b.skip(1), q) >= 0 {
                    let w = aindex_of_name(b.skip(1), q);
                    assert(b[w + 1].0 == q);
                    assert(lex_lt(b[0].0, b[w + 1].0));
                    assert(false);
                }
                assert(aindex_of_name(b, q) == 0);
                if aindex_of_name(a, q) >= 0 {
                    lemma_afile_map_of_contains(a, aindex_of_name(a, q));
                    crate::function_coverage::lemma_merge_counts_associative(
                        afile_map_of(a)[q],
                        counts_map_of(counts),
                        Map::empty(),
                    );
                }
            } else {
                if aindex_of_name(b, q) >= 0 {
                    let w = aindex_of_name(b, q);
                    assert(w > 0);
                    assert(b.skip(1)[w - 1] == b[w]);
                    lemma_afile_map_of_contains(b, w);
                    lemma_afile_map_of_contains(b.skip(1), w - 1);
                } else {
                    if aindex_of_name(b.skip(1), q) >= 0 {
                        let w = aindex_of_name(b.skip(1), q);
                        assert(b[w + 1].0 == q);
                        assert(false);
                    }
                }
            }
        }
        assert(afile_map_of(afile_merge_fold(a, b)) =~~= merge_files(
            afile_map_of(a),
            afile_map_of(b),
        ));
    }
}

proof fn lemma_afile_truncate(f: AFile)
    ensures
        afile_sorted(f) ==> afile_sorted(afile_truncate(f)),
        afile_sorted(f) ==> afile_map_of(afile_truncate(f)) =~~= map_file_truncate(
            afile_map_of(f),
        ),
{
    if afile_sorted(f) {
        let t = afile_truncate(f);
        assert forall|i: int| 0 <= i < t.len() implies counts_sorted(#[trigger] t[i].1) by {
            assert(t[i] == (f[i].0, seq_truncate_counts(f[i].1)));
            crate::function_coverage::lemma_seq_truncate_counts_wf(f[i].1);
        }
        assert forall|q: Seq<char>| true implies {
            &&& (aindex_of_name(t, q) >= 0 <==> aindex_of_name(f, q) >= 0)
            &&& (aindex_of_name(f, q) >= 0 ==> {
                &&& 0 <= aindex_of_name(f, q) < f.len()
                &&& t[aindex_of_name(t, q)].1 == seq_truncate_counts(f[aindex_of_name(f, q)].1)
            })
        } by {
            lemma_aindex_of_name(f, q);
            lemma_aindex_of_name(t, q);
            lemma_aindex_truncate(f, q);
        }
        assert forall|q: Seq<char>|
            afile_map_of(t).dom().contains(q) implies afile_map_of(t)[q] =~= map_file_truncate(
            afile_map_of(f),
        )[q] by {
            lemma_aindex_of_name(f, q);
            crate::function_coverage::lemma_seq_truncate_counts_map(f[aindex_of_name(f, q)].1);
        }
        assert(afile_map_of(t) =~~= map_file_truncate(afile_map_of(f)));
    }
}

proof fn lemma_aindex_truncate(f: AFile, q: Seq<char>)
    ensures
        aindex_of_name(afile_truncate(f), q) == aindex_of_name(f, q),
    decreases f.len(),
{
    let t = afile_truncate(f);
    if f.len() > 0 {
        assert(t[0] == (f[0].0, seq_truncate_counts(f[0].1)));
        if f[0].0 != q {
            lemma_aindex_truncate(f.skip(1), q);
            assert(t.skip(1) =~= afile_truncate(f.skip(1)));
        }
    }
}

/// Merging file mappings is commutative.
pub proof fn lemma_merge_files_commutative(
    a: Map<Seq<char>, Map<u64, u64>>,
    b: Map<Seq<char>, Map<u64, u64>>,
)
    ensures
        merge_files(a, b) =~~= merge_files(b, a),
{
    assert forall|q: Seq<char>|
        merge_files(a, b).dom().contains(q) implies merge_files(a, b)[q] =~= merge_files(
        b,
        a,
    )[q] by {
        if a.dom().contains(q) && b.dom().contains(q) {
            crate::function_coverage::lemma_merge_counts_commutative(a[q], b[q]);
        }
    }
}

/// Merging file mappings is associative.
pub proof fn lemma_merge_files_associative(
    a: Map<Seq<char>, Map<u64, u64>>,
    b: Map<Seq<char>, Map<u64, u64>>,
    c: Map<Seq<char>, Map<u64, u64>>,
)
    ensures
        merge_files(merge_files(a, b), c) =~~= merge_files(a, merge_files(b, c)),
{
    assert forall|q: Seq<char>|
        merge_files(merge_files(a, b), c).dom().contains(q) implies merge_files(
        merge_files(a, b),
        c,
    )[q] =~= merge_files(a, merge_files(b, c))[q] by {
        if a.dom().contains(q) && b.dom().contains(q) && c.dom().contains(q) {
            crate::function_coverage::lemma_merge_counts_associative(a[q], b[q], c[q]);
        }
    }
}

} // verus!
