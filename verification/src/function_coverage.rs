//! Coverage of a single function: a mapping from line numbers to execution
//! counts, kept as an association list sorted by strictly increasing key.
//! The same structure also serves as the tally of executed statement indices.
use crate::text::sat_add;
use crate::text::saturating_add_u64;
use vstd::prelude::*;

verus! {

/// Keys are strictly increasing, so every key occurs once.
pub open spec fn counts_sorted(s: Seq<(u64, u64)>) -> bool {
    forall|i: int, j: int| 0 <= i < j < s.len() ==> s[i].0 < s[j].0
}

/// Index of the first entry with key `k`, or -1 if there is none.
pub open spec fn index_of_key(s: Seq<(u64, u64)>, k: u64) -> int
    decreases s.len(),
{
    if s.len() == 0 {
        -1
    } else if s[0].0 == k {
        0
    } else {
        let r = index_of_key(s.skip(1), k);
        if r < 0 {
            -1
        } else {
            r + 1
        }
    }
}

/// The mapping that an association list denotes.
pub open spec fn counts_map_of(s: Seq<(u64, u64)>) -> Map<u64, u64> {
    Map::new(|k: u64| index_of_key(s, k) >= 0, |k: u64| s[index_of_key(s, k)].1)
}

pub proof fn lemma_index_of_key(s: Seq<(u64, u64)>, k: u64)
    ensures
        index_of_key(s, k) >= 0 ==> {
            &&& index_of_key(s, k) < s.len()
            &&& s[index_of_key(s, k)].0 == k
        },
        index_of_key(s, k) < 0 ==> forall|i: int| 0 <= i < s.len() ==> s[i].0 != k,
    decreases s.len(),
{
    if s.len() > 0 && s[0].0 != k {
        lemma_index_of_key(s.skip(1), k);
        if index_of_key(s, k) < 0 {
            assert forall|i: int| 0 <= i < s.len() implies s[i].0 != k by {
                if i > 0 {
                    assert(s.skip(1)[i - 1] == s[i]);
                }
            }
        }
    }
}

/// A key occurs in the list exactly when the denoted map contains it.
pub proof fn lemma_counts_map_of_contains(s: Seq<(u64, u64)>, i: int)
    requires
        counts_sorted(s),
        0 <= i < s.len(),
    ensures
        counts_map_of(s).dom().contains(s[i].0),
        counts_map_of(s)[s[i].0] == s[i].1,
    decreases s.len(),
{
    lemma_index_of_key(s, s[i].0);
    if index_of_key(s, s[i].0) >= 0 {
        let j = index_of_key(s, s[i].0);
        if i != j {
            assert(s[i].0 == s[j].0);
            assert(false);
        }
    } else {
        assert(s[i].0 != s[i].0);
    }
}

/// Adding a count to one key of the mapping, saturating on overflow. A key
/// that is absent is inserted, so an addition of zero still registers the key.
pub open spec fn map_add_count(m: Map<u64, u64>, k: u64, v: u64) -> Map<u64, u64> {
    m.insert(
        k,
        if m.dom().contains(k) {
            sat_add(m[k], v)
        } else {
            v
        },
    )
}

/// The same addition on the sorted association list.
pub open spec fn seq_add_count(s: Seq<(u64, u64)>, k: u64, v: u64) -> Seq<(u64, u64)>
    decreases s.len(),
{
    if s.len() == 0 {
        seq![(k, v)]
    } else if k < s[0].0 {
        seq![(k, v)] + s
    } else if k == s[0].0 {
        seq![(s[0].0, sat_add(s[0].1, v))] + s.skip(1)
    } else {
        seq![s[0]] + seq_add_count(s.skip(1), k, v)
    }
}

pub proof fn lemma_seq_add_count_sorted(s: Seq<(u64, u64)>, k: u64, v: u64)
    requires
        counts_sorted(s),
    ensures
        counts_sorted(seq_add_count(s, k, v)),
    decreases s.len(),
{
    let r = seq_add_count(s, k, v);
    if s.len() == 0 {
    } else if k < s[0].0 {
    } else if k == s[0].0 {
    } else {
        lemma_seq_add_count_sorted(s.skip(1), k, v);
        lemma_seq_add_count_keys(s.skip(1), k, v);
        let rr = seq_add_count(s.skip(1), k, v);
        assert forall|i: int, j: int| 0 <= i < j < r.len() implies r[i].0 < r[j].0 by {
            if i == 0 {
                assert(r[0] == s[0]);
                assert(r[j] == rr[j - 1]);
                if rr[j - 1].0 == k {
                    assert(s[0].0 < k);
                } else {
                    let w = choose|w: int|
                        0 <= w < s.skip(1).len() && s.skip(1)[w].0 == rr[j - 1].0;
                    assert(s[w + 1].0 == rr[j - 1].0);
                }
            } else {
                assert(r[i] == rr[i - 1] && r[j] == rr[j - 1]);
            }
        }
    }
}

/// Every key of the list after an addition is the added key or an old key.
proof fn lemma_seq_add_count_keys(s: Seq<(u64, u64)>, k: u64, v: u64)
    ensures
        forall|i: int|
            0 <= i < seq_add_count(s, k, v).len() ==> (#[trigger] seq_add_count(s, k, v)[i].0 == k
                || exists|j: int| 0 <= j < s.len() && s[j].0 == seq_add_count(s, k, v)[i].0),
    decreases s.len(),
{
    let r = seq_add_count(s, k, v);
    if s.len() == 0 {
    } else if k < s[0].0 {
        assert forall|i: int| 0 <= i < r.len() implies (r[i].0 == k || exists|j: int|
            0 <= j < s.len() && s[j].0 == r[i].0) by {
            if i > 0 {
                assert(s[i - 1].0 == r[i].0);
            }
        }
    } else if k == s[0].0 {
        assert forall|i: int| 0 <= i < r.len() implies (r[i].0 == k || exists|j: int|
            0 <= j < s.len() && s[j].0 == r[i].0) by {
            if i > 0 {
                assert(s[i].0 == r[i].0);
            }
        }
    } else {
        lemma_seq_add_count_keys(s.skip(1), k, v);
        let rr = seq_add_count(s.skip(1), k, v);
        assert forall|i: int| 0 <= i < r.len() implies (r[i].0 == k || exists|j: int|
            0 <= j < s.len() && s[j].0 == r[i].0) by {
            if i == 0 {
                assert(s[0].0 == r[0].0);
            } else {
                assert(r[i] == rr[i - 1]);
                if rr[i - 1].0 != k {
                    let w = choose|w: int|
                        0 <= w < s.skip(1).len() && s.skip(1)[w].0 == rr[i - 1].0;
                    assert(s[w + 1].0 == r[i].0);
                }
            }
        }
    }
}

/// Where the addition lands in the sorted list: an update of the entry that
/// holds the key, or an insertion at the first position with a greater key.
proof fn lemma_seq_add_count_at(s: Seq<(u64, u64)>, k: u64, v: u64, i: int)
    requires
        counts_sorted(s),
        0 <= i <= s.len(),
        forall|j: int| 0 <= j < i ==> s[j].0 < k,
        i < s.len() ==> s[i].0 >= k,
    ensures
        i < s.len() && s[i].0 == k ==> seq_add_count(s, k, v) =~= s.update(
            i,
            (k, sat_add(s[i].1, v)),
        ),
        !(i < s.len() && s[i].0 == k) ==> seq_add_count(s, k, v) =~= s.insert(i, (k, v)),
    decreases s.len(),
{
    if s.len() == 0 {
        assert(seq_add_count(s, k, v) =~= s.insert(0, (k, v)));
    } else if i == 0 {
        if s[0].0 == k {
            assert(seq_add_count(s, k, v) =~= s.update(0, (k, sat_add(s[0].1, v))));
        } else {
            assert(k < s[0].0);
            assert(seq_add_count(s, k, v) =~= s.insert(0, (k, v)));
        }
    } else {
        assert(s[0].0 < k);
        lemma_seq_add_count_at(s.skip(1), k, v, i - 1);
        if i < s.len() && s[i].0 == k {
            assert(s.skip(1)[i - 1].0 == k);
            assert(seq_add_count(s, k, v) =~= seq![s[0]] + s.skip(1).update(
                i - 1,
                (k, sat_add(s.skip(1)[i - 1].1, v)),
            ));
            assert(seq![s[0]] + s.skip(1).update(i - 1, (k, sat_add(s[i].1, v))) =~= s.update(
                i,
                (k, sat_add(s[i].1, v)),
            ));
        } else {
            assert(seq_add_count(s, k, v) =~= seq![s[0]] + s.skip(1).insert(i - 1, (k, v)));
            assert(seq![s[0]] + s.skip(1).insert(i - 1, (k, v)) =~= s.insert(i, (k, v)));
        }
    }
}

pub proof fn lemma_seq_add_count_map(s: Seq<(u64, u64)>, k: u64, v: u64)
    requires
        counts_sorted(s),
    ensures
        counts_map_of(seq_add_count(s, k, v)) =~= map_add_count(counts_map_of(s), k, v),
{
    let r = seq_add_count(s, k, v);
    assert forall|q: u64| true implies {
        &&& (index_of_key(r, q) >= 0 <==> (q == k || index_of_key(s, q) >= 0))
        &&& (q == k && index_of_key(r, q) >= 0 ==> r[index_of_key(r, q)].1 == (if index_of_key(
            s,
            q,
        ) >= 0 {
            sat_add(s[index_of_key(s, q)].1, v)
        } else {
            v
        }))
        &&& (q != k && index_of_key(s, q) >= 0 ==> r[index_of_key(r, q)].1 == s[index_of_key(
            s,
            q,
        )].1)
    } by {
        lemma_index_of_key(s, q);
        lemma_index_of_key(r, q);
        lemma_index_of_key_add(s, k, v, q);
    }
    assert(counts_map_of(r) =~= map_add_count(counts_map_of(s), k, v));
}

/// How `index_of_key` behaves across an addition: the added key becomes
/// present, and every other key keeps its associated count.
proof fn lemma_index_of_key_add(s: Seq<(u64, u64)>, k: u64, v: u64, q: u64)
    requires
        counts_sorted(s),
    ensures
        q == k ==> {
            &&& index_of_key(seq_add_count(s, k, v), q) >= 0
            &&& seq_add_count(s, k, v)[index_of_key(seq_add_count(s, k, v), q)].1 == (
            if index_of_key(s, q) >= 0 {
                sat_add(s[index_of_key(s, q)].1, v)
            } else {
                v
            })
        },
        q != k ==> {
            &&& (index_of_key(seq_add_count(s, k, v), q) >= 0 <==> index_of_key(s, q) >= 0)
            &&& (index_of_key(s, q) >= 0 ==> seq_add_count(s, k, v)[index_of_key(
                seq_add_count(s, k, v),
                q,
            )].1 == s[index_of_key(s, q)].1)
        },
    decreases s.len(),
{
    let r = seq_add_count(s, k, v);
    lemma_index_of_key(s, q);
    lemma_index_of_key(r, q);
    if s.len() == 0 {
    } else if k < s[0].0 {
        assert(r == seq![(k, v)] + s);
        assert(r.skip(1) =~= s);
    } else if k == s[0].0 {
        assert(r == seq![(s[0].0, sat_add(s[0].1, v))] + s.skip(1));
        assert(r.skip(1) =~= s.skip(1));
    } else {
        assert(r == seq![s[0]] + seq_add_count(s.skip(1), k, v));
        assert(r.skip(1) =~= seq_add_count(s.skip(1), k, v));
        lemma_index_of_key_add(s.skip(1), k, v, q);
        lemma_index_of_key(s.skip(1), q);
        lemma_index_of_key(seq_add_count(s.skip(1), k, v), q);
    }
}

/// Merging two count mappings: the union of their keys, with counts of shared
/// keys added together.
pub open spec fn merge_counts(a: Map<u64, u64>, b: Map<u64, u64>) -> Map<u64, u64> {
    Map::new(
        |k: u64| a.dom().contains(k) || b.dom().contains(k),
        |k: u64|
            if a.dom().contains(k) && b.dom().contains(k) {
                sat_add(a[k], b[k])
            } else if a.dom().contains(k) {
                a[k]
            } else {
                b[k]
            },
    )
}

/// Folding the entries of `b` into `a`, one addition at a time.
pub open spec fn seq_merge_counts(a: Seq<(u64, u64)>, b: Seq<(u64, u64)>) -> Seq<(u64, u64)>
    decreases b.len(),
{
    if b.len() == 0 {
        a
    } else {
        seq_merge_counts(seq_add_count(a, b[0].0, b[0].1), b.skip(1))
    }
}

pub proof fn lemma_seq_merge_counts_sorted(a: Seq<(u64, u64)>, b: Seq<(u64, u64)>)
    requires
        counts_sorted(a),
    ensures
        counts_sorted(seq_merge_counts(a, b)),
    decreases b.len(),
{
    if b.len() > 0 {
        lemma_seq_add_count_sorted(a, b[0].0, b[0].1);
        lemma_seq_merge_counts_sorted(seq_add_count(a, b[0].0, b[0].1), b.skip(1));
    }
}

pub proof fn lemma_seq_merge_counts_map(a: Seq<(u64, u64)>, b: Seq<(u64, u64)>)
    requires
        counts_sorted(a),
        counts_sorted(b),
    ensures
        counts_map_of(seq_merge_counts(a, b)) =~= merge_counts(counts_map_of(a), counts_map_of(b)),
    decreases b.len(),
{
    if b.len() == 0 {
        assert(counts_map_of(seq_merge_counts(a, b)) =~= merge_counts(
            counts_map_of(a),
            counts_map_of(b),
        ));
    } else {
        let k = b[0].0;
        let v = b[0].1;
        let a1 = seq_add_count(a, k, v);
        lemma_seq_add_count_sorted(a, k, v);
        lemma_seq_add_count_map(a, k, v);
        assert(counts_sorted(b.skip(1)));
        lemma_seq_merge_counts_map(a1, b.skip(1));
        assert forall|q: u64| true implies {
            &&& (merge_counts(counts_map_of(a1), counts_map_of(b.skip(1))).dom().contains(q)
                <==> merge_counts(counts_map_of(a), counts_map_of(b)).dom().contains(q))
            &&& (merge_counts(counts_map_of(a1), counts_map_of(b.skip(1))).dom().contains(q)
                ==> merge_counts(counts_map_of(a1), counts_map_of(b.skip(1)))[q] == merge_counts(
                counts_map_of(a),
                counts_map_of(b),
            )[q])
        } by {
            lemma_index_of_key(b, q);
            lemma_index_of_key(b.skip(1), q);
            lemma_index_of_key(a, q);
            if q == k {
                if index_of_key(b.skip(1), q) >= 0 {
                    let w = index_of_key(b.skip(1), q);
                    assert(b[w + 1].0 == q);
                    assert(false);
                }
                assert(index_of_key(b, q) == 0);
            } else {
                if index_of_key(b, q) >= 0 {
                    let w = index_of_key(b, q);
                    assert(w > 0);
                    assert(b.skip(1)[w - 1] == b[w]);
                    lemma_counts_map_of_contains(b, w);
                    lemma_counts_map_of_contains(b.skip(1), w - 1);
                } else {
                    if index_of_key(b.skip(1), q) >= 0 {
                        let w = index_of_key(b.skip(1), q);
                        assert(b[w + 1].0 == q);
                        assert(false);
                    }
                }
            }
        }
        assert(counts_map_of(seq_merge_counts(a, b)) =~= merge_counts(
            counts_map_of(a),
            counts_map_of(b),
        ));
    }
}

/// Clamping every count to at most one.
pub open spec fn min_one(v: u64) -> u64 {
    if v >= 1 {
        1u64
    } else {
        0u64
    }
}

pub open spec fn seq_truncate_counts(s: Seq<(u64, u64)>) -> Seq<(u64, u64)> {
    s.map_values(|e: (u64, u64)| (e.0, min_one(e.1)))
}

pub open spec fn map_truncate_counts(m: Map<u64, u64>) -> Map<u64, u64> {
    Map::new(|k: u64| m.dom().contains(k), |k: u64| min_one(m[k]))
}

/// The greatest count in the list, or zero when it is empty.
pub open spec fn max_count(s: Seq<(u64, u64)>) -> u64
    decreases s.len(),
{
    if s.len() == 0 {
        0u64
    } else {
        let rest = max_count(s.drop_last());
        if s.last().1 > rest {
            s.last().1
        } else {
            rest
        }
    }
}

/// The first key of a sorted list, or zero when it is empty.
pub open spec fn first_key(s: Seq<(u64, u64)>) -> u64 {
    if s.len() == 0 {
        0u64
    } else {
        s[0].0
    }
}

/// How many entries carry a positive count.
pub open spec fn count_hit(s: Seq<(u64, u64)>) -> nat
    decreases s.len(),
{
    if s.len() == 0 {
        0
    } else {
        count_hit(s.drop_last()) + (if s.last().1 > 0 {
            1nat
        } else {
            0nat
        })
    }
}

/// Coverage of one function: line number to execution count. The same
/// structure also tallies executed statement indices to hit counts.
pub struct FunctionCoverage {
    pub entries: Vec<(u64, u64)>,
}

/// Hit counts of executed statement indices, tallied from a deduplicated trace.
pub type ExecutedStatementCount = FunctionCoverage;

impl View for FunctionCoverage {
    type V = Map<u64, u64>;

    open spec fn view(&self) -> Map<u64, u64> {
        counts_map_of(self.entries@)
    }
}

impl FunctionCoverage {
    /// The association list is sorted; every lookup is then unambiguous.
    pub open spec fn wf(&self) -> bool {
        counts_sorted(self.entries@)
    }

    pub fn new() -> (r: FunctionCoverage)
        ensures
            r.wf(),
            r.entries@ =~= Seq::<(u64, u64)>::empty(),
            r@ =~= Map::<u64, u64>::empty(),
    {
        let r = FunctionCoverage { entries: Vec::new() };
        proof {
            assert(r@ =~= Map::<u64, u64>::empty());
        }
        r
    }

    /// The count recorded for `k`, if the key is present.
    pub fn get(&self, k: u64) -> (r: Option<u64>)
        requires
            self.wf(),
        ensures
            r == if self@.dom().contains(k) {
                Some(self@[k])
            } else {
                None::<u64>
            },
    {
        let n = self.entries.len();
        let mut i: usize = 0;
        while i < n
            invariant
                i <= n,
                n == self.entries@.len(),
                self.wf(),
                forall|j: int| 0 <= j < i ==> self.entries@[j].0 != k,
            decreases n - i,
        {
            let (key, value) = self.entries[i];
            if key == k {
                proof {
                    lemma_counts_map_of_contains(self.entries@, i as int);
                }
                return Some(value);
            }
            i = i + 1;
        }
        proof {
            lemma_index_of_key(self.entries@, k);
            if index_of_key(self.entries@, k) >= 0 {
                assert(false);
            }
        }
        None
    }

    /// Add `v` to the count for `k`, registering the key if it is new.
    /// An addition of zero still registers the key with count zero.
    pub fn add(&mut self, k: u64, v: u64)
        requires
            old(self).wf(),
        ensures
            final(self).wf(),
            final(self).entries@ == seq_add_count(old(self).entries@, k, v),
            final(self)@ =~= map_add_count(old(self)@, k, v),
    {
        let ghost s0 = self.entries@;
        let n = self.entries.len();
        let mut i: usize = 0;
        loop
            invariant
                i <= n,
                n == self.entries@.len(),
                self.entries@ == s0,
                counts_sorted(s0),
                forall|j: int| 0 <= j < i ==> s0[j].0 < k,
            ensures
                i <= n,
                forall|j: int| 0 <= j < i ==> s0[j].0 < k,
                i < n ==> s0[i as int].0 >= k,
            decreases n - i,
        {
            if i >= n {
                break ;
            }
            let (key, _) = self.entries[i];
            if key >= k {
                break ;
            }
            i = i + 1;
        }
        proof {
            lemma_seq_add_count_at(s0, k, v, i as int);
        }
        if i < n {
            let (key, value) = self.entries[i];
            if key == k {
                let merged = saturating_add_u64(value, v);
                self.entries.set(i, (key, merged));
                proof {
                    assert(self.entries@ =~= seq_add_count(s0, k, v));
                    lemma_seq_add_count_sorted(s0, k, v);
                    lemma_seq_add_count_map(s0, k, v);
                }
                return ;
            }
        }
        self.entries.insert(i, (k, v));
        proof {
            assert(self.entries@ =~= seq_add_count(s0, k, v));
            lemma_seq_add_count_sorted(s0, k, v);
            lemma_seq_add_count_map(s0, k, v);
        }
    }

    /// Fold every entry of `other` into this mapping.
    pub fn merge(&mut self, other: &FunctionCoverage)
        requires
            old(self).wf(),
            other.wf(),
        ensures
            final(self).wf(),
            final(self).entries@ == seq_merge_counts(old(self).entries@, other.entries@),
            final(self)@ =~= merge_counts(old(self)@, other@),
    {
        let ghost a0 = self.entries@;
        let ghost b = other.entries@;
        proof {
            assert(b.skip(0int) =~= b);
        }
        let n = other.entries.len();
        let mut i: usize = 0;
        while i < n
            invariant
                i <= n,
                n == b.len(),
                other.entries@ == b,
                self.wf(),
                counts_sorted(b),
                seq_merge_counts(a0, b) == seq_merge_counts(self.entries@, b.skip(i as int)),
            decreases n - i,
        {
            let (k, v) = other.entries[i];
            proof {
                assert(b.skip(i as int)[0] == b[i as int]);
                assert(b.skip(i as int).skip(1) =~= b.skip(i + 1));
            }
            self.add(k, v);
            i = i + 1;
        }
        proof {
            assert(b.skip(i as int) =~= Seq::<(u64, u64)>::empty());
            lemma_seq_merge_counts_map(a0, b);
        }
    }

    /// Clamp every count to at most one.
    pub fn truncate_to_one(&mut self)
        requires
            old(self).wf(),
        ensures
            final(self).wf(),
            final(self).entries@ == seq_truncate_counts(old(self).entries@),
            final(self)@ =~= map_truncate_counts(old(self)@),
    {
        let ghost s0 = self.entries@;
        let n = self.entries.len();
        let mut i: usize = 0;
        while i < n
            invariant
                i <= n,
                n == self.entries@.len(),
                self.entries@.len() == s0.len(),
                forall|j: int| i <= j < s0.len() ==> self.entries@[j] == s0[j],
                forall|j: int| 0 <= j < i ==> self.entries@[j] == (s0[j].0, min_one(s0[j].1)),
            decreases n - i,
        {
            let (k, v) = self.entries[i];
            let clamped: u64 = if v >= 1 {
                1
            } else {
                0
            };
            self.entries.set(i, (k, clamped));
            i = i + 1;
        }
        proof {
            assert forall|j: int| 0 <= j < s0.len() implies seq_truncate_counts(s0)[j] == (
            s0[j].0,
            min_one(s0[j].1),
            ) by {}
            assert(self.entries@ =~= seq_truncate_counts(s0));
            lemma_truncate_counts(s0);
        }
    }

    /// True when any line of the function was executed.
    pub fn was_executed(&self) -> (r: bool)
        ensures
            r == exists|i: int| 0 <= i < self.entries@.len() && #[trigger] self.entries@[i].1 > 0,
    {
        let n = self.entries.len();
        let mut i: usize = 0;
        while i < n
            invariant
                i <= n,
                n == self.entries@.len(),
                forall|j: int| 0 <= j < i ==> self.entries@[j].1 == 0,
            decreases n - i,
        {
            let (_, v) = self.entries[i];
            if v > 0 {
                return true;
            }
            i = i + 1;
        }
        false
    }

    /// The greatest count among the lines, or zero for an empty mapping.
    pub fn max_execution_count(&self) -> (r: u64)
        ensures
            r == max_count(self.entries@),
    {
        let n = self.entries.len();
        let mut best: u64 = 0;
        let mut i: usize = 0;
        proof {
            assert(self.entries@.take(0int) =~= Seq::<(u64, u64)>::empty());
        }
        while i < n
            invariant
                i <= n,
                n == self.entries@.len(),
                best == max_count(self.entries@.take(i as int)),
            decreases n - i,
        {
            let (_, v) = self.entries[i];
            proof {
                assert(self.entries@.take(i + 1).drop_last() =~= self.entries@.take(i as int));
                assert(self.entries@.take(i + 1).last() == self.entries@[i as int]);
            }
            if v > best {
                best = v;
            }
            i = i + 1;
        }
        proof {
            assert(self.entries@.take(i as int) =~= self.entries@);
        }
        best
    }

    /// The first line of the function: the least registered line number, or
    /// zero for an empty mapping.
    pub fn starts_at(&self) -> (r: u64)
        ensures
            r == first_key(self.entries@),
    {
        if self.entries.len() == 0 {
            0
        } else {
            let (k, _) = self.entries[0];
            k
        }
    }

    /// The number of lines with a positive count.
    pub fn executed_lines(&self) -> (r: usize)
        ensures
            r == count_hit(self.entries@),
    {
        let n = self.entries.len();
        let mut hit: usize = 0;
        let mut i: usize = 0;
        proof {
            assert(self.entries@.take(0int) =~= Seq::<(u64, u64)>::empty());
        }
        while i < n
            invariant
                i <= n,
                n == self.entries@.len(),
                hit == count_hit(self.entries@.take(i as int)),
                hit <= i,
            decreases n - i,
        {
            let (_, v) = self.entries[i];
            proof {
                assert(self.entries@.take(i + 1).drop_last() =~= self.entries@.take(i as int));
                assert(self.entries@.take(i + 1).last() == self.entries@[i as int]);
            }
            if v > 0 {
                hit = hit + 1;
            }
            i = i + 1;
        }
        proof {
            assert(self.entries@.take(i as int) =~= self.entries@);
        }
        hit
    }

    /// A copy with the same entries.
    pub fn duplicate(&self) -> (r: FunctionCoverage)
        ensures
            r.entries@ == self.entries@,
            r@ == self@,
    {
        let n = self.entries.len();
        let mut entries: Vec<(u64, u64)> = Vec::new();
        let mut i: usize = 0;
        while i < n
            invariant
                i <= n,
                n == self.entries@.len(),
                entries@ =~= self.entries@.take(i as int),
            decreases n - i,
        {
            let e = self.entries[i];
            entries.push(e);
            proof {
                assert(entries@ =~= self.entries@.take(i + 1));
            }
            i = i + 1;
        }
        let r = FunctionCoverage { entries };
        proof {
            assert(self.entries@.take(n as int) =~= self.entries@);
            assert(r.entries@ =~= self.entries@);
        }
        r
    }
}

/// Clamping preserves sortedness of a count list.
pub proof fn lemma_seq_truncate_counts_wf(s: Seq<(u64, u64)>)
    ensures
        counts_sorted(s) ==> counts_sorted(seq_truncate_counts(s)),
{
    lemma_truncate_counts(s);
}

/// Clamping the list clamps the denoted mapping.
pub proof fn lemma_seq_truncate_counts_map(s: Seq<(u64, u64)>)
    requires
        counts_sorted(s),
    ensures
        counts_map_of(seq_truncate_counts(s)) =~= map_truncate_counts(counts_map_of(s)),
{
    lemma_truncate_counts(s);
}

proof fn lemma_truncate_counts(s: Seq<(u64, u64)>)
    ensures
        counts_sorted(s) ==> counts_sorted(seq_truncate_counts(s)),
        counts_sorted(s) ==> counts_map_of(seq_truncate_counts(s)) =~= map_truncate_counts(
            counts_map_of(s),
        ),
{
    if counts_sorted(s) {
        let t = seq_truncate_counts(s);
        assert forall|q: u64| true implies {
            &&& (index_of_key(t, q) >= 0 <==> index_of_key(s, q) >= 0)
            &&& (index_of_key(s, q) >= 0 ==> {
                &&& 0 <= index_of_key(s, q) < s.len()
                &&& t[index_of_key(t, q)].1 == min_one(s[index_of_key(s, q)].1)
            })
        } by {
            lemma_index_of_key(s, q);
            lemma_index_of_key(t, q);
            lemma_index_of_key_truncate(s, q);
        }
        assert(counts_map_of(t) =~= map_truncate_counts(counts_map_of(s)));
    }
}

proof fn lemma_index_of_key_truncate(s: Seq<(u64, u64)>, q: u64)
    ensures
        index_of_key(seq_truncate_counts(s), q) == index_of_key(s, q),
    decreases s.len(),
{
    let t = seq_truncate_counts(s);
    if s.len() > 0 {
        assert(t[0] == (s[0].0, min_one(s[0].1)));
        if s[0].0 != q {
            lemma_index_of_key_truncate(s.skip(1), q);
            assert(t.skip(1) =~= seq_truncate_counts(s.skip(1)));
        }
    }
}

/// Merging count mappings is commutative.
pub proof fn lemma_merge_counts_commutative(a: Map<u64, u64>, b: Map<u64, u64>)
    ensures
        merge_counts(a, b) =~= merge_counts(b, a),
{
}

/// Merging count mappings is associative.
pub proof fn lemma_merge_counts_associative(a: Map<u64, u64>, b: Map<u64, u64>, c: Map<u64, u64>)
    ensures
        merge_counts(merge_counts(a, b), c) =~= merge_counts(a, merge_counts(b, c)),
{
}

} // verus!
