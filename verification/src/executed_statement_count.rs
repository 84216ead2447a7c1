//! From program counters to statement hit counts: each recorded address is
//! resolved through the backend debug map to the statement that produced it,
//! consecutive hits with the same source origin are collapsed into one
//! occurrence, and the remaining occurrences are tallied per statement index.
use crate::function_coverage::seq_add_count;
use crate::function_coverage::ExecutedStatementCount;
use crate::function_coverage::FunctionCoverage;
use crate::loading::CasmDebugInfo;
use crate::loading::CasmLevelInfo;
use crate::loading::CasmLevelInfoView;
use crate::statement_information::info_entries_view;
use crate::statement_information::info_lookup;
use crate::statement_information::same_origin;
use crate::statement_information::StatementInformationMap;
use crate::statement_information::StatementInformationView;
use vstd::prelude::*;

verus! {

/// The number of offsets not above `off`.
pub open spec fn count_le(offsets: Seq<u64>, off: u64) -> int
    decreases offsets.len(),
{
    if offsets.len() == 0 {
        0
    } else {
        count_le(offsets.drop_last(), off) + if offsets.last() <= off {
            1int
        } else {
            0int
        }
    }
}

proof fn lemma_count_le_bounds(offsets: Seq<u64>, off: u64)
    ensures
        0 <= count_le(offsets, off) <= offsets.len(),
    decreases offsets.len(),
{
    if offsets.len() > 0 {
        lemma_count_le_bounds(offsets.drop_last(), off);
    }
}

/// In a sorted table the offsets not above `off` form a prefix, so their
/// count is the partition point.
proof fn lemma_count_le_partition(offsets: Seq<u64>, off: u64)
    requires
        forall|i: int, j: int| 0 <= i < j < offsets.len() ==> offsets[i] <= offsets[j],
    ensures
        forall|i: int| 0 <= i < count_le(offsets, off) ==> offsets[i] <= off,
        forall|i: int| count_le(offsets, off) <= i < offsets.len() ==> offsets[i] > off,
    decreases offsets.len(),
{
    lemma_count_le_bounds(offsets, off);
    if offsets.len() > 0 {
        let head = offsets.drop_last();
        lemma_count_le_bounds(head, off);
        lemma_count_le_partition(head, off);
        if offsets.last() <= off {
            assert forall|i: int| 0 <= i < count_le(offsets, off) implies offsets[i] <= off by {
                if i < offsets.len() - 1 {
                    if i >= count_le(head, off) {
                        assert(head[i] > off);
                        assert(offsets[i] <= offsets[offsets.len() - 1]);
                        assert(false);
                    }
                    assert(head[i] == offsets[i]);
                }
            }
        } else {
            assert forall|i: int|
                count_le(offsets, off) <= i < offsets.len() implies offsets[i] > off by {
                if i < offsets.len() - 1 {
                    assert(head[i] == offsets[i]);
                }
            }
            assert forall|i: int| 0 <= i < count_le(offsets, off) implies offsets[i] <= off by {
                assert(head[i] == offsets[i]);
            }
        }
    }
}

/// The partition point of a sorted offset table: the number of entries not
/// above `off`, found by bisection.
fn partition_point(offsets: &Vec<u64>, off: u64) -> (r: usize)
    requires
        forall|i: int, j: int| 0 <= i < j < offsets@.len() ==> offsets@[i] <= offsets@[j],
    ensures
        r == count_le(offsets@, off),
{
    proof {
        lemma_count_le_bounds(offsets@, off);
        lemma_count_le_partition(offsets@, off);
    }
    let mut lo: usize = 0;
    let mut hi: usize = offsets.len();
    while lo < hi
        invariant
            lo <= hi <= offsets@.len(),
            forall|i: int, j: int| 0 <= i < j < offsets@.len() ==> offsets@[i] <= offsets@[j],
            forall|i: int| 0 <= i < lo ==> offsets@[i] <= off,
            forall|i: int| hi <= i < offsets@.len() ==> offsets@[i] > off,
        decreases hi - lo,
    {
        let mid = lo + (hi - lo) / 2;
        if offsets[mid] <= off {
            proof {
                assert forall|i: int| 0 <= i < mid + 1 implies offsets@[i] <= off by {
                    if i < mid {
                        assert(offsets@[i] <= offsets@[mid as int]);
                    }
                }
            }
            lo = mid + 1;
        } else {
            proof {
                assert forall|i: int|
                    mid <= i < offsets@.len() implies offsets@[i] > off by {
                    if i > mid {
                        assert(offsets@[mid as int] <= offsets@[i]);
                    }
                }
            }
            hi = mid;
        }
    }
    proof {
        let c = count_le(offsets@, off);
        if c < lo {
            assert(offsets@[c] <= off);
            assert(offsets@[c] > off);
        }
        if c > lo {
            assert(offsets@[lo as int] <= off);
            assert(offsets@[lo as int] > off);
        }
    }
    lo
}

/// The first program counter that belongs to the program body. A trace
/// captured with a call header enters the body one past the last recorded
/// address; otherwise the body starts at the fixed base address one.
pub open spec fn real_minimal_pc(casm: CasmLevelInfoView) -> u64 {
    if casm.run_with_call_header && casm.vm_trace.len() > 0 {
        (casm.vm_trace.last() + 1) as u64
    } else {
        1u64
    }
}

/// The statement that produced one program counter: addresses inside the call
/// header or past the end of the program body resolve to nothing; every other
/// address resolves to the last statement whose code starts at or before it.
pub open spec fn resolve_pc(
    offsets: Seq<u64>,
    bytecode_length: u64,
    min_pc: u64,
    pc: u64,
) -> Option<u64> {
    if pc < min_pc {
        None
    } else if pc - min_pc >= bytecode_length {
        None
    } else {
        let p = count_le(offsets, (pc - min_pc) as u64);
        Some(
            if p == 0 {
                0u64
            } else {
                (p - 1) as u64
            },
        )
    }
}

/// The resolution of a whole trace, in trace order; a debug map with no
/// statements resolves nothing.
pub open spec fn resolve_trace(
    offsets: Seq<u64>,
    bytecode_length: u64,
    casm: CasmLevelInfoView,
) -> Seq<Option<u64>> {
    if offsets.len() == 0 {
        Seq::empty()
    } else {
        Seq::new(
            casm.vm_trace.len(),
            |i: int| resolve_pc(offsets, bytecode_length, real_minimal_pc(casm), casm.vm_trace[i]),
        )
    }
}

/// Map the program counters of one trace to statement indices.
pub fn map_pcs_to_sierra_statement_ids(
    casm_debug_info: &CasmDebugInfo,
    casm_level_info: &CasmLevelInfo,
) -> (r: Vec<Option<u64>>)
    requires
        casm_debug_info.wf(),
        forall|i: int|
            0 <= i < casm_level_info.vm_trace@.len() ==> casm_level_info.vm_trace@[i] < u64::MAX,
    ensures
        r@ =~= resolve_trace(
            casm_debug_info.statement_start_offsets@,
            casm_debug_info.bytecode_length,
            casm_level_info@,
        ),
{
    let ghost offsets = casm_debug_info.statement_start_offsets@;
    let ghost blen = casm_debug_info.bytecode_length;
    let mut out: Vec<Option<u64>> = Vec::new();
    if casm_debug_info.statement_start_offsets.len() == 0 {
        return out;
    }
    let min_pc: u64 = if casm_level_info.run_with_call_header && casm_level_info.vm_trace.len()
        > 0 {
        casm_level_info.vm_trace[casm_level_info.vm_trace.len() - 1] + 1
    } else {
        1
    };
    proof {
        assert(min_pc == real_minimal_pc(casm_level_info@));
    }
    let n = casm_level_info.vm_trace.len();
    let mut i: usize = 0;
    while i < n
        invariant
            i <= n,
            n == casm_level_info.vm_trace@.len(),
            offsets == casm_debug_info.statement_start_offsets@,
            blen == casm_debug_info.bytecode_length,
            offsets.len() > 0,
            casm_debug_info.wf(),
            min_pc == real_minimal_pc(casm_level_info@),
            out@.len() == i,
            forall|j: int|
                0 <= j < i ==> out@[j] == resolve_pc(
                    offsets,
                    blen,
                    min_pc,
                    casm_level_info.vm_trace@[j],
                ),
        decreases n - i,
    {
        let pc = casm_level_info.vm_trace[i];
        if pc < min_pc {
            out.push(None);
        } else {
            let off = pc - min_pc;
            if off >= casm_debug_info.bytecode_length {
                out.push(None);
            } else {
                let p = partition_point(&casm_debug_info.statement_start_offsets, off);
                let idx: u64 = if p == 0 {
                    0
                } else {
                    (p - 1) as u64
                };
                proof {
                    lemma_count_le_bounds(offsets, off);
                }
                out.push(Some(idx));
            }
        }
        i = i + 1;
    }
    out
}

/// Whether two consecutive resolved indices point to different statements.
/// Indices that lack statement information never count as the same: untracked
/// instructions must not be collapsed into one occurrence.
pub open spec fn spec_points_to_different_statement(
    infos: Seq<(u64, StatementInformationView)>,
    last_idx: Option<u64>,
    current_idx: u64,
) -> bool {
    match last_idx {
        None => true,
        Some(last) => match (info_lookup(infos, last), info_lookup(infos, current_idx)) {
            (Some(a), Some(b)) => !same_origin(a, b),
            _ => true,
        },
    }
}

/// Whether the current index points to a different statement than the last
/// kept one.
pub fn points_to_different_statement(
    statement_information_map: &StatementInformationMap,
    last_idx: Option<&u64>,
    current_idx: u64,
) -> (r: bool)
    ensures
        r == spec_points_to_different_statement(
            info_entries_view(statement_information_map.entries@),
            match last_idx {
                Some(v) => Some(*v),
                None => None,
            },
            current_idx,
        ),
{
    match last_idx {
        None => true,
        Some(last) => {
            let last_info = statement_information_map.get(*last);
            let current_info = statement_information_map.get(current_idx);
            match (last_info, current_info) {
                (Some(a), Some(b)) => !a.has_same_origin(b),
                _ => true,
            }
        },
    }
}

/// The deduplicated occurrences of a resolved trace: a hit is kept only when
/// it points to a different statement than the hit kept just before it.
pub open spec fn dedup_ids(
    ids: Seq<u64>,
    infos: Seq<(u64, StatementInformationView)>,
) -> Seq<u64>
    decreases ids.len(),
{
    if ids.len() == 0 {
        Seq::empty()
    } else {
        let rest = dedup_ids(ids.drop_last(), infos);
        let last_kept = if rest.len() == 0 {
            None
        } else {
            Some(rest.last())
        };
        if spec_points_to_different_statement(infos, last_kept, ids.last()) {
            rest.push(ids.last())
        } else {
            rest
        }
    }
}

/// The resolved statement indices of a trace, with unresolved addresses
/// dropped.
pub open spec fn somes(s: Seq<Option<u64>>) -> Seq<u64>
    decreases s.len(),
{
    if s.len() == 0 {
        Seq::empty()
    } else {
        let rest = somes(s.drop_last());
        match s.last() {
            Some(v) => rest.push(v),
            None => rest,
        }
    }
}

/// All resolved indices of all traces of one artifact, in order.
pub open spec fn all_resolved_ids(
    offsets: Seq<u64>,
    bytecode_length: u64,
    casm_level_infos: Seq<CasmLevelInfoView>,
) -> Seq<u64>
    decreases casm_level_infos.len(),
{
    if casm_level_infos.len() == 0 {
        Seq::empty()
    } else {
        all_resolved_ids(offsets, bytecode_length, casm_level_infos.drop_last()) + somes(
            resolve_trace(offsets, bytecode_length, casm_level_infos.last()),
        )
    }
}

/// The tally of a sequence of occurrences: how often each index occurs.
pub open spec fn tally(ids: Seq<u64>) -> Seq<(u64, u64)>
    decreases ids.len(),
{
    if ids.len() == 0 {
        Seq::empty()
    } else {
        seq_add_count(tally(ids.drop_last()), ids.last(), 1)
    }
}

/// How often an index occurs in a sequence of kept occurrences.
pub open spec fn occurrences(ids: Seq<u64>, k: u64) -> nat
    decreases ids.len(),
{
    if ids.len() == 0 {
        0
    } else {
        occurrences(ids.drop_last(), k) + (if ids.last() == k {
            1nat
        } else {
            0nat
        })
    }
}

/// The tally is exactly the occurrence count: an index is tallied when it
/// occurs, with the number of times it occurs.
pub proof fn lemma_tally_counts_occurrences(ids: Seq<u64>)
    requires
        ids.len() <= u64::MAX,
    ensures
        crate::function_coverage::counts_sorted(tally(ids)),
        forall|k: u64|
            #![trigger occurrences(ids, k)]
            {
                &&& (crate::function_coverage::counts_map_of(tally(ids)).dom().contains(k)
                    <==> occurrences(ids, k) > 0)
                &&& (occurrences(ids, k) > 0 ==> crate::function_coverage::counts_map_of(
                    tally(ids),
                )[k] == occurrences(ids, k))
            },
    decreases ids.len(),
{
    if ids.len() > 0 {
        let head = ids.drop_last();
        let last = ids.last();
        lemma_tally_counts_occurrences(head);
        crate::function_coverage::lemma_seq_add_count_sorted(tally(head), last, 1);
        crate::function_coverage::lemma_seq_add_count_map(tally(head), last, 1);
        assert forall|k: u64|
            #![trigger occurrences(ids, k)]
            {
                &&& (crate::function_coverage::counts_map_of(tally(ids)).dom().contains(k)
                    <==> occurrences(ids, k) > 0)
                &&& (occurrences(ids, k) > 0 ==> crate::function_coverage::counts_map_of(
                    tally(ids),
                )[k] == occurrences(ids, k))
            } by {
            assert(occurrences(head, k) <= head.len()) by {
                lemma_occurrences_bounded(head, k);
            }
            if k == last {
                if occurrences(head, k) > 0 {
                    assert(crate::function_coverage::counts_map_of(tally(head))[k]
                        == occurrences(head, k));
                    assert(crate::text::sat_add(occurrences(head, k) as u64, 1) == occurrences(
                        ids,
                        k,
                    ));
                }
            }
        }
    }
}

/// An index cannot occur more often than the sequence is long.
proof fn lemma_occurrences_bounded(ids: Seq<u64>, k: u64)
    ensures
        occurrences(ids, k) <= ids.len(),
    decreases ids.len(),
{
    if ids.len() > 0 {
        lemma_occurrences_bounded(ids.drop_last(), k);
    }
}

/// Deduplicate the executed statement indices that are neighboring. One
/// source line can compile to many consecutive low-level instructions and
/// must count as one execution, not many.
fn deduplicate(
    ids: Vec<u64>,
    statement_information_map: &StatementInformationMap,
) -> (r: Vec<u64>)
    ensures
        r@ =~= dedup_ids(ids@, info_entries_view(statement_information_map.entries@)),
{
    let ghost infos = info_entries_view(statement_information_map.entries@);
    let n = ids.len();
    let mut kept: Vec<u64> = Vec::new();
    let mut i: usize = 0;
    proof {
        assert(ids@.take(0int) =~= Seq::<u64>::empty());
    }
    while i < n
        invariant
            i <= n,
            n == ids@.len(),
            infos == info_entries_view(statement_information_map.entries@),
            kept@ =~= dedup_ids(ids@.take(i as int), infos),
        decreases n - i,
    {
        proof {
            assert(ids@.take(i + 1).drop_last() =~= ids@.take(i as int));
            assert(ids@.take(i + 1).last() == ids@[i as int]);
        }
        let current = ids[i];
        let keep = if kept.len() == 0 {
            points_to_different_statement(statement_information_map, None, current)
        } else {
            let last = kept.len() - 1;
            points_to_different_statement(statement_information_map, Some(&kept[last]), current)
        };
        if keep {
            kept.push(current);
        }
        i = i + 1;
    }
    proof {
        assert(ids@.take(n as int) =~= ids@);
    }
    kept
}

/// Count how often each index occurs in the deduplicated sequence.
fn counts(ids: &Vec<u64>) -> (r: ExecutedStatementCount)
    ensures
        r.wf(),
        r.entries@ =~= tally(ids@),
{
    let n = ids.len();
    let mut out = FunctionCoverage::new();
    let mut i: usize = 0;
    proof {
        assert(ids@.take(0int) =~= Seq::<u64>::empty());
    }
    while i < n
        invariant
            i <= n,
            n == ids@.len(),
            out.wf(),
            out.entries@ =~= tally(ids@.take(i as int)),
        decreases n - i,
    {
        proof {
            assert(ids@.take(i + 1).drop_last() =~= ids@.take(i as int));
            assert(ids@.take(i + 1).last() == ids@[i as int]);
        }
        out.add(ids[i], 1);
        i = i + 1;
    }
    proof {
        assert(ids@.take(n as int) =~= ids@);
    }
    out
}

/// Build the executed statement count of one artifact: resolve every trace
/// through the backend debug map, drop unresolved addresses, collapse
/// neighboring hits of the same origin, and tally what remains.
pub fn build(
    casm_level_infos: &Vec<CasmLevelInfo>,
    casm_debug_info: &CasmDebugInfo,
    statement_information_map: &StatementInformationMap,
) -> (r: ExecutedStatementCount)
    requires
        casm_debug_info.wf(),
        forall|t: int, i: int|
            0 <= t < casm_level_infos@.len() && 0 <= i
                < (#[trigger] casm_level_infos@[t]).vm_trace@.len()
                ==> #[trigger] casm_level_infos@[t].vm_trace@[i] < u64::MAX,
    ensures
        r.wf(),
        r.entries@ =~= tally(
            dedup_ids(
                all_resolved_ids(
                    casm_debug_info.statement_start_offsets@,
                    casm_debug_info.bytecode_length,
                    casm_level_infos@.map_values(|c: CasmLevelInfo| c@),
                ),
                info_entries_view(statement_information_map.entries@),
            ),
        ),
{
    let ghost offsets = casm_debug_info.statement_start_offsets@;
    let ghost blen = casm_debug_info.bytecode_length;
    let ghost traces = casm_level_infos@.map_values(|c: CasmLevelInfo| c@);
    let n = casm_level_infos.len();
    let mut executed: Vec<u64> = Vec::new();
    let mut t: usize = 0;
    proof {
        assert(traces.take(0int) =~= Seq::<CasmLevelInfoView>::empty());
    }
    while t < n
        invariant
            t <= n,
            n == casm_level_infos@.len(),
            traces == casm_level_infos@.map_values(|c: CasmLevelInfo| c@),
            offsets == casm_debug_info.statement_start_offsets@,
            blen == casm_debug_info.bytecode_length,
            casm_debug_info.wf(),
            forall|w: int, i: int|
                0 <= w < casm_level_infos@.len() && 0 <= i
                    < (#[trigger] casm_level_infos@[w]).vm_trace@.len()
                    ==> #[trigger] casm_level_infos@[w].vm_trace@[i] < u64::MAX,
            executed@ =~= all_resolved_ids(offsets, blen, traces.take(t as int)),
        decreases n - t,
    {
        proof {
            assert(traces.take(t + 1).drop_last() =~= traces.take(t as int));
            assert(traces.take(t + 1).last() == traces[t as int]);
            assert(traces[t as int] == casm_level_infos@[t as int]@);
        }
        let resolved = map_pcs_to_sierra_statement_ids(
            casm_debug_info,
            &casm_level_infos[t],
        );
        push_somes(&mut executed, &resolved);
        t = t + 1;
    }
    proof {
        assert(traces.take(n as int) =~= traces);
    }
    let deduplicated = deduplicate(executed, statement_information_map);
    counts(&deduplicated)
}

/// Append the resolved indices of one trace, dropping unresolved addresses.
fn push_somes(acc: &mut Vec<u64>, resolved: &Vec<Option<u64>>)
    ensures
        final(acc)@ =~= old(acc)@ + somes(resolved@),
{
    let n = resolved.len();
    let mut i: usize = 0;
    proof {
        assert(resolved@.take(0int) =~= Seq::<Option<u64>>::empty());
        assert(old(acc)@ + somes(resolved@.take(0int)) =~= old(acc)@);
    }
    while i < n
        invariant
            i <= n,
            n == resolved@.len(),
            acc@ =~= old(acc)@ + somes(resolved@.take(i as int)),
        decreases n - i,
    {
        proof {
            assert(resolved@.take(i + 1).drop_last() =~= resolved@.take(i as int));
            assert(resolved@.take(i + 1).last() == resolved@[i as int]);
        }
        match resolved[i] {
            Some(idx) => {
                acc.push(idx);
            },
            None => {},
        }
        i = i + 1;
    }
    proof {
        assert(resolved@.take(n as int) =~= resolved@);
    }
}

} // verus!
