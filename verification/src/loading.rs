//! The data that one run works on, as plain values: recorded execution
//! traces, the program artifact's debug metadata, and the debug map that the
//! backend compiler produces for the artifact. Reading and deserializing the
//! files is the caller's concern; compiling the program body to its low-level
//! form is done by the backend compiler behind trusted declarations.
use crate::annotations::CoverageAnnotations;
use crate::annotations::ProfilerAnnotations;
use crate::libfuncs::LibfuncDeclaration;
use crate::libfuncs::SierraStatement;
use crate::text::str_eq;
use cairo_lang_sierra_to_casm::compiler::SierraToCasmConfig;
use cairo_lang_sierra_to_casm::metadata::calc_metadata;
use cairo_lang_sierra_to_casm::metadata::MetadataComputationConfig;
use cairo_lang_sierra_type_size::ProgramRegistryInfo;
use vstd::prelude::*;

verus! {

#[verifier::external_type_specification]
#[verifier::external_body]
pub struct ExProgram(cairo_lang_sierra::program::Program);

#[verifier::external_type_specification]
#[verifier::external_body]
pub struct ExCairoProgramDebugInfo(cairo_lang_sierra_to_casm::compiler::CairoProgramDebugInfo);

/// One recorded low-level execution: whether the program ran wrapped in a
/// call header, and the program counters visited, in order.
pub struct CasmLevelInfo {
    pub run_with_call_header: bool,
    pub vm_trace: Vec<u64>,
}

pub ghost struct CasmLevelInfoView {
    pub run_with_call_header: bool,
    pub vm_trace: Seq<u64>,
}

impl View for CasmLevelInfo {
    type V = CasmLevelInfoView;

    open spec fn view(&self) -> CasmLevelInfoView {
        CasmLevelInfoView { run_with_call_header: self.run_with_call_header, vm_trace: self.vm_trace@ }
    }
}

/// One execution of one program artifact: the artifact the trace belongs to,
/// and the low-level trace itself.
pub struct CairoExecutionInfo {
    pub source_sierra_path: String,
    pub casm_level_info: CasmLevelInfo,
}

pub ghost struct CairoExecutionInfoView {
    pub source_sierra_path: Seq<char>,
    pub casm_level_info: CasmLevelInfoView,
}

impl View for CairoExecutionInfo {
    type V = CairoExecutionInfoView;

    open spec fn view(&self) -> CairoExecutionInfoView {
        CairoExecutionInfoView {
            source_sierra_path: self.source_sierra_path@,
            casm_level_info: self.casm_level_info@,
        }
    }
}

/// One node of a recorded call trace: the node's own execution, if it carries
/// one, and the nested entry-point calls.
pub struct CallTrace {
    pub cairo_execution_info: Option<CairoExecutionInfo>,
    pub nested_calls: Vec<CallTrace>,
}

/// The executions that a call trace carries, its own first, then those of the
/// nested calls, left to right.
pub open spec fn collect_infos(t: CallTrace) -> Seq<CairoExecutionInfoView>
    decreases t,
{
    let own = match t.cairo_execution_info {
        Some(e) => seq![e@],
        None => Seq::<CairoExecutionInfoView>::empty(),
    };
    own + collect_nested(t.nested_calls@, 0)
}

/// The executions of the nodes from position `i` on.
pub open spec fn collect_nested(ts: Seq<CallTrace>, i: int) -> Seq<CairoExecutionInfoView>
    decreases ts, ts.len() - i,
{
    if i < 0 || i >= ts.len() {
        Seq::empty()
    } else {
        collect_infos(ts[i]) + collect_nested(ts, i + 1)
    }
}

/// Gather the executions of a call trace, the node's own before its nested
/// calls'.
pub fn load_cairo_execution_infos(trace: &CallTrace, acc: &mut Vec<CairoExecutionInfo>)
    ensures
        final(acc)@.len() == old(acc)@.len() + collect_infos(*trace).len(),
        forall|j: int| 0 <= j < old(acc)@.len() ==> final(acc)@[j] == old(acc)@[j],
        forall|j: int|
            0 <= j < collect_infos(*trace).len() ==> #[trigger] final(acc)@[old(acc)@.len() + j]@
                == collect_infos(*trace)[j],
    decreases *trace,
{
    let ghost t = *trace;
    match &trace.cairo_execution_info {
        Some(info) => {
            let copy = CairoExecutionInfo {
                source_sierra_path: info.source_sierra_path.clone(),
                casm_level_info: CasmLevelInfo {
                    run_with_call_header: info.casm_level_info.run_with_call_header,
                    vm_trace: duplicate_u64s(&info.casm_level_info.vm_trace),
                },
            };
            proof {
                assert(copy@ == info@);
            }
            acc.push(copy);
        },
        None => {},
    }
    let n = trace.nested_calls.len();
    let mut i: usize = 0;
    while i < n
        invariant
            i <= n,
            n == trace.nested_calls@.len(),
            trace.cairo_execution_info == t.cairo_execution_info,
            trace.nested_calls == t.nested_calls,
            acc@.len() == old(acc)@.len() + collect_infos(t).len() - collect_nested(
                t.nested_calls@,
                i as int,
            ).len(),
            forall|j: int| 0 <= j < old(acc)@.len() ==> acc@[j] == old(acc)@[j],
            forall|j: int|
                0 <= j < acc@.len() - old(acc)@.len() ==> #[trigger] acc@[old(acc)@.len() + j]@
                    == collect_infos(t)[j],
            collect_nested(t.nested_calls@, i as int).len() <= collect_infos(t).len(),
            collect_infos(t) =~= collect_infos(t).take(
                collect_infos(t).len() - collect_nested(t.nested_calls@, i as int).len(),
            ) + collect_nested(t.nested_calls@, i as int),
        decreases n - i,
    {
        let ghost before = acc@;
        load_cairo_execution_infos(&trace.nested_calls[i], acc);
        proof {
            assert(collect_nested(t.nested_calls@, i as int) =~= collect_infos(
                t.nested_calls@[i as int],
            ) + collect_nested(t.nested_calls@, i + 1));
            assert forall|j: int|
                0 <= j < acc@.len() - old(acc)@.len() implies #[trigger] acc@[old(acc)@.len() + j]@
                == collect_infos(t)[j] by {
                if j < before.len() - old(acc)@.len() {
                    assert(acc@[old(acc)@.len() + j] == before[old(acc)@.len() + j]);
                } else {
                    let w = j - (before.len() - old(acc)@.len());
                    assert(acc@[before.len() + w]@ == collect_infos(t.nested_calls@[i as int])[w]);
                    assert(collect_infos(t)[j] == collect_nested(t.nested_calls@, i as int)[j - (
                    collect_infos(t).len() - collect_nested(t.nested_calls@, i as int).len())]);
                }
            }
        }
        i = i + 1;
    }
    proof {
        assert(collect_nested(t.nested_calls@, n as int) =~= Seq::<CairoExecutionInfoView>::empty());
    }
}

/// A copy of a program-counter list.
fn duplicate_u64s(v: &Vec<u64>) -> (r: Vec<u64>)
    ensures
        r@ == v@,
{
    let n = v.len();
    let mut out: Vec<u64> = Vec::new();
    let mut i: usize = 0;
    while i < n
        invariant
            i <= n,
            n == v@.len(),
            out@ =~= v@.take(i as int),
        decreases n - i,
    {
        out.push(v[i]);
        i = i + 1;
    }
    proof {
        assert(v@.take(n as int) =~= v@);
    }
    out
}

/// The traces of each artifact, grouped by the artifact's path so that a
/// shared program is only processed once. Groups appear in the order their
/// paths are first seen; within a group the traces keep their order.
pub open spec fn grouped_by_path(infos: Seq<CairoExecutionInfoView>) -> Seq<
    (Seq<char>, Seq<CasmLevelInfoView>),
>
    decreases infos.len(),
{
    if infos.len() == 0 {
        Seq::empty()
    } else {
        group_add(grouped_by_path(infos.drop_last()), infos.last())
    }
}

/// Append one execution to its artifact's group, creating the group at the
/// end if the path is new.
pub open spec fn group_add(
    groups: Seq<(Seq<char>, Seq<CasmLevelInfoView>)>,
    info: CairoExecutionInfoView,
) -> Seq<(Seq<char>, Seq<CasmLevelInfoView>)>
    decreases groups.len(),
{
    if groups.len() == 0 {
        seq![(info.source_sierra_path, seq![info.casm_level_info])]
    } else if groups[0].0 == info.source_sierra_path {
        seq![(groups[0].0, groups[0].1.push(info.casm_level_info))] + groups.skip(1)
    } else {
        seq![groups[0]] + group_add(groups.skip(1), info)
    }
}

/// The traces of the executions, grouped by artifact path.
pub fn group_by_sierra_path(execution_infos: Vec<CairoExecutionInfo>) -> (r: Vec<
    (String, Vec<CasmLevelInfo>),
>)
    ensures
        r@.map_values(
            |e: (String, Vec<CasmLevelInfo>)|
                (e.0@, e.1@.map_values(|c: CasmLevelInfo| c@)),
        ) =~= grouped_by_path(
            execution_infos@.map_values(|e: CairoExecutionInfo| e@),
        ),
{
    let ghost infos_view = execution_infos@.map_values(|e: CairoExecutionInfo| e@);
    let mut groups: Vec<(String, Vec<CasmLevelInfo>)> = Vec::new();
    let n = execution_infos.len();
    let mut remaining = execution_infos;
    let mut i: usize = 0;
    proof {
        assert(infos_view.take(0int) =~= Seq::<CairoExecutionInfoView>::empty());
    }
    while i < n
        invariant
            i <= n,
            n == remaining@.len() + i,
            forall|j: int|
                0 <= j < remaining@.len() ==> #[trigger] remaining@[j]@ == infos_view[i + j],
            infos_view.len() == n,
            groups@.map_values(
                |e: (String, Vec<CasmLevelInfo>)|
                    (e.0@, e.1@.map_values(|c: CasmLevelInfo| c@)),
            ) =~= grouped_by_path(infos_view.take(i as int)),
        decreases n - i,
    {
        let info = remaining.remove(0);
        proof {
            assert(info@ == infos_view[i as int]);
            assert(infos_view.take(i + 1).drop_last() =~= infos_view.take(i as int));
            assert(infos_view.take(i + 1).last() == infos_view[i as int]);
        }
        push_into_group(&mut groups, info);
        i = i + 1;
    }
    proof {
        assert(infos_view.take(n as int) =~= infos_view);
    }
    groups
}

/// The abstraction of the groups.
pub open spec fn groups_view(groups: Seq<(String, Vec<CasmLevelInfo>)>) -> Seq<
    (Seq<char>, Seq<CasmLevelInfoView>),
> {
    groups.map_values(
        |e: (String, Vec<CasmLevelInfo>)| (e.0@, e.1@.map_values(|c: CasmLevelInfo| c@)),
    )
}

/// Append one execution to its path's group, creating the group if needed.
fn push_into_group(groups: &mut Vec<(String, Vec<CasmLevelInfo>)>, info: CairoExecutionInfo)
    ensures
        groups_view(final(groups)@) =~= group_add(groups_view(old(groups)@), info@),

{
    let ghost g0 = groups_view(groups@);
    let n = groups.len();
    let mut i: usize = 0;
    proof {
        assert(g0.take(0int) =~= Seq::<(Seq<char>, Seq<CasmLevelInfoView>)>::empty());
        assert(g0.skip(0int) =~= g0);
    }
    loop
        invariant
            i <= n,
            n == groups@.len(),
            groups_view(groups@) == g0,
            forall|j: int| 0 <= j < i ==> g0[j].0 != info.source_sierra_path@,
            group_add(g0, info@) =~= g0.take(i as int) + group_add(g0.skip(i as int), info@),
        ensures
            i <= n,
            groups_view(groups@) == g0,
            forall|j: int| 0 <= j < i ==> g0[j].0 != info.source_sierra_path@,
            group_add(g0, info@) =~= g0.take(i as int) + group_add(g0.skip(i as int), info@),
            i < n ==> g0[i as int].0 == info.source_sierra_path@,
        decreases n - i,
    {
        if i >= n {
            break ;
        }
        let same = str_eq(groups[i].0.as_str(), info.source_sierra_path.as_str());
        proof {
            assert(g0[i as int].0 == groups@[i as int].0@);
        }
        if same {
            break ;
        }
        proof {
            assert(g0.skip(i as int)[0] == g0[i as int]);
            assert(g0.skip(i as int).skip(1) =~= g0.skip(i + 1));
            assert(g0.take(i as int) + group_add(g0.skip(i as int), info@) =~= g0.take(i + 1)
                + group_add(g0.skip(i + 1), info@));
        }
        i = i + 1;
    }
    if i < n {
        let ghost prev = groups@;
        let (path, mut traces) = groups.remove(i);
        proof {
            assert(prev[i as int].1@.map_values(|c: CasmLevelInfo| c@) == g0[i as int].1);
        }
        traces.push(info.casm_level_info);
        groups.insert(i, (path, traces));
        proof {
            assert(groups@ =~= prev.update(i as int, (prev[i as int].0, traces)));
            assert(traces@ =~= prev[i as int].1@.push(info.casm_level_info));
            assert(traces@.map_values(|c: CasmLevelInfo| c@) =~= g0[i as int].1.push(
                info.casm_level_info@,
            ));
            assert forall|j: int|
                0 <= j < g0.len() && j != i implies groups_view(groups@)[j] == g0[j] by {
                assert(groups@[j] == prev[j]);
            }
            assert(groups_view(groups@)[i as int] == (g0[i as int].0, g0[i as int].1.push(
                info.casm_level_info@,
            )));
            assert(g0.skip(i as int)[0] == g0[i as int]);
            assert(group_add(g0.skip(i as int), info@) =~= seq![
                (g0[i as int].0, g0[i as int].1.push(info.casm_level_info@)),
            ] + g0.skip(i as int).skip(1));
            assert(g0.skip(i as int).skip(1) =~= g0.skip(i + 1));
            assert(groups_view(groups@) =~= g0.update(
                i as int,
                (g0[i as int].0, g0[i as int].1.push(info.casm_level_info@)),
            ));
            assert(groups_view(groups@) =~= g0.take(i as int) + group_add(
                g0.skip(i as int),
                info@,
            ));
        }
    } else {
        let ghost prev = groups@;
        let mut traces: Vec<CasmLevelInfo> = Vec::new();
        traces.push(info.casm_level_info);
        groups.push((info.source_sierra_path, traces));
        proof {
            assert(g0.skip(i as int) =~= Seq::<(Seq<char>, Seq<CasmLevelInfoView>)>::empty());
            assert(traces@.map_values(|c: CasmLevelInfo| c@) =~= seq![info.casm_level_info@]);
            assert(g0.take(i as int) =~= g0);
            assert(groups_view(groups@) =~= g0.take(i as int) + group_add(
                g0.skip(i as int),
                info@,
            ));
        }
    }
}

/// The program body together with the debug metadata the loader extracted
/// from the artifact: the test-executable names, the two annotation
/// namespaces, and the statements and operation declarations that name maps
/// are derived from.
pub struct EnrichedProgram {
    pub program: cairo_lang_sierra::program::Program,
    pub test_executables: Vec<String>,
    pub coverage_annotations: CoverageAnnotations,
    pub profiler_annotations: ProfilerAnnotations,
    pub statements: Vec<SierraStatement>,
    pub libfunc_declarations: Vec<LibfuncDeclaration>,
}

/// All the data of one program artifact: its traces and its program.
pub struct ExecutionData {
    pub casm_level_infos: Vec<CasmLevelInfo>,
    pub enriched_program: EnrichedProgram,
}

/// The backend compiler's debug map for one artifact: the start offset of
/// each statement's code, in statement order, and the bytecode length.
pub struct CasmDebugInfo {
    pub statement_start_offsets: Vec<u64>,
    pub bytecode_length: u64,
}

impl CasmDebugInfo {
    /// Offsets never decrease, and the first one, if any, is zero.
    pub open spec fn wf(&self) -> bool {
        &&& forall|i: int, j: int|
            0 <= i < j < self.statement_start_offsets@.len()
                ==> self.statement_start_offsets@[i] <= self.statement_start_offsets@[j]
        &&& self.statement_start_offsets@.len() > 0 ==> self.statement_start_offsets@[0] == 0
    }
}

/// Relies on cairo_lang_sierra_to_casm's `calc_metadata` and `compile`: the
/// backend compiler turns the program body into its low-level form, without a
/// gas-usage check and without a bytecode size bound, and hands back the
/// per-statement debug information; a program it cannot compile yields
/// nothing.
#[verifier::external_body]
fn compile_to_casm(program: &cairo_lang_sierra::program::Program) -> (r: Option<
    cairo_lang_sierra_to_casm::compiler::CairoProgramDebugInfo,
>)
{
    let program_info = ProgramRegistryInfo::new(program).ok()?;
    let metadata = calc_metadata(
        program,
        &program_info,
        MetadataComputationConfig::default(),
    ).ok()?;
    let config = SierraToCasmConfig { gas_usage_check: false, max_bytecode_size: usize::MAX };
    cairo_lang_sierra_to_casm::compiler::compile(program, &program_info, &metadata, config)
        .ok()
        .map(|cairo_program| cairo_program.debug_info)
}

/// Relies on the layout of the compiler's `CairoProgramDebugInfo`: one entry
/// per statement, in statement order, sorted by start offset in non-descending
/// order; the first statement starts at offset zero, and the end offset of
/// the last statement is the bytecode length.
#[verifier::external_body]
fn casm_debug_offsets(
    debug_info: &cairo_lang_sierra_to_casm::compiler::CairoProgramDebugInfo,
) -> (r: CasmDebugInfo)
    ensures
        r.wf(),
{
    let statement_start_offsets: Vec<u64> = debug_info
        .sierra_statement_info
        .iter()
        .map(|s| s.start_offset as u64)
        .collect();
    let bytecode_length = debug_info
        .sierra_statement_info
        .last()
        .map_or(0, |s| s.end_offset as u64);
    CasmDebugInfo { statement_start_offsets, bytecode_length }
}

/// Compile the program body to its low-level form and keep the debug map.
/// The backend compiler decides which programs it accepts; whatever it hands
/// back, the offsets of the debug map never decrease.
pub fn compile(program: &cairo_lang_sierra::program::Program) -> (r: Option<CasmDebugInfo>)
    ensures
        r matches Some(d) ==> d.wf(),
{
    match compile_to_casm(program) {
        Some(debug_info) => Some(casm_debug_offsets(&debug_info)),
        None => None,
    }
}

} // verus!
