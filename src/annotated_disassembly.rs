//! The annotated listing of a module: the visible instructions in order, each
//! with the source line it came from, its disassembly and its aligned text.
use crate::instruction::{Instruction, OP_FUNCTION, OP_LINE, OP_NAME, OP_SOURCE, OP_STRING};
use crate::lengths::{disassembly_views, format_line, widths_of, InstructionDisassemblyLengths};
use crate::module_info::{
    disassemble, gather, id_at, id_operand, int_at, int_operand, opt_view, resolve_collisions, DisassemblyView,
    InstructionDisassembly, ModuleInfo, StructureError,
};
use vstd::prelude::*;

verus! {

broadcast use vstd::std_specs::hash::group_hash_axioms;

/// A source position: file name and line number.
pub struct LineView {
    pub file: Seq<char>,
    pub line: u32,
}

/// Line markers, source text, string definitions and name declarations only
/// feed the symbol table and the line tracker; they are never listed.
pub open spec fn is_debug_only(op: u32) -> bool {
    op == OP_LINE || op == OP_SOURCE || op == OP_NAME || op == OP_STRING
}

/// The tracker's state: the current source position, and what it has listed.
pub struct TrackState {
    pub line: Option<LineView>,
    pub emitted: Seq<(Option<LineView>, Instruction)>,
    /// The position in the stream of each listed instruction.
    pub origin: Seq<int>,
}

/// One instruction through the tracker; `None` for a malformed line marker.
pub open spec fn track_step(
    strings: Map<u32, Seq<char>>,
    st: TrackState,
    inst: Instruction,
    index: int,
) -> Option<TrackState> {
    let ops = inst.operands@;
    if inst.opcode == OP_LINE {
        match (id_at(ops, 0), int_at(ops, 1)) {
            (Some(f), Some(l)) => if strings.contains_key(f) {
                Some(TrackState { line: Some(LineView { file: strings[f], line: l }), ..st })
            } else {
                None
            },
            _ => None,
        }
    } else if inst.opcode == OP_FUNCTION {
        Some(
            TrackState {
                line: None,
                emitted: st.emitted.push((None, inst)),
                origin: st.origin.push(index),
            },
        )
    } else if is_debug_only(inst.opcode) {
        Some(st)
    } else {
        Some(
            TrackState {
                emitted: st.emitted.push((st.line, inst)),
                origin: st.origin.push(index),
                ..st
            },
        )
    }
}

/// The tracker over a whole instruction sequence, or the opcode of the first
/// malformed line marker.
pub open spec fn track(strings: Map<u32, Seq<char>>, insts: Seq<Instruction>) -> Result<
    TrackState,
    u32,
>
    decreases insts.len(),
{
    if insts.len() == 0 {
        Ok(TrackState { line: None, emitted: Seq::empty(), origin: Seq::empty() })
    } else {
        match track(strings, insts.drop_last()) {
            Ok(st) => match track_step(strings, st, insts.last(), insts.len() - 1) {
                Some(st2) => Ok(st2),
                None => Err(insts.last().opcode),
            },
            Err(e) => Err(e),
        }
    }
}

/// The disassembly of each listed instruction.
pub open spec fn listed_disassembly(
    names: Map<u32, Seq<char>>,
    emitted: Seq<(Option<LineView>, Instruction)>,
) -> Seq<DisassemblyView> {
    emitted.map_values(|e: (Option<LineView>, Instruction)| disassemble(names, e.1))
}

/// The rendered text of every listed instruction, in compact mode, or the
/// opcode of the first malformed instruction.
pub open spec fn rendered_listing(insts: Seq<Instruction>, limit: Option<usize>) -> Result<
    Seq<Seq<char>>,
    u32,
> {
    match gather(insts) {
        Err(op) => Err(op),
        Ok(st) => match track(st.strings, insts) {
            Err(op) => Err(op),
            Ok(t) => {
                let ds = listed_disassembly(resolve_collisions(st.names), t.emitted);
                Ok(ds.map_values(|d: DisassemblyView| format_line(widths_of(ds, limit), d, false)))
            },
        },
    }
}

/// A source position attached to a listed instruction.
pub struct LineAnnotation {
    pub file: String,
    pub line: u32,
}

pub open spec fn line_view(l: Option<LineAnnotation>) -> Option<LineView> {
    match l {
        Some(a) => Some(LineView { file: a.file@, line: a.line }),
        None => None,
    }
}

/// One listed instruction.
pub struct AnnotatedInstruction {
    pub line: Option<LineAnnotation>,
    pub instruction: String,
    pub disassembly: InstructionDisassembly,
}

/// The annotated listing of a module.
pub struct AnnotatedDisassembly {
    pub header: Option<String>,
    pub instructions: Vec<AnnotatedInstruction>,
    pub lengths: InstructionDisassemblyLengths,
    pub info: ModuleInfo,
}

fn copy_line(l: &Option<LineAnnotation>) -> (r: Option<LineAnnotation>)
    ensures
        line_view(r) == line_view(*l),
{
    match l {
        Some(a) => Some(LineAnnotation { file: a.file.clone(), line: a.line }),
        None => None,
    }
}

fn copy_text(o: &Option<String>) -> (r: Option<String>)
    ensures
        opt_view(r) == opt_view(*o),
{
    match o {
        Some(s) => Some(s.clone()),
        None => None,
    }
}

fn copy_disassembly(d: &InstructionDisassembly) -> (r: InstructionDisassembly)
    ensures
        r.view() == d.view(),
{
    let mut operands: Vec<String> = Vec::new();
    let mut i: usize = 0;
    while i < d.operands.len()
        invariant
            i <= d.operands@.len(),
            operands@.len() == i,
            forall|j: int| 0 <= j < i ==> #[trigger] operands@[j]@ == d.operands@[j]@,
        decreases d.operands@.len() - i,
    {
        operands.push(d.operands[i].clone());
        i = i + 1;
    }
    let r = InstructionDisassembly {
        result: copy_text(&d.result),
        result_type: copy_text(&d.result_type),
        name: d.name.clone(),
        operands,
    };
    assert(r.view().operands =~= d.view().operands);
    r
}

impl AnnotatedDisassembly {
    /// Annotates a decoded module: builds its symbol table, lists every
    /// instruction but the debug-only ones with the source position in force
    /// and its disassembly, computes the column widths over the listing and
    /// renders each listed instruction in compact mode. A structurally invalid
    /// instruction, a line marker among them, is the fatal structural error:
    /// no listing comes back, only the opcode of the first such instruction.
    pub fn create(
        header: Option<String>,
        insts: &Vec<Instruction>,
        limit_result_name_length: Option<usize>,
    ) -> (r: Result<AnnotatedDisassembly, StructureError>)
        ensures
            match rendered_listing(insts@, limit_result_name_length) {
                Ok(lines) => r is Ok && r->Ok_0.instructions@.len() == lines.len() && forall|k: int|
                    0 <= k < lines.len() ==> (#[trigger] r->Ok_0.instructions@[k]).instruction@
                        == lines[k],
                Err(op) => r is Err && r->Err_0.opcode == op,
            },
            match gather(insts@) {
                Err(op) => r is Err && r->Err_0.opcode == op,
                Ok(st) => match track(st.strings, insts@) {
                    Err(op) => r is Err && r->Err_0.opcode == op,
                    Ok(t) => r is Ok && {
                        let a = r->Ok_0;
                        let names = resolve_collisions(st.names);
                        let ds = listed_disassembly(names, t.emitted);
                        &&& a.header == header
                        &&& a.info.strings_view() == st.strings
                        &&& a.info.names_view() == names
                        &&& a.instructions@.len() == t.emitted.len()
                        &&& a.lengths.view() == widths_of(ds, limit_result_name_length)
                        &&& forall|k: int|
                            0 <= k < t.emitted.len() ==> {
                                &&& line_view(#[trigger] a.instructions@[k].line)
                                    == t.emitted[k].0
                                &&& a.instructions@[k].disassembly.view() == ds[k]
                                &&& a.instructions@[k].instruction@ == format_line(
                                    a.lengths.view(),
                                    ds[k],
                                    false,
                                )
                                &&& function_start_in_force(insts@, t.origin[k])
                                    ==> a.instructions@[k].line is None
                            }
                    },
                },
            },
    {
        let info = match ModuleInfo::create(insts) {
            Ok(info) => info,
            Err(e) => {
                return Err(e);
            },
        };
        let ghost strings = info.strings_view();
        let ghost names = info.names_view();
        let mut line: Option<LineAnnotation> = None;
        let mut lines: Vec<Option<LineAnnotation>> = Vec::new();
        let mut disassemblies: Vec<InstructionDisassembly> = Vec::new();
        let mut i: usize = 0;
        while i < insts.len()
            invariant
                i <= insts@.len(),
                strings == info.strings_view(),
                names == info.names_view(),
                gather(insts@) is Ok,
                gather(insts@)->Ok_0.strings == strings,
                resolve_collisions(gather(insts@)->Ok_0.names) == names,
                track(strings, insts@.subrange(0, i as int)) is Ok,
                line_view(line) == track(strings, insts@.subrange(0, i as int))->Ok_0.line,
                lines@.len() == track(strings, insts@.subrange(0, i as int))->Ok_0.emitted.len(),
                disassemblies@.len() == lines@.len(),
                forall|k: int|
                    0 <= k < lines@.len() ==> line_view(#[trigger] lines@[k]) == track(
                        strings,
                        insts@.subrange(0, i as int),
                    )->Ok_0.emitted[k].0,
                forall|k: int|
                    0 <= k < lines@.len() ==> (#[trigger] disassemblies@[k]).view() == disassemble(
                        names,
                        track(strings, insts@.subrange(0, i as int))->Ok_0.emitted[k].1,
                    ),
            decreases insts@.len() - i,
        {
            let inst = &insts[i];
            let ghost pre = insts@.subrange(0, i as int);
            let ghost cur = insts@.subrange(0, i + 1);
            proof {
                assert(cur.drop_last() =~= pre);
                assert(cur.last() == *inst);
            }
            let op = inst.opcode;
            if op == OP_LINE {
                let file = match id_operand(&inst.operands, 0) {
                    Some(f) => f,
                    None => {
                        proof {
                            lemma_track_stays_failed(strings, insts@, i + 1);
                            assert(insts@[i as int] == *inst);
                        }
                        return Err(StructureError { opcode: op });
                    },
                };
                let number = match int_operand(&inst.operands, 1) {
                    Some(n) => n,
                    None => {
                        proof {
                            lemma_track_stays_failed(strings, insts@, i + 1);
                            assert(insts@[i as int] == *inst);
                        }
                        return Err(StructureError { opcode: op });
                    },
                };
                let name = match info.strings.get(&file) {
                    Some(s) => s.clone(),
                    None => {
                        proof {
                            lemma_track_stays_failed(strings, insts@, i + 1);
                            assert(insts@[i as int] == *inst);
                        }
                        return Err(StructureError { opcode: op });
                    },
                };
                line = Some(LineAnnotation { file: name, line: number });
            } else if op == OP_FUNCTION {
                line = None;
                lines.push(None);
                disassemblies.push(info.disassemble_instruction(inst));
            } else if op == OP_SOURCE || op == OP_NAME || op == OP_STRING {
            } else {
                lines.push(copy_line(&line));
                disassemblies.push(info.disassemble_instruction(inst));
            }
            i = i + 1;
        }
        let ghost t = track(strings, insts@.subrange(0, i as int))->Ok_0;
        assert(insts@.subrange(0, insts@.len() as int) =~= insts@);
        let ghost ds = listed_disassembly(names, t.emitted);
        assert(disassembly_views(disassemblies@) =~= ds);
        let lengths = InstructionDisassemblyLengths::for_instructions(
            &disassemblies,
            limit_result_name_length,
        );
        let mut instructions: Vec<AnnotatedInstruction> = Vec::new();
        let mut k: usize = 0;
        while k < disassemblies.len()
            invariant
                k <= disassemblies@.len(),
                disassemblies@.len() == lines@.len(),
                disassemblies@.len() == t.emitted.len(),
                disassembly_views(disassemblies@) == ds,
                instructions@.len() == k,
                forall|j: int|
                    0 <= j < lines@.len() ==> line_view(#[trigger] lines@[j]) == t.emitted[j].0,
                forall|j: int|
                    0 <= j < k ==> {
                        &&& line_view(#[trigger] instructions@[j].line) == t.emitted[j].0
                        &&& instructions@[j].disassembly.view() == ds[j]
                        &&& instructions@[j].instruction@ == format_line(
                            lengths.view(),
                            ds[j],
                            false,
                        )
                    },
            decreases disassemblies@.len() - k,
        {
            let d = &disassemblies[k];
            assert(d.view() == ds[k as int]);
            let text = lengths.format_instruction(d, false);
            instructions.push(
                AnnotatedInstruction {
                    line: copy_line(&lines[k]),
                    instruction: text,
                    disassembly: copy_disassembly(d),
                },
            );
            k = k + 1;
        }
        let ghost lines = ds.map_values(
            |d: DisassemblyView| format_line(widths_of(ds, limit_result_name_length), d, false),
        );
        assert(rendered_listing(insts@, limit_result_name_length) == Ok::<Seq<Seq<char>>, u32>(
            lines,
        ));
        assert forall|j: int| 0 <= j < lines.len() implies (
        #[trigger] instructions@[j]).instruction@ == lines[j] by {
            assert(line_view(instructions@[j].line) == t.emitted[j].0);
            assert(instructions@[j].instruction@ == format_line(lengths.view(), ds[j], false));
        }
        proof {
            lemma_no_line_after_function_start(strings, insts@);
            assert forall|j: int|
                0 <= j < t.emitted.len() && function_start_in_force(insts@, t.origin[j]) implies (
            #[trigger] instructions@[j]).line is None by {
                assert(entry_traced(insts@, t, j));
                assert(line_view(instructions@[j].line) == t.emitted[j].0);
            }
        }
        Ok(AnnotatedDisassembly { header, instructions, lengths, info })
    }
}

proof fn lemma_track_stays_failed(strings: Map<u32, Seq<char>>, insts: Seq<Instruction>, n: int)
    requires
        0 < n <= insts.len(),
        track(strings, insts.subrange(0, n - 1)) is Ok,
        track_step(
            strings,
            track(strings, insts.subrange(0, n - 1))->Ok_0,
            insts[n - 1],
            n - 1,
        ) is None,
    ensures
        track(strings, insts) == Err::<TrackState, u32>(insts[n - 1].opcode),
    decreases insts.len() - n,
{
    assert(insts.subrange(0, n).drop_last() =~= insts.subrange(0, n - 1));
    if n == insts.len() {
        assert(insts.subrange(0, n) =~= insts);
    } else {
        lemma_track_failed_prefix(strings, insts, n);
    }
}

proof fn lemma_track_failed_prefix(strings: Map<u32, Seq<char>>, insts: Seq<Instruction>, n: int)
    requires
        0 < n <= insts.len(),
        track(strings, insts.subrange(0, n)) is Err,
    ensures
        track(strings, insts) == track(strings, insts.subrange(0, n)),
    decreases insts.len() - n,
{
    if n < insts.len() {
        assert(insts.subrange(0, n + 1).drop_last() =~= insts.subrange(0, n));
        lemma_track_failed_prefix(strings, insts, n + 1);
    } else {
        assert(insts.subrange(0, n) =~= insts);
    }
}

/// A failed prefix fails the whole sequence.
proof fn lemma_track_prefix_ok(strings: Map<u32, Seq<char>>, insts: Seq<Instruction>, n: int)
    requires
        0 <= n <= insts.len(),
        track(strings, insts) is Ok,
    ensures
        track(strings, insts.subrange(0, n)) is Ok,
{
    if track(strings, insts.subrange(0, n)) is Err {
        if n == 0 {
            assert(insts.subrange(0, 0).len() == 0);
        } else {
            lemma_track_failed_prefix(strings, insts, n);
        }
    }
}

/// The same instruction sequence always gives the same rendered listing.
pub proof fn lemma_listing_deterministic(
    a: Seq<Instruction>,
    b: Seq<Instruction>,
    limit: Option<usize>,
)
    requires
        a == b,
    ensures
        rendered_listing(a, limit) == rendered_listing(b, limit),
{
}

/// From a function-start instruction up to the next line marker the current
/// source position is cleared: each instruction listed in that stretch,
/// the function start included, carries no line.
pub proof fn lemma_function_start_clears_line(
    strings: Map<u32, Seq<char>>,
    insts: Seq<Instruction>,
    j: int,
    n: int,
)
    requires
        0 <= j < n <= insts.len(),
        insts[j].opcode == OP_FUNCTION,
        forall|m: int| j < m < n ==> (#[trigger] insts[m]).opcode != OP_LINE,
        track(strings, insts.subrange(0, n)) is Ok,
    ensures
        track(strings, insts.subrange(0, n))->Ok_0.line is None,
        !is_debug_only(insts[n - 1].opcode) ==> track(strings, insts.subrange(0, n))->Ok_0.emitted.last()
            == (None::<LineView>, insts[n - 1]),
    decreases n - j,
{
    let cur = insts.subrange(0, n);
    let pre = insts.subrange(0, n - 1);
    assert(cur.drop_last() =~= pre);
    assert(cur.last() == insts[n - 1]);
    lemma_track_prefix_ok(strings, cur, n - 1);
    assert(cur.subrange(0, n - 1) =~= pre);
    if n - 1 > j {
        lemma_function_start_clears_line(strings, insts, j, n - 1);
    }
}

/// String definitions, name declarations, source text and line markers never
/// appear among the listed instructions.
pub proof fn lemma_debug_instructions_elided(strings: Map<u32, Seq<char>>, insts: Seq<Instruction>)
    requires
        track(strings, insts) is Ok,
    ensures
        forall|k: int|
            0 <= k < track(strings, insts)->Ok_0.emitted.len() ==> !is_debug_only(
                (#[trigger] track(strings, insts)->Ok_0.emitted[k]).1.opcode,
            ),
    decreases insts.len(),
{
    if insts.len() > 0 {
        let pre = insts.drop_last();
        lemma_track_prefix_ok(strings, insts, insts.len() - 1);
        assert(insts.subrange(0, insts.len() - 1) =~= pre);
        lemma_debug_instructions_elided(strings, pre);
        let e0 = track(strings, pre)->Ok_0.emitted;
        let e1 = track(strings, insts)->Ok_0.emitted;
        assert forall|k: int| 0 <= k < e1.len() implies !is_debug_only(
            (#[trigger] e1[k]).1.opcode,
        ) by {
            if k < e0.len() {
                assert(e1[k] == e0[k]);
            }
        }
    }
}

/// A function start at or before position `j` whose effect no line marker
/// has ended by `j`.
pub open spec fn function_start_in_force(insts: Seq<Instruction>, j: int) -> bool {
    exists|f: int|
        0 <= f <= j && (#[trigger] insts[f]).opcode == OP_FUNCTION && forall|m: int|
            f < m <= j ==> (#[trigger] insts[m]).opcode != OP_LINE
}

/// Listed entry `k` comes from its recorded stream position, and carries no
/// line when a function start is in force there.
pub open spec fn entry_traced(insts: Seq<Instruction>, t: TrackState, k: int) -> bool {
    &&& 0 <= t.origin[k] < insts.len()
    &&& t.emitted[k].1 == insts[t.origin[k]]
    &&& function_start_in_force(insts, t.origin[k]) ==> t.emitted[k].0 is None
}

/// Each listed instruction comes from its recorded stream position, and one
/// listed while a function start is in force carries no line.
pub proof fn lemma_no_line_after_function_start(strings: Map<u32, Seq<char>>, insts: Seq<Instruction>)
    requires
        track(strings, insts) is Ok,
    ensures
        track(strings, insts)->Ok_0.origin.len() == track(strings, insts)->Ok_0.emitted.len(),
        forall|k: int|
            0 <= k < track(strings, insts)->Ok_0.emitted.len() ==> #[trigger] entry_traced(
                insts,
                track(strings, insts)->Ok_0,
                k,
            ),
    decreases insts.len(),
{
    if insts.len() > 0 {
        let n = insts.len() as int;
        let pre = insts.drop_last();
        lemma_track_prefix_ok(strings, insts, n - 1);
        assert(insts.subrange(0, n - 1) =~= pre);
        lemma_no_line_after_function_start(strings, pre);
        let t0 = track(strings, pre)->Ok_0;
        let t1 = track(strings, insts)->Ok_0;
        let last = insts[n - 1];
        assert forall|k: int| 0 <= k < t1.emitted.len() implies #[trigger] entry_traced(
            insts,
            t1,
            k,
        ) by {
            if k < t0.emitted.len() {
                assert(entry_traced(pre, t0, k));
                assert(t1.origin[k] == t0.origin[k]);
                assert(t1.emitted[k] == t0.emitted[k]);
                let j = t0.origin[k];
                assert(pre[j] == insts[j]);
                if function_start_in_force(insts, j) {
                    let f = choose|f: int|
                        0 <= f <= j && (#[trigger] insts[f]).opcode == OP_FUNCTION && forall|m: int|
                            f < m <= j ==> (#[trigger] insts[m]).opcode != OP_LINE;
                    assert(pre[f] == insts[f]);
                    assert forall|m: int| f < m <= j implies (#[trigger] pre[m]).opcode != OP_LINE by {
                        assert(pre[m] == insts[m]);
                    }
                    assert(function_start_in_force(pre, j));
                }
            } else {
                assert(t1.origin[k] == n - 1);
                if last.opcode != OP_FUNCTION && function_start_in_force(insts, n - 1) {
                    let f = choose|f: int|
                        0 <= f <= n - 1 && (#[trigger] insts[f]).opcode == OP_FUNCTION && forall|
                            m: int,
                        | f < m <= n - 1 ==> (#[trigger] insts[m]).opcode != OP_LINE;
                    assert(f < n - 1);
                    lemma_function_start_clears_line(strings, insts, f, n - 1);
                }
            }
        }
    }
}

} // verus!
