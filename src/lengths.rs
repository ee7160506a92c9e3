//! Column widths over a whole listing, and the aligned rendering of one
//! instruction.
use crate::module_info::{DisassemblyView, InstructionDisassembly};
use crate::text::{join, join_strings, pad_right, pad_to, views};
use vstd::prelude::*;

verus! {

pub open spec fn opt_len(o: Option<Seq<char>>) -> nat {
    match o {
        Some(s) => s.len(),
        None => 0,
    }
}

pub open spec fn max_nat(a: nat, b: nat) -> nat {
    if a < b {
        b
    } else {
        a
    }
}

pub open spec fn max_result(ds: Seq<DisassemblyView>) -> nat
    decreases ds.len(),
{
    if ds.len() == 0 {
        0
    } else {
        max_nat(max_result(ds.drop_last()), opt_len(ds.last().result))
    }
}

pub open spec fn max_result_type(ds: Seq<DisassemblyView>) -> nat
    decreases ds.len(),
{
    if ds.len() == 0 {
        0
    } else {
        max_nat(max_result_type(ds.drop_last()), opt_len(ds.last().result_type))
    }
}

pub open spec fn max_name(ds: Seq<DisassemblyView>) -> nat
    decreases ds.len(),
{
    if ds.len() == 0 {
        0
    } else {
        max_nat(max_name(ds.drop_last()), ds.last().name.len())
    }
}

/// The length of the longest operand list.
pub open spec fn max_operand_count(ds: Seq<DisassemblyView>) -> nat
    decreases ds.len(),
{
    if ds.len() == 0 {
        0
    } else {
        max_nat(max_operand_count(ds.drop_last()), ds.last().operands.len())
    }
}

/// The length of operand `k` of `d`, 0 where it has none.
pub open spec fn operand_len(d: DisassemblyView, k: int) -> nat {
    if 0 <= k < d.operands.len() {
        d.operands[k].len()
    } else {
        0
    }
}

/// The longest operand at position `k`.
pub open spec fn operand_width(ds: Seq<DisassemblyView>, k: int) -> nat
    decreases ds.len(),
{
    if ds.len() == 0 {
        0
    } else {
        max_nat(operand_width(ds.drop_last(), k), operand_len(ds.last(), k))
    }
}

/// Column widths as numbers.
pub struct WidthsView {
    pub result: nat,
    pub result_type: nat,
    pub name: nat,
    pub operands: Seq<nat>,
}

/// The widths of a listing: the longest field of each column, the result
/// column capped at `limit` where one is given.
pub open spec fn widths_of(ds: Seq<DisassemblyView>, limit: Option<usize>) -> WidthsView {
    WidthsView {
        result: match limit {
            Some(l) => if max_result(ds) < l {
                max_result(ds)
            } else {
                l as nat
            },
            None => max_result(ds),
        },
        result_type: max_result_type(ds),
        name: max_name(ds),
        operands: Seq::new(max_operand_count(ds), |k: int| operand_width(ds, k)),
    }
}

pub open spec fn text_or_empty(o: Option<Seq<char>>) -> Seq<char> {
    match o {
        Some(s) => s,
        None => Seq::empty(),
    }
}

/// Each operand padded to its column's width; an operand past the last
/// column is kept as it is.
pub open spec fn padded_operands(w: WidthsView, d: DisassemblyView) -> Seq<Seq<char>> {
    Seq::new(
        d.operands.len(),
        |k: int|
            if k < w.operands.len() {
                pad_to(d.operands[k], w.operands[k])
            } else {
                d.operands[k]
            },
    )
}

/// The rendered line: result, mnemonic, result type and operands, separated by
/// single spaces. Padded mode pads every column, and every operand that has a
/// column, keeping the rest unpadded; compact mode pads only the result and
/// joins the operands unpadded.
pub open spec fn format_line(w: WidthsView, d: DisassemblyView, pad_operands: bool) -> Seq<char> {
    let name_width: nat = if pad_operands {
        w.name
    } else {
        0
    };
    let result_type_width: nat = if pad_operands {
        w.result_type
    } else {
        0
    };
    let operands = if pad_operands {
        join(padded_operands(w, d), " "@)
    } else {
        join(d.operands, " "@)
    };
    pad_to(text_or_empty(d.result), w.result) + " "@ + pad_to(d.name, name_width) + " "@
        + pad_to(text_or_empty(d.result_type), result_type_width) + " "@ + operands
}

pub open spec fn disassembly_views(v: Seq<InstructionDisassembly>) -> Seq<DisassemblyView> {
    v.map_values(|d: InstructionDisassembly| d.view())
}

/// The widths of the columns of a listing.
pub struct InstructionDisassemblyLengths {
    pub result: usize,
    pub result_type: usize,
    pub name: usize,
    pub operands: Vec<usize>,
}

impl InstructionDisassemblyLengths {
    pub open spec fn view(&self) -> WidthsView {
        WidthsView {
            result: self.result as nat,
            result_type: self.result_type as nat,
            name: self.name as nat,
            operands: self.operands@.map_values(|n: usize| n as nat),
        }
    }
}

proof fn lemma_operand_width_beyond(ds: Seq<DisassemblyView>, k: int)
    requires
        k >= max_operand_count(ds),
    ensures
        operand_width(ds, k) == 0,
    decreases ds.len(),
{
    if ds.len() > 0 {
        lemma_operand_width_beyond(ds.drop_last(), k);
    }
}

/// Each field of the entry at `i` fits within the widest of its column.
proof fn lemma_max_covers(ds: Seq<DisassemblyView>, i: int)
    requires
        0 <= i < ds.len(),
    ensures
        opt_len(ds[i].result) <= max_result(ds),
        opt_len(ds[i].result_type) <= max_result_type(ds),
        ds[i].name.len() <= max_name(ds),
        ds[i].operands.len() <= max_operand_count(ds),
        forall|k: int| 0 <= k < ds[i].operands.len() ==> ds[i].operands[k].len() <= #[trigger] operand_width(ds, k),
    decreases ds.len(),
{
    if i < ds.len() - 1 {
        lemma_max_covers(ds.drop_last(), i);
        assert(ds.drop_last()[i] == ds[i]);
    }
    assert forall|k: int| 0 <= k < ds[i].operands.len() implies ds[i].operands[k].len()
        <= #[trigger] operand_width(ds, k) by {
        if i < ds.len() - 1 {
            assert(operand_width(ds.drop_last(), k) <= operand_width(ds, k));
        } else {
            assert(operand_len(ds.last(), k) == ds[i].operands[k].len());
        }
    }
}

/// Operand `k` of entry `i` has a column, and fits within its width.
pub open spec fn operand_fits(ds: Seq<DisassemblyView>, limit: Option<usize>, i: int, k: int) -> bool {
    k < widths_of(ds, limit).operands.len() && ds[i].operands[k].len() <= widths_of(
        ds,
        limit,
    ).operands[k]
}

/// No field is longer than the width computed for its column, save a result
/// name longer than the cap on the result column.
pub proof fn lemma_widths_cover_fields(ds: Seq<DisassemblyView>, limit: Option<usize>)
    ensures
        forall|i: int|
            0 <= i < ds.len() ==> {
                &&& (limit is None || opt_len(#[trigger] ds[i].result) <= limit->0) ==> opt_len(
                    ds[i].result,
                ) <= widths_of(ds, limit).result
                &&& opt_len(ds[i].result_type) <= widths_of(ds, limit).result_type
                &&& ds[i].name.len() <= widths_of(ds, limit).name
            },
        forall|i: int, k: int|
            0 <= i < ds.len() && 0 <= k < ds[i].operands.len() ==> #[trigger] operand_fits(
                ds,
                limit,
                i,
                k,
            ),
{
    assert forall|i: int| 0 <= i < ds.len() implies {
        &&& (limit is None || opt_len(#[trigger] ds[i].result) <= limit->0) ==> opt_len(
            ds[i].result,
        ) <= widths_of(ds, limit).result
        &&& opt_len(ds[i].result_type) <= widths_of(ds, limit).result_type
        &&& ds[i].name.len() <= widths_of(ds, limit).name
    } by {
        lemma_max_covers(ds, i);
    }
    assert forall|i: int, k: int|
        0 <= i < ds.len() && 0 <= k < ds[i].operands.len() implies #[trigger] operand_fits(
            ds,
            limit,
            i,
            k,
        ) by {
        lemma_max_covers(ds, i);
        let w = widths_of(ds, limit);
        assert(k < max_operand_count(ds));
        assert(w.operands.len() == max_operand_count(ds));
        assert(w.operands[k] == operand_width(ds, k));
        assert(ds[i].operands[k].len() <= operand_width(ds, k));
    }
}

fn opt_unicode_len(o: &Option<String>) -> (r: usize)
    ensures
        r == opt_len(match o {
            Some(s) => Some(s@),
            None => None,
        }),
{
    match o {
        Some(s) => s.as_str().unicode_len(),
        None => 0,
    }
}

fn max_usize(a: usize, b: usize) -> (r: usize)
    ensures
        r as nat == max_nat(a as nat, b as nat),
{
    if a < b {
        b
    } else {
        a
    }
}

impl InstructionDisassemblyLengths {
    /// The widest field of each column over `instrs`, the result column capped
    /// at `limit_result_name_length` where one is given.
    pub fn for_instructions(
        instrs: &Vec<InstructionDisassembly>,
        limit_result_name_length: Option<usize>,
    ) -> (r: Self)
        ensures
            r.view() == widths_of(disassembly_views(instrs@), limit_result_name_length),
            forall|i: int|
                0 <= i < instrs@.len() ==> {
                    &&& (limit_result_name_length is None || opt_len(
                        #[trigger] disassembly_views(instrs@)[i].result,
                    ) <= limit_result_name_length->0) ==> opt_len(
                        disassembly_views(instrs@)[i].result,
                    ) <= r.result
                    &&& opt_len(disassembly_views(instrs@)[i].result_type) <= r.result_type
                    &&& disassembly_views(instrs@)[i].name.len() <= r.name
                },
            forall|i: int, k: int|
                0 <= i < instrs@.len() && 0 <= k < instrs@[i].operands@.len()
                    ==> #[trigger] operand_fits(
                    disassembly_views(instrs@),
                    limit_result_name_length,
                    i,
                    k,
                ),
    {
        let ghost all = disassembly_views(instrs@);
        let mut result: usize = 0;
        let mut result_type: usize = 0;
        let mut name: usize = 0;
        let mut operands: Vec<usize> = Vec::new();
        let mut i: usize = 0;
        while i < instrs.len()
            invariant
                i <= instrs@.len(),
                all == disassembly_views(instrs@),
                result as nat == max_result(all.subrange(0, i as int)),
                result_type as nat == max_result_type(all.subrange(0, i as int)),
                name as nat == max_name(all.subrange(0, i as int)),
                operands@.len() == max_operand_count(all.subrange(0, i as int)),
                forall|k: int|
                    0 <= k < operands@.len() ==> #[trigger] operands@[k] as nat == operand_width(
                        all.subrange(0, i as int),
                        k,
                    ),
            decreases instrs@.len() - i,
        {
            let instr = &instrs[i];
            let ghost pre = all.subrange(0, i as int);
            let ghost cur = all.subrange(0, i + 1);
            assert(cur.drop_last() =~= pre);
            assert(cur.last() == instr.view());
            result = max_usize(result, opt_unicode_len(&instr.result));
            result_type = max_usize(result_type, opt_unicode_len(&instr.result_type));
            name = max_usize(name, instr.name.as_str().unicode_len());
            let n = instr.operands.len();
            let ghost old_count = operands@.len();
            while operands.len() < n
                invariant
                    old_count <= operands@.len(),
                    operands@.len() <= max_nat(old_count, n as nat),
                    old_count == max_operand_count(pre),
                    forall|k: int|
                        0 <= k < old_count ==> #[trigger] operands@[k] as nat == operand_width(
                            pre,
                            k,
                        ),
                    forall|k: int| old_count <= k < operands@.len() ==> #[trigger] operands@[k] == 0,
                decreases n - operands@.len(),
            {
                operands.push(0);
            }
            let ghost widened = operands@;
            let mut k: usize = 0;
            while k < n
                invariant
                    n == instr.operands@.len(),
                    n <= operands@.len(),
                    operands@.len() == widened.len(),
                    k <= n,
                    forall|j: int|
                        0 <= j < k ==> #[trigger] operands@[j] as nat == max_nat(
                            widened[j] as nat,
                            instr.operands@[j]@.len(),
                        ),
                    forall|j: int| k <= j < operands@.len() ==> #[trigger] operands@[j] == widened[j],
                decreases n - k,
            {
                let len = instr.operands[k].as_str().unicode_len();
                let w = max_usize(operands[k], len);
                operands.set(k, w);
                k = k + 1;
            }
            proof {
                assert forall|j: int| 0 <= j < operands@.len() implies #[trigger] operands@[j] as nat
                    == operand_width(cur, j) by {
                    if j >= old_count {
                        lemma_operand_width_beyond(pre, j);
                    }
                    if j < n {
                        assert(instr.view().operands[j] == instr.operands@[j]@);
                    }
                }
            }
            i = i + 1;
        }
        assert(all.subrange(0, instrs@.len() as int) =~= all);
        let capped = match limit_result_name_length {
            Some(l) => if result < l {
                result
            } else {
                l
            },
            None => result,
        };
        let r = InstructionDisassemblyLengths { result: capped, result_type, name, operands };
        assert(r.view().operands =~= widths_of(all, limit_result_name_length).operands);
        proof {
            lemma_widths_cover_fields(all, limit_result_name_length);
            assert forall|i: int, k: int|
                0 <= i < instrs@.len() && 0 <= k < instrs@[i].operands@.len() implies #[trigger] operand_fits(
                all,
                limit_result_name_length,
                i,
                k,
            ) by {
                assert(all[i] == instrs@[i].view());
            }
        }
        r
    }

    /// One instruction rendered in these columns: padded mode pads every
    /// column and every operand that has a column, and keeps operands past
    /// the last column unpadded; compact mode pads only the result column.
    pub fn format_instruction(&self, instruction: &InstructionDisassembly, pad_operands: bool) -> (r:
        String)
        ensures
            r@ == format_line(self.view(), instruction.view(), pad_operands),
    {
        let name_width: usize = if pad_operands {
            self.name
        } else {
            0
        };
        let result_type_width: usize = if pad_operands {
            self.result_type
        } else {
            0
        };
        let operands = if pad_operands {
            let mut parts: Vec<String> = Vec::new();
            let mut k: usize = 0;
            while k < instruction.operands.len()
                invariant
                    k <= instruction.operands@.len(),
                    parts@.len() == k,
                    forall|j: int|
                        0 <= j < k ==> #[trigger] parts@[j]@ == (if j < self.operands@.len() {
                            pad_to(instruction.operands@[j]@, self.operands@[j] as nat)
                        } else {
                            instruction.operands@[j]@
                        }),
                decreases instruction.operands@.len() - k,
            {
                if k < self.operands.len() {
                    parts.push(pad_right(instruction.operands[k].as_str(), self.operands[k]));
                } else {
                    parts.push(instruction.operands[k].clone());
                }
                k = k + 1;
            }
            assert(views(parts@) =~= padded_operands(self.view(), instruction.view()));
            join_strings(&parts, " ")
        } else {
            join_strings(&instruction.operands, " ")
        };
        let result = match &instruction.result {
            Some(s) => pad_right(s.as_str(), self.result),
            None => pad_right("", self.result),
        };
        let result_type = match &instruction.result_type {
            Some(s) => pad_right(s.as_str(), result_type_width),
            None => pad_right("", result_type_width),
        };
        proof {
            reveal_strlit("");
        }
        let mut line = result;
        line.append(" ");
        line.append(pad_right(instruction.name.as_str(), name_width).as_str());
        line.append(" ");
        line.append(result_type.as_str());
        line.append(" ");
        line.append(operands.as_str());
        line
    }
}

} // verus!
