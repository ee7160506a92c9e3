//! The symbol table of a module: literal strings and display names of ids,
//! and the disassembly of one instruction against it.
use crate::instruction::{
    literal_text, operand_literal_text, storage_class_abbrev, storage_class_abbreviation,
    Instruction, Operand, OP_CONSTANT, OP_CONSTANT_FALSE, OP_CONSTANT_NULL, OP_CONSTANT_TRUE,
    OP_NAME, OP_STRING, OP_TYPE_ACCELERATION_STRUCTURE, OP_TYPE_ARRAY, OP_TYPE_BOOL,
    OP_TYPE_FLOAT, OP_TYPE_FUNCTION, OP_TYPE_INT, OP_TYPE_MATRIX, OP_TYPE_POINTER,
    OP_TYPE_RUNTIME_ARRAY, OP_TYPE_VECTOR, OP_TYPE_VOID,
};
use crate::text::{
    decimal, decimal_string, is_digit, join, join_strings, lemma_decimal_digits,
    lemma_decimal_injective, views,
};
use std::collections::{HashMap, HashSet};
use vstd::prelude::*;

verus! {

broadcast use vstd::std_specs::hash::group_hash_axioms;

/// A structurally invalid instruction: the opcode of the first one met.
pub struct StructureError {
    pub opcode: u32,
}

/// What the single pass over a module has gathered so far.
pub struct SymbolState {
    pub strings: Map<u32, Seq<char>>,
    pub names: Map<u32, Seq<char>>,
    pub vectors: Map<u32, (u32, Seq<char>)>,
    pub constants: Map<u32, u32>,
    /// The ids that a name declaration has named.
    pub explicit: Set<u32>,
}

pub open spec fn empty_state() -> SymbolState {
    SymbolState {
        strings: Map::empty(),
        names: Map::empty(),
        vectors: Map::empty(),
        constants: Map::empty(),
        explicit: Set::empty(),
    }
}

pub open spec fn str_map(m: Map<u32, String>) -> Map<u32, Seq<char>> {
    m.map_values(|s: String| s@)
}

pub open spec fn id_at(ops: Seq<Operand>, i: int) -> Option<u32> {
    if 0 <= i < ops.len() {
        match ops[i] {
            Operand::IdRef(id) => Some(id),
            _ => None,
        }
    } else {
        None
    }
}

pub open spec fn int_at(ops: Seq<Operand>, i: int) -> Option<u32> {
    if 0 <= i < ops.len() {
        match ops[i] {
            Operand::LiteralInt32(v) => Some(v),
            _ => None,
        }
    } else {
        None
    }
}

pub open spec fn str_at(ops: Seq<Operand>, i: int) -> Option<Seq<char>> {
    if 0 <= i < ops.len() {
        match ops[i] {
            Operand::LiteralString(s) => Some(s@),
            _ => None,
        }
    } else {
        None
    }
}

pub open spec fn class_at(ops: Seq<Operand>, i: int) -> Option<u32> {
    if 0 <= i < ops.len() {
        match ops[i] {
            Operand::StorageClass(c) => Some(c),
            _ => None,
        }
    } else {
        None
    }
}

/// The name known for `id`, or its number.
pub open spec fn resolve(names: Map<u32, Seq<char>>, id: u32) -> Seq<char> {
    if names.contains_key(id) {
        names[id]
    } else {
        decimal(id as nat)
    }
}

/// Every operand from position 1 on refers to an id.
pub open spec fn ids_from_one(ops: Seq<Operand>) -> bool {
    forall|i: int| 1 <= i < ops.len() ==> (#[trigger] id_at(ops, i)) is Some
}

/// The resolved names of the argument types of a function type.
pub open spec fn argument_names(names: Map<u32, Seq<char>>, ops: Seq<Operand>) -> Seq<Seq<char>> {
    Seq::new((ops.len() - 1) as nat, |i: int| resolve(names, id_at(ops, i + 1)->0))
}

pub open spec fn with_name(st: SymbolState, id: u32, name: Seq<char>) -> SymbolState {
    SymbolState { names: st.names.insert(id, name), ..st }
}

/// Gives `id` a synthesized name, unless a name declaration has named it:
/// explicit names take precedence.
pub open spec fn synth_name(st: SymbolState, id: u32, name: Seq<char>) -> SymbolState {
    if st.explicit.contains(id) {
        st
    } else {
        with_name(st, id, name)
    }
}

/// Names the result of `inst` with a synthesized name; `None` where it has no
/// result id.
pub open spec fn name_result(st: SymbolState, inst: Instruction, name: Seq<char>) -> Option<
    SymbolState,
> {
    match inst.result_id {
        Some(id) => Some(synth_name(st, id, name)),
        None => None,
    }
}

pub open spec fn int_type_name(bits: u32, signedness: u32) -> Seq<char> {
    (if signedness == 1 {
        "i"@
    } else {
        "u"@
    }) + decimal(bits as nat)
}

pub open spec fn function_type_name(names: Map<u32, Seq<char>>, ops: Seq<Operand>) -> Seq<char> {
    "fn("@ + join(argument_names(names, ops), ";"@) + ")"@ + resolve(names, id_at(ops, 0)->0)
}

/// What one instruction adds to the state; `None` where it is malformed.
pub open spec fn step(st: SymbolState, inst: Instruction) -> Option<SymbolState> {
    let ops = inst.operands@;
    let op = inst.opcode;
    if op == OP_STRING {
        match (inst.result_id, str_at(ops, 0)) {
            (Some(id), Some(s)) => Some(SymbolState { strings: st.strings.insert(id, s), ..st }),
            _ => None,
        }
    } else if op == OP_NAME {
        match (id_at(ops, 0), str_at(ops, 1)) {
            (Some(id), Some(s)) => Some(
                SymbolState { explicit: st.explicit.insert(id), ..with_name(st, id, s) },
            ),
            _ => None,
        }
    } else if op == OP_TYPE_VOID {
        name_result(st, inst, "void"@)
    } else if op == OP_TYPE_BOOL {
        name_result(st, inst, "bool"@)
    } else if op == OP_TYPE_ACCELERATION_STRUCTURE {
        name_result(st, inst, "AccelerationStructure"@)
    } else if op == OP_TYPE_INT {
        match (int_at(ops, 0), int_at(ops, 1)) {
            (Some(bits), Some(sign)) => name_result(st, inst, int_type_name(bits, sign)),
            _ => None,
        }
    } else if op == OP_TYPE_FLOAT {
        match int_at(ops, 0) {
            Some(bits) => name_result(st, inst, "f"@ + decimal(bits as nat)),
            None => None,
        }
    } else if op == OP_TYPE_FUNCTION {
        if id_at(ops, 0) is Some && ids_from_one(ops) {
            name_result(st, inst, function_type_name(st.names, ops))
        } else {
            None
        }
    } else if op == OP_TYPE_POINTER {
        match (class_at(ops, 0), id_at(ops, 1)) {
            (Some(c), Some(t)) => match storage_class_abbrev(c) {
                Some(a) => name_result(st, inst, "p"@ + a + "*"@ + resolve(st.names, t)),
                None => None,
            },
            _ => None,
        }
    } else if op == OP_TYPE_VECTOR {
        match (inst.result_id, id_at(ops, 0), int_at(ops, 1)) {
            (Some(id), Some(c), Some(n)) => Some(
                synth_name(
                    SymbolState { vectors: st.vectors.insert(id, (n, resolve(st.names, c))), ..st },
                    id,
                    decimal(n as nat) + "x"@ + resolve(st.names, c),
                ),
            ),
            _ => None,
        }
    } else if op == OP_TYPE_MATRIX {
        match (id_at(ops, 0), int_at(ops, 1)) {
            (Some(v), Some(cols)) => if st.vectors.contains_key(v) {
                name_result(
                    st,
                    inst,
                    decimal(st.vectors[v].0 as nat) + "x"@ + decimal(cols as nat) + "x"@
                        + st.vectors[v].1,
                )
            } else {
                None
            },
            _ => None,
        }
    } else if op == OP_TYPE_ARRAY {
        match (id_at(ops, 0), id_at(ops, 1)) {
            (Some(e), Some(c)) => if st.constants.contains_key(c) {
                name_result(
                    st,
                    inst,
                    "["@ + resolve(st.names, e) + ";"@ + decimal(st.constants[c] as nat) + "]"@,
                )
            } else {
                None
            },
            _ => None,
        }
    } else if op == OP_TYPE_RUNTIME_ARRAY {
        match id_at(ops, 0) {
            Some(e) => name_result(st, inst, "["@ + resolve(st.names, e) + "]"@),
            None => None,
        }
    } else if op == OP_CONSTANT {
        match (inst.result_id, inst.result_type) {
            (Some(id), Some(t)) => if ops.len() >= 1 {
                let text = literal_text(ops[0]) + resolve(st.names, t);
                let st2 = match int_at(ops, 0) {
                    Some(v) => SymbolState { constants: st.constants.insert(id, v), ..st },
                    None => st,
                };
                Some(synth_name(st2, id, text))
            } else {
                None
            },
            _ => None,
        }
    } else if op == OP_CONSTANT_TRUE {
        name_result(st, inst, "true"@)
    } else if op == OP_CONSTANT_FALSE {
        name_result(st, inst, "false"@)
    } else if op == OP_CONSTANT_NULL {
        name_result(st, inst, "null"@)
    } else {
        Some(st)
    }
}

/// The state after the single pass over `insts`, or the opcode of the first
/// malformed instruction.
pub open spec fn gather(insts: Seq<Instruction>) -> Result<SymbolState, u32>
    decreases insts.len(),
{
    if insts.len() == 0 {
        Ok(empty_state())
    } else {
        match gather(insts.drop_last()) {
            Ok(st) => match step(st, insts.last()) {
                Some(st2) => Ok(st2),
                None => Err(insts.last().opcode),
            },
            Err(e) => Err(e),
        }
    }
}

/// Another id carries the same name as `id`.
pub open spec fn collides(m: Map<u32, Seq<char>>, id: u32) -> bool {
    exists|o: u32| o != id && #[trigger] m.contains_key(o) && m[o] == m[id]
}

/// `name` followed by `_` and the numeral of `id`.
pub open spec fn suffixed(name: Seq<char>, id: u32) -> Seq<char> {
    name + seq!['_'] + decimal(id as nat)
}

/// An id needs `_<id>` appended when another id shares its name, or when its
/// name equals the suffixed name of an id that needs the suffix (followed
/// down to a collision; each step shortens the name).
pub open spec fn needs_suffix(m: Map<u32, Seq<char>>, a: u32) -> bool
    decreases m[a].len(),
{
    collides(m, a) || exists|b: u32|
        #[trigger] m.contains_key(b) && m[b].len() < m[a].len() && m[a] == suffixed(m[b], b)
            && needs_suffix(m, b)
}

/// `name_<id>` for an id that needs the suffix; the name itself, untouched,
/// otherwise.
pub open spec fn resolved_name(m: Map<u32, Seq<char>>, id: u32) -> Seq<char> {
    if needs_suffix(m, id) {
        suffixed(m[id], id)
    } else {
        m[id]
    }
}

pub open spec fn resolve_collisions(m: Map<u32, Seq<char>>) -> Map<u32, Seq<char>> {
    Map::new(|k: u32| m.contains_key(k), |k: u32| resolved_name(m, k))
}

/// No two ids carry the same name.
pub open spec fn names_distinct(m: Map<u32, Seq<char>>) -> bool {
    forall|a: u32, b: u32|
        a != b && #[trigger] m.contains_key(a) && #[trigger] m.contains_key(b) ==> m[a] != m[b]
}

/// The symbol table of a module.
pub struct ModuleInfo {
    pub strings: HashMap<u32, String>,
    pub names: HashMap<u32, String>,
}

impl ModuleInfo {
    pub open spec fn strings_view(&self) -> Map<u32, Seq<char>> {
        str_map(self.strings@)
    }

    pub open spec fn names_view(&self) -> Map<u32, Seq<char>> {
        str_map(self.names@)
    }
}

proof fn lemma_str_map_insert(m: Map<u32, String>, k: u32, v: String)
    ensures
        str_map(m.insert(k, v)) == str_map(m).insert(k, v@),
{
    assert(str_map(m.insert(k, v)) =~= str_map(m).insert(k, v@));
}

struct SymbolBuilder {
    strings: HashMap<u32, String>,
    names: HashMap<u32, String>,
    vectors: HashMap<u32, (u32, String)>,
    constants: HashMap<u32, u32>,
    explicit: HashSet<u32>,
    ids: Vec<u32>,
}

impl SymbolBuilder {
    spec fn view(&self) -> SymbolState {
        SymbolState {
            strings: str_map(self.strings@),
            names: str_map(self.names@),
            vectors: self.vectors@.map_values(|p: (u32, String)| (p.0, p.1@)),
            constants: self.constants@,
            explicit: self.explicit@,
        }
    }

    spec fn wf(&self) -> bool {
        &&& forall|k: u32| self.names@.contains_key(k) <==> self.ids@.contains(k)
        &&& self.ids@.no_duplicates()
    }

    fn new() -> (r: Self)
        ensures
            r.wf(),
            r.view() == empty_state(),
    {
        let r = SymbolBuilder {
            strings: HashMap::new(),
            names: HashMap::new(),
            vectors: HashMap::new(),
            constants: HashMap::new(),
            explicit: HashSet::new(),
            ids: Vec::new(),
        };
        assert(r.view().strings =~= Map::empty());
        assert(r.view().names =~= Map::empty());
        assert(r.view().vectors =~= Map::empty());
        assert(r.view().explicit =~= Set::empty());
        r
    }

    fn set_name(&mut self, id: u32, name: String)
        requires
            old(self).wf(),
        ensures
            final(self).wf(),
            final(self).view() == with_name(old(self).view(), id, name@),
    {
        let ghost ids0 = self.ids@;
        if !self.names.contains_key(&id) {
            self.ids.push(id);
            assert(forall|k: u32| #[trigger] self.ids@.contains(k) <==> ids0.contains(k) || k == id) by {
                assert(forall|i: int| 0 <= i < ids0.len() ==> self.ids@[i] == ids0[i]);
                assert(self.ids@[ids0.len() as int] == id);
            }
            assert(self.ids@.no_duplicates()) by {
                assert(forall|i: int| 0 <= i < ids0.len() ==> self.ids@[i] == ids0[i]);
                assert(!ids0.contains(id));
            }
        }
        proof {
            lemma_str_map_insert(self.names@, id, name);
        }
        self.names.insert(id, name);
        assert(forall|k: u32| self.names@.contains_key(k) <==> #[trigger] self.ids@.contains(k));
    }

    fn set_synthesized_name(&mut self, id: u32, name: String)
        requires
            old(self).wf(),
        ensures
            final(self).wf(),
            final(self).view() == synth_name(old(self).view(), id, name@),
    {
        if !self.explicit.contains(&id) {
            self.set_name(id, name);
        }
    }

    fn resolve_name(&self, id: u32) -> (r: String)
        ensures
            r@ == resolve(self.view().names, id),
    {
        match self.names.get(&id) {
            Some(n) => n.clone(),
            None => decimal_string(id),
        }
    }

    fn name_result(&mut self, inst: &Instruction, name: String) -> (r: Result<(), StructureError>)
        requires
            old(self).wf(),
        ensures
            final(self).wf(),
            match name_result(old(self).view(), *inst, name@) {
                Some(st) => r is Ok && final(self).view() == st,
                None => r is Err && r->Err_0.opcode == inst.opcode,
            },
    {
        match inst.result_id {
            Some(id) => {
                self.set_synthesized_name(id, name);
                Ok(())
            },
            None => Err(StructureError { opcode: inst.opcode }),
        }
    }
}

proof fn lemma_vector_map_insert(m: Map<u32, (u32, String)>, k: u32, v: (u32, String))
    ensures
        m.insert(k, v).map_values(|p: (u32, String)| (p.0, p.1@)) == m.map_values(
            |p: (u32, String)| (p.0, p.1@),
        ).insert(k, (v.0, v.1@)),
{
    assert(m.insert(k, v).map_values(|p: (u32, String)| (p.0, p.1@)) =~= m.map_values(
        |p: (u32, String)| (p.0, p.1@),
    ).insert(k, (v.0, v.1@)));
}

impl SymbolBuilder {
    fn apply_string(&mut self, inst: &Instruction) -> (r: Result<(), StructureError>)
        requires
            old(self).wf(),
            inst.opcode == OP_STRING,
        ensures
            final(self).wf(),
            match step(old(self).view(), *inst) {
                Some(st) => r is Ok && final(self).view() == st,
                None => r is Err && r->Err_0.opcode == inst.opcode,
            },
    {
        match (inst.result_id, str_operand(&inst.operands, 0)) {
            (Some(id), Some(s)) => {
                proof {
                    lemma_str_map_insert(self.strings@, id, s);
                }
                self.strings.insert(id, s);
                Ok(())
            },
            _ => Err(StructureError { opcode: inst.opcode }),
        }
    }

    fn apply_name(&mut self, inst: &Instruction) -> (r: Result<(), StructureError>)
        requires
            old(self).wf(),
            inst.opcode == OP_NAME,
        ensures
            final(self).wf(),
            match step(old(self).view(), *inst) {
                Some(st) => r is Ok && final(self).view() == st,
                None => r is Err && r->Err_0.opcode == inst.opcode,
            },
    {
        match (id_operand(&inst.operands, 0), str_operand(&inst.operands, 1)) {
            (Some(id), Some(s)) => {
                self.set_name(id, s);
                self.explicit.insert(id);
                Ok(())
            },
            _ => Err(StructureError { opcode: inst.opcode }),
        }
    }

    fn apply_int(&mut self, inst: &Instruction) -> (r: Result<(), StructureError>)
        requires
            old(self).wf(),
            inst.opcode == OP_TYPE_INT,
        ensures
            final(self).wf(),
            match step(old(self).view(), *inst) {
                Some(st) => r is Ok && final(self).view() == st,
                None => r is Err && r->Err_0.opcode == inst.opcode,
            },
    {
        match (int_operand(&inst.operands, 0), int_operand(&inst.operands, 1)) {
            (Some(bits), Some(sign)) => {
                let prefix = if sign == 1 {
                    String::from_str("i")
                } else {
                    String::from_str("u")
                };
                let name = concat(prefix, decimal_string(bits).as_str());
                self.name_result(inst, name)
            },
            _ => Err(StructureError { opcode: inst.opcode }),
        }
    }

    fn apply_float(&mut self, inst: &Instruction) -> (r: Result<(), StructureError>)
        requires
            old(self).wf(),
            inst.opcode == OP_TYPE_FLOAT,
        ensures
            final(self).wf(),
            match step(old(self).view(), *inst) {
                Some(st) => r is Ok && final(self).view() == st,
                None => r is Err && r->Err_0.opcode == inst.opcode,
            },
    {
        match int_operand(&inst.operands, 0) {
            Some(bits) => {
                let name = concat(String::from_str("f"), decimal_string(bits).as_str());
                self.name_result(inst, name)
            },
            None => Err(StructureError { opcode: inst.opcode }),
        }
    }

    fn apply_function_type(&mut self, inst: &Instruction) -> (r: Result<(), StructureError>)
        requires
            old(self).wf(),
            inst.opcode == OP_TYPE_FUNCTION,
        ensures
            final(self).wf(),
            match step(old(self).view(), *inst) {
                Some(st) => r is Ok && final(self).view() == st,
                None => r is Err && r->Err_0.opcode == inst.opcode,
            },
    {
        let ghost ops = inst.operands@;
        let ret = match id_operand(&inst.operands, 0) {
            Some(ret) => ret,
            None => {
                return Err(StructureError { opcode: inst.opcode });
            },
        };
        let ret_name = self.resolve_name(ret);
        let mut args: Vec<String> = Vec::new();
        let mut i: usize = 1;
        while i < inst.operands.len()
            invariant
                1 <= i <= ops.len(),
                ops == inst.operands@,
                inst.opcode == OP_TYPE_FUNCTION,
                id_at(ops, 0) is Some,
                self.wf(),
                *self == *old(self),
                args@.len() == i - 1,
                forall|j: int| 1 <= j < i ==> (#[trigger] id_at(ops, j)) is Some,
                forall|j: int|
                    0 <= j < args@.len() ==> #[trigger] args@[j]@ == resolve(
                        self.view().names,
                        id_at(ops, j + 1)->0,
                    ),
            decreases ops.len() - i,
        {
            match id_operand(&inst.operands, i) {
                Some(id) => {
                    args.push(self.resolve_name(id));
                },
                None => {
                    return Err(StructureError { opcode: inst.opcode });
                },
            }
            i = i + 1;
        }
        assert(views(args@) =~= argument_names(self.view().names, ops));
        let joined = join_strings(&args, ";");
        let name = concat(
            concat(concat(String::from_str("fn("), joined.as_str()), ")"),
            ret_name.as_str(),
        );
        self.name_result(inst, name)
    }

    fn apply_pointer(&mut self, inst: &Instruction) -> (r: Result<(), StructureError>)
        requires
            old(self).wf(),
            inst.opcode == OP_TYPE_POINTER,
        ensures
            final(self).wf(),
            match step(old(self).view(), *inst) {
                Some(st) => r is Ok && final(self).view() == st,
                None => r is Err && r->Err_0.opcode == inst.opcode,
            },
    {
        match (class_operand(&inst.operands, 0), id_operand(&inst.operands, 1)) {
            (Some(c), Some(t)) => match storage_class_abbreviation(c) {
                Some(a) => {
                    let pointee = self.resolve_name(t);
                    let name = concat(
                        concat(concat(String::from_str("p"), a), "*"),
                        pointee.as_str(),
                    );
                    self.name_result(inst, name)
                },
                None => Err(StructureError { opcode: inst.opcode }),
            },
            _ => Err(StructureError { opcode: inst.opcode }),
        }
    }

    fn apply_vector(&mut self, inst: &Instruction) -> (r: Result<(), StructureError>)
        requires
            old(self).wf(),
            inst.opcode == OP_TYPE_VECTOR,
        ensures
            final(self).wf(),
            match step(old(self).view(), *inst) {
                Some(st) => r is Ok && final(self).view() == st,
                None => r is Err && r->Err_0.opcode == inst.opcode,
            },
    {
        match (inst.result_id, id_operand(&inst.operands, 0), int_operand(&inst.operands, 1)) {
            (Some(id), Some(c), Some(n)) => {
                let component = self.resolve_name(c);
                let name = concat(
                    concat(decimal_string(n), "x"),
                    component.as_str(),
                );
                proof {
                    lemma_vector_map_insert(self.vectors@, id, (n, component));
                }
                self.vectors.insert(id, (n, component));
                self.set_synthesized_name(id, name);
                Ok(())
            },
            _ => Err(StructureError { opcode: inst.opcode }),
        }
    }

    fn apply_matrix(&mut self, inst: &Instruction) -> (r: Result<(), StructureError>)
        requires
            old(self).wf(),
            inst.opcode == OP_TYPE_MATRIX,
        ensures
            final(self).wf(),
            match step(old(self).view(), *inst) {
                Some(st) => r is Ok && final(self).view() == st,
                None => r is Err && r->Err_0.opcode == inst.opcode,
            },
    {
        match (id_operand(&inst.operands, 0), int_operand(&inst.operands, 1)) {
            (Some(v), Some(cols)) => {
                let name = match self.vectors.get(&v) {
                    Some(entry) => {
                        let rows = entry.0;
                        concat(
                            concat(
                                concat(concat(decimal_string(rows), "x"), decimal_string(cols).as_str()),
                                "x",
                            ),
                            entry.1.as_str(),
                        )
                    },
                    None => {
                        return Err(StructureError { opcode: inst.opcode });
                    },
                };
                self.name_result(inst, name)
            },
            _ => Err(StructureError { opcode: inst.opcode }),
        }
    }

    fn apply_array(&mut self, inst: &Instruction) -> (r: Result<(), StructureError>)
        requires
            old(self).wf(),
            inst.opcode == OP_TYPE_ARRAY,
        ensures
            final(self).wf(),
            match step(old(self).view(), *inst) {
                Some(st) => r is Ok && final(self).view() == st,
                None => r is Err && r->Err_0.opcode == inst.opcode,
            },
    {
        match (id_operand(&inst.operands, 0), id_operand(&inst.operands, 1)) {
            (Some(e), Some(c)) => {
                let count = match self.constants.get(&c) {
                    Some(count) => *count,
                    None => {
                        return Err(StructureError { opcode: inst.opcode });
                    },
                };
                let element = self.resolve_name(e);
                let name = concat(
                    concat(
                        concat(concat(String::from_str("["), element.as_str()), ";"),
                        decimal_string(count).as_str(),
                    ),
                    "]",
                );
                self.name_result(inst, name)
            },
            _ => Err(StructureError { opcode: inst.opcode }),
        }
    }

    fn apply_runtime_array(&mut self, inst: &Instruction) -> (r: Result<(), StructureError>)
        requires
            old(self).wf(),
            inst.opcode == OP_TYPE_RUNTIME_ARRAY,
        ensures
            final(self).wf(),
            match step(old(self).view(), *inst) {
                Some(st) => r is Ok && final(self).view() == st,
                None => r is Err && r->Err_0.opcode == inst.opcode,
            },
    {
        match id_operand(&inst.operands, 0) {
            Some(e) => {
                let element = self.resolve_name(e);
                let name = concat(concat(String::from_str("["), element.as_str()), "]");
                self.name_result(inst, name)
            },
            None => Err(StructureError { opcode: inst.opcode }),
        }
    }

    fn apply_constant(&mut self, inst: &Instruction) -> (r: Result<(), StructureError>)
        requires
            old(self).wf(),
            inst.opcode == OP_CONSTANT,
        ensures
            final(self).wf(),
            match step(old(self).view(), *inst) {
                Some(st) => r is Ok && final(self).view() == st,
                None => r is Err && r->Err_0.opcode == inst.opcode,
            },
    {
        match (inst.result_id, inst.result_type) {
            (Some(id), Some(t)) => {
                if inst.operands.len() < 1 {
                    return Err(StructureError { opcode: inst.opcode });
                }
                let result_type_name = self.resolve_name(t);
                let value = operand_literal_text(&inst.operands[0]);
                let name = concat(value, result_type_name.as_str());
                match int_operand(&inst.operands, 0) {
                    Some(v) => {
                        self.constants.insert(id, v);
                    },
                    None => {},
                }
                self.set_synthesized_name(id, name);
                Ok(())
            },
            _ => Err(StructureError { opcode: inst.opcode }),
        }
    }

    fn apply(&mut self, inst: &Instruction) -> (r: Result<(), StructureError>)
        requires
            old(self).wf(),
        ensures
            final(self).wf(),
            match step(old(self).view(), *inst) {
                Some(st) => r is Ok && final(self).view() == st,
                None => r is Err && r->Err_0.opcode == inst.opcode,
            },
    {
        let op = inst.opcode;
        if op == OP_STRING {
            self.apply_string(inst)
        } else if op == OP_NAME {
            self.apply_name(inst)
        } else if op == OP_TYPE_VOID {
            self.name_result(inst, String::from_str("void"))
        } else if op == OP_TYPE_BOOL {
            self.name_result(inst, String::from_str("bool"))
        } else if op == OP_TYPE_ACCELERATION_STRUCTURE {
            self.name_result(inst, String::from_str("AccelerationStructure"))
        } else if op == OP_TYPE_INT {
            self.apply_int(inst)
        } else if op == OP_TYPE_FLOAT {
            self.apply_float(inst)
        } else if op == OP_TYPE_FUNCTION {
            self.apply_function_type(inst)
        } else if op == OP_TYPE_POINTER {
            self.apply_pointer(inst)
        } else if op == OP_TYPE_VECTOR {
            self.apply_vector(inst)
        } else if op == OP_TYPE_MATRIX {
            self.apply_matrix(inst)
        } else if op == OP_TYPE_ARRAY {
            self.apply_array(inst)
        } else if op == OP_TYPE_RUNTIME_ARRAY {
            self.apply_runtime_array(inst)
        } else if op == OP_CONSTANT {
            self.apply_constant(inst)
        } else if op == OP_CONSTANT_TRUE {
            self.name_result(inst, String::from_str("true"))
        } else if op == OP_CONSTANT_FALSE {
            self.name_result(inst, String::from_str("false"))
        } else if op == OP_CONSTANT_NULL {
            self.name_result(inst, String::from_str("null"))
        } else {
            Ok(())
        }
    }
}

pub(crate) fn id_operand(ops: &Vec<Operand>, i: usize) -> (r: Option<u32>)
    ensures
        r == id_at(ops@, i as int),
{
    if i < ops.len() {
        match &ops[i] {
            Operand::IdRef(id) => Some(*id),
            _ => None,
        }
    } else {
        None
    }
}

pub(crate) fn int_operand(ops: &Vec<Operand>, i: usize) -> (r: Option<u32>)
    ensures
        r == int_at(ops@, i as int),
{
    if i < ops.len() {
        match &ops[i] {
            Operand::LiteralInt32(v) => Some(*v),
            _ => None,
        }
    } else {
        None
    }
}

fn str_operand(ops: &Vec<Operand>, i: usize) -> (r: Option<String>)
    ensures
        r is Some <==> str_at(ops@, i as int) is Some,
        r is Some ==> r->0@ == str_at(ops@, i as int)->0,
{
    if i < ops.len() {
        match &ops[i] {
            Operand::LiteralString(s) => Some(s.clone()),
            _ => None,
        }
    } else {
        None
    }
}

fn class_operand(ops: &Vec<Operand>, i: usize) -> (r: Option<u32>)
    ensures
        r == class_at(ops@, i as int),
{
    if i < ops.len() {
        match &ops[i] {
            Operand::StorageClass(c) => Some(*c),
            _ => None,
        }
    } else {
        None
    }
}

fn concat(a: String, b: &str) -> (r: String)
    ensures
        r@ == a@ + b@,
{
    let mut a = a;
    a.append(b);
    a
}

} // verus!

verus! {

impl SymbolBuilder {
    /// Whether another id shares the name of `id`.
    fn shares_name(&self, id: u32, name: &String) -> (shared: bool)
        requires
            self.wf(),
            self.view().names.contains_key(id),
            name@ == self.view().names[id],
        ensures
            shared == collides(self.view().names, id),
    {
        let ghost m = self.view().names;
        let mut shared = false;
        let mut j: usize = 0;
        while j < self.ids.len()
            invariant
                self.wf(),
                m == self.view().names,
                j <= self.ids@.len(),
                m.contains_key(id),
                name@ == m[id],
                shared ==> collides(m, id),
                !shared ==> forall|l: int|
                    0 <= l < j ==> #[trigger] self.ids@[l] == id || m[self.ids@[l]] != m[id],
                forall|k: u32| m.contains_key(k) <==> #[trigger] self.ids@.contains(k),
            decreases self.ids@.len() - j,
        {
            let other = self.ids[j];
            if other != id {
                assert(self.ids@.contains(other));
                match self.names.get(&other) {
                    Some(n) => {
                        assert(m.contains_key(other) && m[other] == n@);
                        if *n == *name {
                            shared = true;
                            assert(other != id && m.contains_key(other) && m[other] == m[id]);
                        }
                    },
                    None => {},
                }
            }
            j = j + 1;
        }
        proof {
            if !shared && collides(m, id) {
                let o = choose|o: u32| o != id && #[trigger] m.contains_key(o) && m[o] == m[id];
                assert(self.ids@.contains(o));
                let l = choose|l: int| 0 <= l < self.ids@.len() && self.ids@[l] == o;
                assert(self.ids@[l] == o);
            }
        }
        shared
    }

    /// Whether `name` equals the suffixed name of an id in `marked`.
    fn equals_marked_suffixed(&self, name: &String, marked: &HashSet<u32>) -> (r: bool)
        requires
            self.wf(),
        ensures
            r ==> exists|b: u32|
                #[trigger] self.view().names.contains_key(b) && marked@.contains(b) && name@
                    == suffixed(self.view().names[b], b),
            !r ==> forall|b: u32|
                #[trigger] self.view().names.contains_key(b) && marked@.contains(b) ==> name@
                    != suffixed(self.view().names[b], b),
    {
        let ghost m = self.view().names;
        let mut j: usize = 0;
        while j < self.ids.len()
            invariant
                self.wf(),
                m == self.view().names,
                j <= self.ids@.len(),
                forall|k: u32| m.contains_key(k) <==> #[trigger] self.ids@.contains(k),
                forall|l: int|
                    0 <= l < j && marked@.contains(#[trigger] self.ids@[l]) ==> name@ != suffixed(
                        m[self.ids@[l]],
                        self.ids@[l],
                    ),
            decreases self.ids@.len() - j,
        {
            let b = self.ids[j];
            assert(self.ids@.contains(b));
            if marked.contains(&b) {
                match self.names.get(&b) {
                    Some(n) => {
                        proof {
                            reveal_strlit("_");
                        }
                        let candidate = concat(concat(n.clone(), "_"), decimal_string(b).as_str());
                        assert(m.contains_key(b) && m[b] == n@);
                        assert(candidate@ =~= suffixed(m[b], b));
                        if candidate == *name {
                            assert(m.contains_key(b) && marked@.contains(b) && name@ == suffixed(
                                m[b],
                                b,
                            ));
                            return true;
                        }
                    },
                    None => {},
                }
            }
            j = j + 1;
        }
        proof {
            assert forall|b: u32|
                #[trigger] m.contains_key(b) && marked@.contains(b) implies name@ != suffixed(
                m[b],
                b,
            ) by {
                assert(self.ids@.contains(b));
                let l = choose|l: int| 0 <= l < self.ids@.len() && self.ids@[l] == b;
                assert(marked@.contains(self.ids@[l]));
            }
        }
        false
    }

    /// The ids that need the suffix: first those whose name another id shares,
    /// then, until nothing changes, those whose name equals the suffixed name
    /// of one already found.
    fn ids_needing_suffix(&self) -> (marked: HashSet<u32>)
        requires
            self.wf(),
        ensures
            forall|k: u32|
                #[trigger] self.view().names.contains_key(k) ==> (marked@.contains(k)
                    <==> needs_suffix(self.view().names, k)),
    {
        let ghost m = self.view().names;
        let mut marked: HashSet<u32> = HashSet::new();
        let mut i: usize = 0;
        while i < self.ids.len()
            invariant
                self.wf(),
                m == self.view().names,
                i <= self.ids@.len(),
                forall|k: u32| m.contains_key(k) <==> #[trigger] self.ids@.contains(k),
                forall|x: u32| #[trigger] marked@.contains(x) ==> m.contains_key(x) && needs_suffix(m, x),
                forall|l: int|
                    0 <= l < i && collides(m, #[trigger] self.ids@[l]) ==> marked@.contains(
                        self.ids@[l],
                    ),
            decreases self.ids@.len() - i,
        {
            let id = self.ids[i];
            assert(self.ids@.contains(id));
            let name = match self.names.get(&id) {
                Some(n) => n,
                None => {
                    proof {
                        assert(false);
                    }
                    return marked;
                },
            };
            if self.shares_name(id, name) {
                marked.insert(id);
            }
            i = i + 1;
        }
        proof {
            assert forall|x: u32| m.contains_key(x) && collides(m, x) implies #[trigger] marked@.contains(x) by {
                assert(self.ids@.contains(x));
                let l = choose|l: int| 0 <= l < self.ids@.len() && self.ids@[l] == x;
                assert(collides(m, self.ids@[l]));
            }
        }
        proof {
            assert(self.names@.dom().finite());
            assert(m.dom() =~= self.names@.dom());
        }
        let mut stable = false;
        while !stable
            invariant
                self.wf(),
                m == self.view().names,
                m.dom().finite(),
                forall|k: u32| m.contains_key(k) <==> #[trigger] self.ids@.contains(k),
                forall|x: u32| #[trigger] marked@.contains(x) ==> m.contains_key(x) && needs_suffix(m, x),
                forall|x: u32| m.contains_key(x) && collides(m, x) ==> #[trigger] marked@.contains(x),
                stable ==> forall|x: u32, b: u32|
                    #[trigger] m.contains_key(x) && !marked@.contains(x) && #[trigger] marked@.contains(b)
                        ==> m[x] != suffixed(m[b], b),
            decreases m.dom().len() - marked@.len() + (if stable { 0int } else { 1int }),
        {
            proof {
                assert(marked@.subset_of(m.dom()));
                vstd::set_lib::lemma_len_subset(marked@, m.dom());
            }
            let ghost start = marked@;
            let mut changed = false;
            let mut i: usize = 0;
            while i < self.ids.len()
                invariant
                    self.wf(),
                    m == self.view().names,
                    m.dom().finite(),
                    i <= self.ids@.len(),
                    start.subset_of(marked@),
                    start.finite(),
                    forall|k: u32| m.contains_key(k) <==> #[trigger] self.ids@.contains(k),
                    forall|x: u32| #[trigger] marked@.contains(x) ==> m.contains_key(x) && needs_suffix(m, x),
                    forall|x: u32| m.contains_key(x) && collides(m, x) ==> #[trigger] marked@.contains(x),
                    !changed ==> marked@ == start,
                    changed ==> marked@.len() > start.len(),
                    marked@.finite(),
                    !changed ==> forall|l: int, b: u32|
                        0 <= l < i && !marked@.contains(#[trigger] self.ids@[l]) && #[trigger] marked@.contains(b)
                            ==> m[self.ids@[l]] != suffixed(m[b], b),
                decreases self.ids@.len() - i,
            {
                let a = self.ids[i];
                assert(self.ids@.contains(a));
                if !marked.contains(&a) {
                    let name = match self.names.get(&a) {
                        Some(n) => n,
                        None => {
                            proof {
                                assert(false);
                            }
                            return marked;
                        },
                    };
                    if self.equals_marked_suffixed(name, &marked) {
                        proof {
                            let b = choose|b: u32|
                                #[trigger] m.contains_key(b) && marked@.contains(b) && name@
                                    == suffixed(m[b], b);
                            assert(needs_suffix(m, b));
                            assert(m[b].len() < m[a].len());
                            assert(needs_suffix(m, a));
                            vstd::set_lib::lemma_len_subset(start, marked@);
                        }
                        marked.insert(a);
                        changed = true;
                    }
                }
                i = i + 1;
            }
            proof {
                assert(marked@.subset_of(m.dom()));
                vstd::set_lib::lemma_len_subset(marked@, m.dom());
            }
            if !changed {
                stable = true;
                proof {
                    assert forall|x: u32, b: u32|
                        #[trigger] m.contains_key(x) && !marked@.contains(x) && #[trigger] marked@.contains(b)
                            implies m[x] != suffixed(m[b], b) by {
                        assert(self.ids@.contains(x));
                        let l = choose|l: int| 0 <= l < self.ids@.len() && self.ids@[l] == x;
                        assert(!marked@.contains(self.ids@[l]));
                    }
                }
            }
        }
        proof {
            assert forall|k: u32| #[trigger] m.contains_key(k) implies (marked@.contains(k)
                <==> needs_suffix(m, k)) by {
                if needs_suffix(m, k) {
                    lemma_closed_marks_all(m, marked@, k);
                }
            }
        }
        marked
    }

    /// The names with collisions resolved.
    fn resolved_names(&self) -> (r: HashMap<u32, String>)
        requires
            self.wf(),
        ensures
            str_map(r@) == resolve_collisions(self.view().names),
    {
        let ghost m = self.view().names;
        let marked = self.ids_needing_suffix();
        let mut out: HashMap<u32, String> = HashMap::new();
        let mut i: usize = 0;
        while i < self.ids.len()
            invariant
                self.wf(),
                m == self.view().names,
                i <= self.ids@.len(),
                forall|k: u32| m.contains_key(k) <==> #[trigger] self.ids@.contains(k),
                forall|k: u32| #[trigger] m.contains_key(k) ==> (marked@.contains(k) <==> needs_suffix(m, k)),
                forall|k: u32| #[trigger]
                    out@.contains_key(k) <==> self.ids@.subrange(0, i as int).contains(k),
                forall|k: u32| #[trigger] out@.contains_key(k) ==> out@[k]@ == resolved_name(m, k),
            decreases self.ids@.len() - i,
        {
            let id = self.ids[i];
            assert(self.ids@.contains(id));
            let name = match self.names.get(&id) {
                Some(n) => n,
                None => {
                    proof {
                        assert(false);
                    }
                    return out;
                },
            };
            let value = if marked.contains(&id) {
                proof {
                    reveal_strlit("_");
                }
                concat(concat(name.clone(), "_"), decimal_string(id).as_str())
            } else {
                name.clone()
            };
            out.insert(id, value);
            i = i + 1;
            assert(forall|k: u32| #[trigger]
                self.ids@.subrange(0, i as int).contains(k) <==> self.ids@.subrange(
                    0,
                    i - 1,
                ).contains(k) || k == id) by {
                let a = self.ids@.subrange(0, i as int);
                let b = self.ids@.subrange(0, i - 1);
                assert(forall|l: int| 0 <= l < b.len() ==> a[l] == b[l]);
                assert(a[i - 1] == id);
            }
        }
        assert(self.ids@.subrange(0, self.ids@.len() as int) =~= self.ids@);
        assert(str_map(out@) =~= resolve_collisions(m));
        out
    }
}

impl ModuleInfo {
    /// Builds the symbol table of a module in one pass over its instructions,
    /// where a name declaration wins over any synthesized type or constant
    /// name; then gives `name_<id>` to every id whose name another id shares,
    /// and to every id whose name equals such a suffixed name (repeated until
    /// nothing changes), leaving every other name untouched, so that distinct
    /// ids get distinct names. A structurally invalid instruction is the fatal
    /// structural error: no table comes back, only its opcode.
    /// Fails at the first structurally invalid instruction.
    pub fn create(insts: &Vec<Instruction>) -> (r: Result<ModuleInfo, StructureError>)
        ensures
            match gather(insts@) {
                Ok(st) => r is Ok && r->Ok_0.strings_view() == st.strings
                    && r->Ok_0.names_view() == resolve_collisions(st.names),
                Err(op) => r is Err && r->Err_0.opcode == op,
            },
            r is Ok ==> names_distinct(r->Ok_0.names_view()),
    {
        let mut b = SymbolBuilder::new();
        let mut i: usize = 0;
        while i < insts.len()
            invariant
                i <= insts@.len(),
                b.wf(),
                gather(insts@.subrange(0, i as int)) == Ok::<SymbolState, u32>(b.view()),
            decreases insts@.len() - i,
        {
            let ghost before = b.view();
            let res = b.apply(&insts[i]);
            assert(insts@.subrange(0, i + 1).drop_last() =~= insts@.subrange(0, i as int));
            match res {
                Ok(()) => {},
                Err(e) => {
                    proof {
                        lemma_gather_stays_failed(insts@, i + 1);
                    }
                    return Err(e);
                },
            }
            i = i + 1;
        }
        assert(insts@.subrange(0, insts@.len() as int) =~= insts@);
        let names = b.resolved_names();
        proof {
            lemma_resolved_names_unique(b.view().names);
        }
        Ok(ModuleInfo { strings: b.strings, names })
    }

    /// `%` and the name of `id`, or `%` and its number where it has none.
    pub fn operand_name(&self, id: u32) -> (r: String)
        ensures
            r@ == display_name(self.names_view(), id),
    {
        proof {
            reveal_strlit("%");
        }
        let mut s = String::from_str("%");
        match self.names.get(&id) {
            Some(n) => s.append(n.as_str()),
            None => s.append(decimal_string(id).as_str()),
        }
        s
    }

    /// The structured disassembly of one instruction against this table.
    pub fn disassemble_instruction(&self, inst: &Instruction) -> (r: InstructionDisassembly)
        ensures
            r.view() == disassemble(self.names_view(), *inst),
    {
        let result = match inst.result_id {
            Some(id) => Some(self.operand_name(id)),
            None => None,
        };
        let result_type = match inst.result_type {
            Some(id) => Some(self.operand_name(id)),
            None => None,
        };
        let name = concat(String::from_str("Op"), inst.opname.as_str());
        let mut operands: Vec<String> = Vec::new();
        let mut i: usize = 0;
        while i < inst.operands.len()
            invariant
                i <= inst.operands@.len(),
                operands@.len() == i,
                forall|j: int|
                    0 <= j < i ==> #[trigger] operands@[j]@ == operand_text(
                        self.names_view(),
                        inst.operands@[j],
                    ),
            decreases inst.operands@.len() - i,
        {
            let text = match &inst.operands[i] {
                Operand::IdRef(id) => self.operand_name(*id),
                other => operand_literal_text(other),
            };
            operands.push(text);
            i = i + 1;
        }
        let r = InstructionDisassembly { result, result_type, name, operands };
        assert(r.view().operands =~= inst.operands@.map_values(
            |o: Operand| operand_text(self.names_view(), o),
        ));
        r
    }
}

proof fn lemma_gather_stays_failed(insts: Seq<Instruction>, n: int)
    requires
        0 < n <= insts.len(),
        gather(insts.subrange(0, n - 1)) is Ok,
        step(gather(insts.subrange(0, n - 1))->Ok_0, insts[n - 1]) is None,
    ensures
        gather(insts) == Err::<SymbolState, u32>(insts[n - 1].opcode),
    decreases insts.len() - n,
{
    assert(insts.subrange(0, n).drop_last() =~= insts.subrange(0, n - 1));
    if n == insts.len() {
        assert(insts.subrange(0, n) =~= insts);
    } else {
        lemma_gather_failed_prefix(insts, n);
    }
}

proof fn lemma_gather_failed_prefix(insts: Seq<Instruction>, n: int)
    requires
        0 < n <= insts.len(),
        gather(insts.subrange(0, n)) is Err,
    ensures
        gather(insts) == gather(insts.subrange(0, n)),
    decreases insts.len() - n,
{
    if n < insts.len() {
        assert(insts.subrange(0, n + 1).drop_last() =~= insts.subrange(0, n));
        lemma_gather_failed_prefix(insts, n + 1);
    } else {
        assert(insts.subrange(0, n) =~= insts);
    }
}

/// `%` and the name of `id`, or `%` and its number where the table has none.
pub open spec fn display_name(names: Map<u32, Seq<char>>, id: u32) -> Seq<char> {
    seq!['%'] + resolve(names, id)
}

/// An id reference shows as its display name; every other operand as the
/// decoder's text for it.
pub open spec fn operand_text(names: Map<u32, Seq<char>>, o: Operand) -> Seq<char> {
    match o {
        Operand::IdRef(id) => display_name(names, id),
        _ => literal_text(o),
    }
}

/// The disassembly of one instruction, as plain text values.
pub struct DisassemblyView {
    pub result: Option<Seq<char>>,
    pub result_type: Option<Seq<char>>,
    pub name: Seq<char>,
    pub operands: Seq<Seq<char>>,
}

pub open spec fn disassemble(names: Map<u32, Seq<char>>, inst: Instruction) -> DisassemblyView {
    DisassemblyView {
        result: match inst.result_id {
            Some(id) => Some(display_name(names, id)),
            None => None,
        },
        result_type: match inst.result_type {
            Some(id) => Some(display_name(names, id)),
            None => None,
        },
        name: "Op"@ + inst.opname@,
        operands: inst.operands@.map_values(|o: Operand| operand_text(names, o)),
    }
}

pub open spec fn opt_view(o: Option<String>) -> Option<Seq<char>> {
    match o {
        Some(s) => Some(s@),
        None => None,
    }
}

/// The disassembly of one instruction: result and result type display names,
/// the mnemonic, and the text of each operand.
pub struct InstructionDisassembly {
    pub result: Option<String>,
    pub result_type: Option<String>,
    pub name: String,
    pub operands: Vec<String>,
}

impl InstructionDisassembly {
    pub open spec fn view(&self) -> DisassemblyView {
        DisassemblyView {
            result: opt_view(self.result),
            result_type: opt_view(self.result_type),
            name: self.name@,
            operands: views(self.operands@),
        }
    }
}

} // verus!

verus! {

/// A name followed by `_` and a numeral determines the numeral.
proof fn lemma_suffix_determines_id(x: Seq<char>, y: Seq<char>, i: nat, j: nat)
    requires
        x + seq!['_'] + decimal(i) == y + seq!['_'] + decimal(j),
    ensures
        i == j,
{
    let s = x + seq!['_'] + decimal(i);
    let t = y + seq!['_'] + decimal(j);
    let li = decimal(i).len();
    let lj = decimal(j).len();
    lemma_decimal_digits(i);
    lemma_decimal_digits(j);
    if li < lj {
        let p = s.len() - li - 1;
        assert(s[p] == '_');
        assert(t[p] == decimal(j)[p - (t.len() - lj)]);
    } else if lj < li {
        let p = t.len() - lj - 1;
        assert(t[p] == '_');
        assert(s[p] == decimal(i)[p - (s.len() - li)]);
    } else {
        assert(decimal(i) =~= s.subrange(s.len() - li, s.len() as int));
        assert(decimal(j) =~= t.subrange(t.len() - lj, t.len() as int));
        lemma_decimal_injective(i, j);
    }
}

/// A set of ids that holds every colliding id, and every id whose name equals
/// the suffixed name of a member, holds every id that needs the suffix.
proof fn lemma_closed_marks_all(m: Map<u32, Seq<char>>, marked: Set<u32>, a: u32)
    requires
        m.contains_key(a),
        needs_suffix(m, a),
        forall|x: u32| m.contains_key(x) && collides(m, x) ==> #[trigger] marked.contains(x),
        forall|x: u32, b: u32|
            #[trigger] m.contains_key(x) && !marked.contains(x) && #[trigger] marked.contains(b)
                ==> m[x] != suffixed(m[b], b),
    ensures
        marked.contains(a),
    decreases m[a].len(),
{
    if !collides(m, a) {
        let b = choose|b: u32|
            #[trigger] m.contains_key(b) && m[b].len() < m[a].len() && m[a] == suffixed(m[b], b)
                && needs_suffix(m, b);
        lemma_closed_marks_all(m, marked, b);
    }
}

/// After collision resolution no two ids carry the same name, in every table;
/// a name that no other id shares stays as it is unless it equals the
/// suffixed name of another.
pub proof fn lemma_resolved_names_unique(m: Map<u32, Seq<char>>)
    ensures
        names_distinct(resolve_collisions(m)),
{
    let r = resolve_collisions(m);
    assert forall|a: u32, b: u32|
        a != b && #[trigger] r.contains_key(a) && #[trigger] r.contains_key(b) implies r[a]
        != r[b] by {
        let sa = needs_suffix(m, a);
        let sb = needs_suffix(m, b);
        if r[a] == r[b] {
            if sa && sb {
                lemma_suffix_determines_id(m[a], m[b], a as nat, b as nat);
            } else if !sa && !sb {
                assert(b != a && m.contains_key(b) && m[b] == m[a]);
            } else if sb {
                assert(m[a] == suffixed(m[b], b));
                assert(m[b].len() < m[a].len());
            } else {
                assert(m[b] == suffixed(m[a], a));
                assert(m[a].len() < m[b].len());
            }
        }
    }
}

/// An id operand shows as `%` and its name where the table has one, and as `%`
/// and its number otherwise; never as its bare number.
pub proof fn lemma_id_operand_legible(names: Map<u32, Seq<char>>, id: u32)
    ensures
        names.contains_key(id) ==> operand_text(names, Operand::IdRef(id)) == seq!['%']
            + names[id],
        !names.contains_key(id) ==> operand_text(names, Operand::IdRef(id)) == seq!['%']
            + decimal(id as nat),
        operand_text(names, Operand::IdRef(id)) != decimal(id as nat),
{
    lemma_decimal_digits(id as nat);
    let t = operand_text(names, Operand::IdRef(id));
    assert(t[0] == '%');
    if t == decimal(id as nat) {
        assert(is_digit(decimal(id as nat)[0]));
    }
}

} // verus!
