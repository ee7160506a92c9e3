//! Decoded instructions as plain values, and the text of literal operands.
use crate::text::{decimal, decimal_string};
use vstd::prelude::*;

verus! {

pub const OP_SOURCE: u32 = 3;

pub const OP_NAME: u32 = 5;

pub const OP_STRING: u32 = 7;

pub const OP_LINE: u32 = 8;

pub const OP_TYPE_VOID: u32 = 19;

pub const OP_TYPE_BOOL: u32 = 20;

pub const OP_TYPE_INT: u32 = 21;

pub const OP_TYPE_FLOAT: u32 = 22;

pub const OP_TYPE_VECTOR: u32 = 23;

pub const OP_TYPE_MATRIX: u32 = 24;

pub const OP_TYPE_ARRAY: u32 = 28;

pub const OP_TYPE_RUNTIME_ARRAY: u32 = 29;

pub const OP_TYPE_POINTER: u32 = 32;

pub const OP_TYPE_FUNCTION: u32 = 33;

pub const OP_CONSTANT_TRUE: u32 = 41;

pub const OP_CONSTANT_FALSE: u32 = 42;

pub const OP_CONSTANT: u32 = 43;

pub const OP_CONSTANT_NULL: u32 = 46;

pub const OP_FUNCTION: u32 = 54;

pub const OP_TYPE_ACCELERATION_STRUCTURE: u32 = 5341;

/// One operand of a decoded instruction.
pub enum Operand {
    /// A reference to another id.
    IdRef(u32),
    /// A 32-bit literal number.
    LiteralInt32(u32),
    /// A literal string.
    LiteralString(String),
    /// A storage class, by its numeric value in the binary format.
    StorageClass(u32),
    /// Any other operand, held as the decoder's text for it.
    Other(String),
}

/// One decoded instruction: opcode and its textual name (without the `Op`
/// prefix), optional result id and result type id, and its operands in order.
pub struct Instruction {
    pub opcode: u32,
    pub opname: String,
    pub result_id: Option<u32>,
    pub result_type: Option<u32>,
    pub operands: Vec<Operand>,
}

/// What Debug formatting makes of a string: the string in double quotes, escaped.
pub uninterp spec fn quoted_of(s: Seq<char>) -> Seq<char>;

/// The name that the binary format's storage class enumeration gives to
/// `code`; empty for a value that it does not define.
pub open spec fn storage_class_name_of(code: u32) -> Seq<char> {
    if code == 0 {
        "UniformConstant"@
    } else if code == 1 {
        "Input"@
    } else if code == 2 {
        "Uniform"@
    } else if code == 3 {
        "Output"@
    } else if code == 4 {
        "Workgroup"@
    } else if code == 5 {
        "CrossWorkgroup"@
    } else if code == 6 {
        "Private"@
    } else if code == 7 {
        "Function"@
    } else if code == 8 {
        "Generic"@
    } else if code == 9 {
        "PushConstant"@
    } else if code == 10 {
        "AtomicCounter"@
    } else if code == 11 {
        "Image"@
    } else if code == 12 {
        "StorageBuffer"@
    } else if code == 5328 {
        "CallableDataNV"@
    } else if code == 5329 {
        "IncomingCallableDataNV"@
    } else if code == 5338 {
        "RayPayloadNV"@
    } else if code == 5339 {
        "HitAttributeNV"@
    } else if code == 5342 {
        "IncomingRayPayloadNV"@
    } else if code == 5343 {
        "ShaderRecordBufferNV"@
    } else if code == 5349 {
        "PhysicalStorageBuffer"@
    } else if code == 5605 {
        "CodeSectionINTEL"@
    } else {
        Seq::empty()
    }
}

/// The short code of each storage class of the binary format; `None` for a
/// value that the format does not define.
pub open spec fn storage_class_abbrev(code: u32) -> Option<Seq<char>> {
    if code == 0 {
        Some("UC"@)
    } else if code == 1 {
        Some("I"@)
    } else if code == 2 {
        Some("U"@)
    } else if code == 3 {
        Some("O"@)
    } else if code == 4 {
        Some("W"@)
    } else if code == 5 {
        Some("CW"@)
    } else if code == 6 {
        Some("P"@)
    } else if code == 7 {
        Some("F"@)
    } else if code == 8 {
        Some("G"@)
    } else if code == 9 {
        Some("PC"@)
    } else if code == 10 {
        Some("ACtr"@)
    } else if code == 11 {
        Some("I"@)
    } else if code == 12 {
        Some("SB"@)
    } else if code == 5328 {
        Some("Call"@)
    } else if code == 5329 {
        Some("ICall"@)
    } else if code == 5338 {
        Some("Ray"@)
    } else if code == 5339 {
        Some("Hit"@)
    } else if code == 5342 {
        Some("IRay"@)
    } else if code == 5343 {
        Some("SRB"@)
    } else if code == 5349 {
        Some("PSB"@)
    } else if code == 5605 {
        Some("Code"@)
    } else {
        None
    }
}

/// The short code of a storage class, or `None` for an undefined value.
pub fn storage_class_abbreviation(code: u32) -> (r: Option<&'static str>)
    ensures
        r is Some <==> storage_class_abbrev(code) is Some,
        r is Some ==> r->0@ == storage_class_abbrev(code)->0,
{
    if code == 0 {
        Some("UC")
    } else if code == 1 {
        Some("I")
    } else if code == 2 {
        Some("U")
    } else if code == 3 {
        Some("O")
    } else if code == 4 {
        Some("W")
    } else if code == 5 {
        Some("CW")
    } else if code == 6 {
        Some("P")
    } else if code == 7 {
        Some("F")
    } else if code == 8 {
        Some("G")
    } else if code == 9 {
        Some("PC")
    } else if code == 10 {
        Some("ACtr")
    } else if code == 11 {
        Some("I")
    } else if code == 12 {
        Some("SB")
    } else if code == 5328 {
        Some("Call")
    } else if code == 5329 {
        Some("ICall")
    } else if code == 5338 {
        Some("Ray")
    } else if code == 5339 {
        Some("Hit")
    } else if code == 5342 {
        Some("IRay")
    } else if code == 5343 {
        Some("SRB")
    } else if code == 5349 {
        Some("PSB")
    } else if code == 5605 {
        Some("Code")
    } else {
        None
    }
}

/// Relies on `spirv::StorageClass`'s `FromPrimitive::from_u32` and its derived
/// `Debug`: a value is known exactly when the enumeration defines it, and its
/// text is the variant's name.
#[verifier::external_body]
fn storage_class_debug_name(code: u32) -> (r: Option<String>)
    ensures
        r is Some <==> storage_class_abbrev(code) is Some,
        r is Some ==> r->0@ == storage_class_name_of(code),
{
    <spirv::StorageClass as num_traits::FromPrimitive>::from_u32(code).map(|c| format!("{:?}", c))
}

/// Relies on `Debug` for `String`: the string quoted and escaped.
#[verifier::external_body]
fn debug_quoted(s: &String) -> (r: String)
    ensures
        r@ == quoted_of(s@),
{
    format!("{:?}", s)
}

/// The text of a storage class value: its name, or its number when undefined.
pub open spec fn storage_class_text(code: u32) -> Seq<char> {
    if storage_class_abbrev(code) is Some {
        storage_class_name_of(code)
    } else {
        decimal(code as nat)
    }
}

/// The decoder's own text for an operand: `%<id>` for a reference, the number
/// for a literal number, the quoted string, the storage class name.
pub open spec fn literal_text(o: Operand) -> Seq<char> {
    match o {
        Operand::IdRef(id) => seq!['%'] + decimal(id as nat),
        Operand::LiteralInt32(v) => decimal(v as nat),
        Operand::LiteralString(s) => quoted_of(s@),
        Operand::StorageClass(c) => storage_class_text(c),
        Operand::Other(t) => t@,
    }
}

/// The decoder's own text for an operand.
pub fn operand_literal_text(o: &Operand) -> (r: String)
    ensures
        r@ == literal_text(*o),
{
    match o {
        Operand::IdRef(id) => {
            let mut s = String::from_str("%");
            proof {
                reveal_strlit("%");
            }
            s.append(decimal_string(*id).as_str());
            assert(s@ =~= seq!['%'] + decimal(*id as nat));
            s
        },
        Operand::LiteralInt32(v) => decimal_string(*v),
        Operand::LiteralString(s) => debug_quoted(s),
        Operand::StorageClass(c) => match storage_class_debug_name(*c) {
            Some(n) => n,
            None => decimal_string(*c),
        },
        Operand::Other(t) => t.clone(),
    }
}

} // verus!
