use shader_disasm::instruction::{Instruction, Operand};
use shader_disasm::module_info::ModuleInfo;
use shader_disasm::text::decimal_string;

fn inst(opcode: u32, opname: &str, result_id: Option<u32>, result_type: Option<u32>, operands: Vec<Operand>) -> Instruction {
    Instruction {
        opcode,
        opname: opname.to_string(),
        result_id,
        result_type,
        operands,
    }
}

fn name_of(info: &ModuleInfo, id: u32) -> String {
    info.names.get(&id).cloned().unwrap()
}

#[test]
fn vector_pointer_chain_names() {
    let insts = vec![
        inst(22, "TypeFloat", Some(1), None, vec![Operand::LiteralInt32(32)]),
        inst(23, "TypeVector", Some(2), None, vec![Operand::IdRef(1), Operand::LiteralInt32(4)]),
        inst(32, "TypePointer", Some(3), None, vec![Operand::StorageClass(7), Operand::IdRef(2)]),
    ];
    let info = ModuleInfo::create(&insts).ok().unwrap();
    assert_eq!(name_of(&info, 1), "f32");
    assert_eq!(name_of(&info, 2), "4xf32");
    assert_eq!(name_of(&info, 3), "pF*4xf32");
}

#[test]
fn same_explicit_name_is_suffixed_with_ids() {
    let insts = vec![
        inst(5, "Name", None, None, vec![Operand::IdRef(5), Operand::LiteralString("color".to_string())]),
        inst(5, "Name", None, None, vec![Operand::IdRef(6), Operand::LiteralString("color".to_string())]),
        inst(5, "Name", None, None, vec![Operand::IdRef(7), Operand::LiteralString("alone".to_string())]),
    ];
    let info = ModuleInfo::create(&insts).ok().unwrap();
    assert_eq!(name_of(&info, 5), "color_5");
    assert_eq!(name_of(&info, 6), "color_6");
    assert_eq!(name_of(&info, 7), "alone");
}

#[test]
fn array_of_constant_length() {
    let insts = vec![
        inst(21, "TypeInt", Some(1), None, vec![Operand::LiteralInt32(32), Operand::LiteralInt32(0)]),
        inst(43, "Constant", Some(2), Some(1), vec![Operand::LiteralInt32(10)]),
        inst(22, "TypeFloat", Some(3), None, vec![Operand::LiteralInt32(32)]),
        inst(28, "TypeArray", Some(4), None, vec![Operand::IdRef(3), Operand::IdRef(2)]),
    ];
    let info = ModuleInfo::create(&insts).ok().unwrap();
    assert_eq!(name_of(&info, 1), "u32");
    assert_eq!(name_of(&info, 2), "10u32");
    assert_eq!(name_of(&info, 4), "[f32;10]");
}

#[test]
fn scalar_and_composite_names() {
    let insts = vec![
        inst(19, "TypeVoid", Some(1), None, vec![]),
        inst(20, "TypeBool", Some(2), None, vec![]),
        inst(21, "TypeInt", Some(3), None, vec![Operand::LiteralInt32(64), Operand::LiteralInt32(1)]),
        inst(22, "TypeFloat", Some(4), None, vec![Operand::LiteralInt32(16)]),
        inst(23, "TypeVector", Some(5), None, vec![Operand::IdRef(4), Operand::LiteralInt32(3)]),
        inst(24, "TypeMatrix", Some(6), None, vec![Operand::IdRef(5), Operand::LiteralInt32(2)]),
        inst(29, "TypeRuntimeArray", Some(7), None, vec![Operand::IdRef(3)]),
        inst(33, "TypeFunction", Some(8), None, vec![Operand::IdRef(1)]),
        inst(33, "TypeFunction", Some(9), None, vec![Operand::IdRef(2), Operand::IdRef(3), Operand::IdRef(4)]),
        inst(41, "ConstantTrue", Some(10), Some(2), vec![]),
        inst(42, "ConstantFalse", Some(11), Some(2), vec![]),
        inst(46, "ConstantNull", Some(12), Some(5), vec![]),
        inst(5341, "TypeAccelerationStructureNV", Some(13), None, vec![]),
        inst(33, "TypeFunction", Some(14), None, vec![Operand::IdRef(99), Operand::IdRef(98)]),
    ];
    let info = ModuleInfo::create(&insts).ok().unwrap();
    assert_eq!(name_of(&info, 1), "void");
    assert_eq!(name_of(&info, 2), "bool");
    assert_eq!(name_of(&info, 3), "i64");
    assert_eq!(name_of(&info, 4), "f16");
    assert_eq!(name_of(&info, 5), "3xf16");
    assert_eq!(name_of(&info, 6), "3x2xf16");
    assert_eq!(name_of(&info, 7), "[i64]");
    assert_eq!(name_of(&info, 8), "fn()void");
    assert_eq!(name_of(&info, 9), "fn(i64;f16)bool");
    assert_eq!(name_of(&info, 10), "true");
    assert_eq!(name_of(&info, 11), "false");
    assert_eq!(name_of(&info, 12), "null");
    assert_eq!(name_of(&info, 13), "AccelerationStructure");
    assert_eq!(name_of(&info, 14), "fn(98)99");
}

#[test]
fn strings_are_recorded_raw() {
    let insts = vec![inst(7, "String", Some(4), None, vec![Operand::LiteralString("shader.glsl".to_string())])];
    let info = ModuleInfo::create(&insts).ok().unwrap();
    assert_eq!(info.strings.get(&4).cloned().unwrap(), "shader.glsl");
    assert!(info.names.is_empty());
}

#[test]
fn unknown_storage_class_is_an_error() {
    let insts = vec![
        inst(22, "TypeFloat", Some(1), None, vec![Operand::LiteralInt32(32)]),
        inst(32, "TypePointer", Some(2), None, vec![Operand::StorageClass(99), Operand::IdRef(1)]),
    ];
    let err = ModuleInfo::create(&insts).err().unwrap();
    assert_eq!(err.opcode, 32);
}

#[test]
fn matrix_of_unknown_vector_is_an_error() {
    let insts = vec![inst(24, "TypeMatrix", Some(2), None, vec![Operand::IdRef(1), Operand::LiteralInt32(4)])];
    assert_eq!(ModuleInfo::create(&insts).err().unwrap().opcode, 24);
}

#[test]
fn array_of_unknown_constant_is_an_error() {
    let insts = vec![
        inst(22, "TypeFloat", Some(1), None, vec![Operand::LiteralInt32(32)]),
        inst(28, "TypeArray", Some(2), None, vec![Operand::IdRef(1), Operand::IdRef(9)]),
    ];
    assert_eq!(ModuleInfo::create(&insts).err().unwrap().opcode, 28);
}

#[test]
fn wrong_operand_kind_is_an_error() {
    let insts = vec![inst(21, "TypeInt", Some(1), None, vec![Operand::IdRef(32), Operand::LiteralInt32(0)])];
    assert_eq!(ModuleInfo::create(&insts).err().unwrap().opcode, 21);
    let missing_result = vec![inst(19, "TypeVoid", None, None, vec![])];
    assert_eq!(ModuleInfo::create(&missing_result).err().unwrap().opcode, 19);
}

#[test]
fn first_malformed_instruction_is_reported() {
    let insts = vec![
        inst(20, "TypeBool", None, None, vec![]),
        inst(19, "TypeVoid", None, None, vec![]),
    ];
    assert_eq!(ModuleInfo::create(&insts).err().unwrap().opcode, 20);
}

#[test]
fn operand_names_resolve_or_show_the_id() {
    let insts = vec![
        inst(22, "TypeFloat", Some(1), None, vec![Operand::LiteralInt32(32)]),
        inst(59, "Variable", Some(3), Some(1), vec![Operand::StorageClass(7)]),
    ];
    let info = ModuleInfo::create(&insts).ok().unwrap();
    assert_eq!(info.operand_name(1), "%f32");
    assert_eq!(info.operand_name(42), "%42");
    let d = info.disassemble_instruction(&insts[1]);
    assert_eq!(d.result, Some("%3".to_string()));
    assert_eq!(d.result_type, Some("%f32".to_string()));
    assert_eq!(d.name, "OpVariable");
    assert_eq!(d.operands, vec!["Function".to_string()]);
}

#[test]
fn literal_operands_use_decoder_text() {
    let insts = vec![
        inst(22, "TypeFloat", Some(1), None, vec![Operand::LiteralInt32(32)]),
        inst(
            15,
            "EntryPoint",
            None,
            None,
            vec![
                Operand::Other("Fragment".to_string()),
                Operand::IdRef(1),
                Operand::LiteralString("main".to_string()),
                Operand::LiteralInt32(12),
                Operand::StorageClass(9999),
                Operand::IdRef(77),
            ],
        ),
    ];
    let info = ModuleInfo::create(&insts).ok().unwrap();
    let d = info.disassemble_instruction(&insts[1]);
    assert_eq!(d.result, None);
    assert_eq!(d.result_type, None);
    assert_eq!(
        d.operands,
        vec!["Fragment", "%f32", "\"main\"", "12", "9999", "%77"]
            .into_iter()
            .map(|s| s.to_string())
            .collect::<Vec<_>>()
    );
}

#[test]
fn constant_of_string_operand_is_quoted() {
    let insts = vec![
        inst(20, "TypeBool", Some(1), None, vec![]),
        inst(43, "Constant", Some(2), Some(1), vec![Operand::LiteralString("a\"b".to_string())]),
    ];
    let info = ModuleInfo::create(&insts).ok().unwrap();
    assert_eq!(name_of(&info, 2), "\"a\\\"b\"bool");
}

#[test]
fn names_unique_after_resolution() {
    let insts = vec![
        inst(22, "TypeFloat", Some(1), None, vec![Operand::LiteralInt32(32)]),
        inst(5, "Name", None, None, vec![Operand::IdRef(2), Operand::LiteralString("f32".to_string())]),
        inst(5, "Name", None, None, vec![Operand::IdRef(3), Operand::LiteralString("x".to_string())]),
        inst(5, "Name", None, None, vec![Operand::IdRef(4), Operand::LiteralString("x".to_string())]),
    ];
    let info = ModuleInfo::create(&insts).ok().unwrap();
    assert_eq!(name_of(&info, 1), "f32_1");
    assert_eq!(name_of(&info, 2), "f32_2");
    let mut all: Vec<String> = info.names.values().cloned().collect();
    all.sort();
    all.dedup();
    assert_eq!(all.len(), info.names.len());
}

#[test]
fn decimal_numerals() {
    assert_eq!(decimal_string(0), "0");
    assert_eq!(decimal_string(7), "7");
    assert_eq!(decimal_string(10), "10");
    assert_eq!(decimal_string(4294967295), "4294967295");
}

#[test]
fn explicit_names_take_precedence() {
    let insts = vec![
        inst(5, "Name", None, None, vec![Operand::IdRef(1), Operand::LiteralString("x".to_string())]),
        inst(5, "Name", None, None, vec![Operand::IdRef(3), Operand::LiteralString("v".to_string())]),
        inst(5, "Name", None, None, vec![Operand::IdRef(6), Operand::LiteralString("len".to_string())]),
        inst(22, "TypeFloat", Some(1), None, vec![Operand::LiteralInt32(32)]),
        inst(23, "TypeVector", Some(3), None, vec![Operand::IdRef(1), Operand::LiteralInt32(4)]),
        inst(24, "TypeMatrix", Some(4), None, vec![Operand::IdRef(3), Operand::LiteralInt32(2)]),
        inst(21, "TypeInt", Some(5), None, vec![Operand::LiteralInt32(32), Operand::LiteralInt32(0)]),
        inst(43, "Constant", Some(6), Some(5), vec![Operand::LiteralInt32(3)]),
        inst(28, "TypeArray", Some(7), None, vec![Operand::IdRef(1), Operand::IdRef(6)]),
        inst(5, "Name", None, None, vec![Operand::IdRef(5), Operand::LiteralString("uint".to_string())]),
    ];
    let info = ModuleInfo::create(&insts).ok().unwrap();
    assert_eq!(name_of(&info, 1), "x");
    assert_eq!(name_of(&info, 3), "v");
    assert_eq!(name_of(&info, 4), "4x2xx");
    assert_eq!(name_of(&info, 5), "uint");
    assert_eq!(name_of(&info, 6), "len");
    assert_eq!(name_of(&info, 7), "[x;3]");
}

#[test]
fn suffixed_names_never_meet_existing_ones() {
    let insts = vec![
        inst(5, "Name", None, None, vec![Operand::IdRef(5), Operand::LiteralString("a".to_string())]),
        inst(5, "Name", None, None, vec![Operand::IdRef(3), Operand::LiteralString("a".to_string())]),
        inst(5, "Name", None, None, vec![Operand::IdRef(7), Operand::LiteralString("a_3".to_string())]),
        inst(5, "Name", None, None, vec![Operand::IdRef(10), Operand::LiteralString("a_3_7".to_string())]),
        inst(5, "Name", None, None, vec![Operand::IdRef(4), Operand::LiteralString("_12".to_string())]),
        inst(5, "Name", None, None, vec![Operand::IdRef(8), Operand::LiteralString("a_8".to_string())]),
        inst(5, "Name", None, None, vec![Operand::IdRef(9), Operand::LiteralString("v_x2".to_string())]),
    ];
    let info = ModuleInfo::create(&insts).ok().unwrap();
    assert_eq!(name_of(&info, 5), "a_5");
    assert_eq!(name_of(&info, 3), "a_3");
    assert_eq!(name_of(&info, 7), "a_3_7");
    assert_eq!(name_of(&info, 10), "a_3_7_10");
    assert_eq!(name_of(&info, 4), "_12");
    assert_eq!(name_of(&info, 8), "a_8");
    assert_eq!(name_of(&info, 9), "v_x2");
    let mut all: Vec<String> = info.names.values().cloned().collect();
    all.sort();
    all.dedup();
    assert_eq!(all.len(), info.names.len());
}

#[test]
fn unique_names_stay_untouched() {
    let insts = vec![
        inst(5, "Name", None, None, vec![Operand::IdRef(5), Operand::LiteralString("tmp_2".to_string())]),
        inst(5, "Name", None, None, vec![Operand::IdRef(1), Operand::LiteralString("x_1".to_string())]),
        inst(22, "TypeFloat", Some(1), None, vec![Operand::LiteralInt32(32)]),
    ];
    let info = ModuleInfo::create(&insts).ok().unwrap();
    assert_eq!(name_of(&info, 5), "tmp_2");
    assert_eq!(name_of(&info, 1), "x_1");
}
