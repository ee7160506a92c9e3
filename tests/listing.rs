use shader_disasm::annotated_disassembly::AnnotatedDisassembly;
use shader_disasm::compile_options::{plan_compilation, CompileShaderOptions, ShaderStage, TargetEnvironment};
use shader_disasm::instruction::{Instruction, Operand};
use shader_disasm::lengths::InstructionDisassemblyLengths;
use shader_disasm::module_info::InstructionDisassembly;

fn inst(opcode: u32, opname: &str, result_id: Option<u32>, result_type: Option<u32>, operands: Vec<Operand>) -> Instruction {
    Instruction {
        opcode,
        opname: opname.to_string(),
        result_id,
        result_type,
        operands,
    }
}

fn sample_module() -> Vec<Instruction> {
    vec![
        inst(7, "String", Some(1), None, vec![Operand::LiteralString("a.glsl".to_string())]),
        inst(3, "Source", None, None, vec![Operand::Other("GLSL".to_string()), Operand::LiteralInt32(450), Operand::IdRef(1)]),
        inst(5, "Name", None, None, vec![Operand::IdRef(5), Operand::LiteralString("main".to_string())]),
        inst(19, "TypeVoid", Some(2), None, vec![]),
        inst(33, "TypeFunction", Some(3), None, vec![Operand::IdRef(2)]),
        inst(8, "Line", None, None, vec![Operand::IdRef(1), Operand::LiteralInt32(3), Operand::LiteralInt32(0)]),
        inst(54, "Function", Some(5), Some(2), vec![Operand::Other("NONE".to_string()), Operand::IdRef(3)]),
        inst(248, "Label", Some(6), None, vec![]),
        inst(8, "Line", None, None, vec![Operand::IdRef(1), Operand::LiteralInt32(4), Operand::LiteralInt32(0)]),
        inst(253, "Return", None, None, vec![]),
        inst(56, "FunctionEnd", None, None, vec![]),
    ]
}

fn options(target_env: Option<&str>, file_name: Option<&str>, entry_point: Option<&str>) -> CompileShaderOptions {
    CompileShaderOptions {
        file_name: file_name.map(|s| s.to_string()),
        target_env: target_env.map(|s| s.to_string()),
        limit_result_name_length: None,
        entry_point: entry_point.map(|s| s.to_string()),
    }
}

fn disassembly(result: Option<&str>, result_type: Option<&str>, name: &str, operands: &[&str]) -> InstructionDisassembly {
    InstructionDisassembly {
        result: result.map(|s| s.to_string()),
        result_type: result_type.map(|s| s.to_string()),
        name: name.to_string(),
        operands: operands.iter().map(|s| s.to_string()).collect(),
    }
}

#[test]
fn debug_instructions_are_not_listed() {
    let listing = AnnotatedDisassembly::create(None, &sample_module(), None).ok().unwrap();
    let names: Vec<String> = listing.instructions.iter().map(|i| i.disassembly.name.clone()).collect();
    assert_eq!(names, vec!["OpTypeVoid", "OpTypeFunction", "OpFunction", "OpLabel", "OpReturn", "OpFunctionEnd"]);
}

#[test]
fn function_start_clears_line() {
    let listing = AnnotatedDisassembly::create(None, &sample_module(), None).ok().unwrap();
    let lines: Vec<Option<(String, u32)>> = listing
        .instructions
        .iter()
        .map(|i| i.line.as_ref().map(|l| (l.file.clone(), l.line)))
        .collect();
    assert_eq!(lines[0], None);
    assert_eq!(lines[1], None);
    assert_eq!(lines[2], None);
    assert_eq!(lines[3], None);
    assert_eq!(lines[4], Some(("a.glsl".to_string(), 4)));
    assert_eq!(lines[5], Some(("a.glsl".to_string(), 4)));
}

#[test]
fn listing_is_deterministic() {
    let a = AnnotatedDisassembly::create(None, &sample_module(), Some(6)).ok().unwrap();
    let b = AnnotatedDisassembly::create(None, &sample_module(), Some(6)).ok().unwrap();
    let ta: Vec<String> = a.instructions.iter().map(|i| i.instruction.clone()).collect();
    let tb: Vec<String> = b.instructions.iter().map(|i| i.instruction.clone()).collect();
    assert_eq!(ta, tb);
}

#[test]
fn listing_text_is_compact() {
    let listing = AnnotatedDisassembly::create(Some("; SPIR-V".to_string()), &sample_module(), None).ok().unwrap();
    assert_eq!(listing.header, Some("; SPIR-V".to_string()));
    assert_eq!(listing.lengths.result, 9);
    assert_eq!(listing.instructions[0].instruction, "%void     OpTypeVoid  ");
    assert_eq!(listing.instructions[2].instruction, "%main     OpFunction %void NONE %fn()void");
    assert_eq!(listing.instructions[4].instruction, format!("{}OpReturn  ", " ".repeat(10)));
}

#[test]
fn result_width_is_capped() {
    let listing = AnnotatedDisassembly::create(None, &sample_module(), Some(3)).ok().unwrap();
    assert_eq!(listing.lengths.result, 3);
    assert_eq!(listing.instructions[0].instruction, "%void OpTypeVoid  ");
}

#[test]
fn line_with_unknown_file_is_an_error() {
    let insts = vec![inst(8, "Line", None, None, vec![Operand::IdRef(9), Operand::LiteralInt32(1), Operand::LiteralInt32(0)])];
    assert_eq!(AnnotatedDisassembly::create(None, &insts, None).err().unwrap().opcode, 8);
}

#[test]
fn widths_are_column_maxima() {
    let ds = vec![
        disassembly(Some("%a"), None, "OpX", &["x"]),
        disassembly(None, Some("%int"), "OpLonger", &["y", "zzz", "w"]),
        disassembly(Some("%abcdef"), None, "OpY", &["yyyy"]),
    ];
    let w = InstructionDisassemblyLengths::for_instructions(&ds, None);
    assert_eq!(w.result, 7);
    assert_eq!(w.result_type, 4);
    assert_eq!(w.name, 8);
    assert_eq!(w.operands, vec![4, 3, 1]);
    let capped = InstructionDisassemblyLengths::for_instructions(&ds, Some(4));
    assert_eq!(capped.result, 4);
    let empty = InstructionDisassemblyLengths::for_instructions(&vec![], Some(4));
    assert_eq!(empty.result, 0);
    assert!(empty.operands.is_empty());
}

#[test]
fn padded_and_compact_formats() {
    let w = InstructionDisassemblyLengths { result: 5, result_type: 3, name: 6, operands: vec![2, 3] };
    let d = disassembly(Some("%a"), Some("%t"), "OpX", &["x", "yy"]);
    assert_eq!(w.format_instruction(&d, true), "%a    OpX    %t  x  yy ");
    assert_eq!(w.format_instruction(&d, false), "%a    OpX %t x yy");
    let longer = disassembly(None, None, "OpZ", &["a", "b", "c"]);
    assert_eq!(w.format_instruction(&longer, true), format!("{}OpZ{}a  b   c", " ".repeat(6), " ".repeat(8)));
    let no_columns = InstructionDisassemblyLengths { result: 0, result_type: 0, name: 0, operands: vec![] };
    let one = disassembly(None, None, "OpW", &["%x", "%y"]);
    assert_eq!(no_columns.format_instruction(&one, true), " OpW  %x %y");
}

#[test]
fn unknown_target_environment_is_rejected() {
    let r = plan_compilation("Fragment", &options(Some("Metal"), None, None));
    assert_eq!(r.err().unwrap(), "Unknown target environment: Metal");
}

#[test]
fn unknown_shader_kind_is_rejected() {
    let r = plan_compilation("Pixel", &options(Some("Metal"), None, None));
    assert_eq!(r.err().unwrap(), "Unknown shader kind Pixel");
}

#[test]
fn defaults_follow_source_language() {
    let p = plan_compilation("Fragment", &options(None, None, Some("psmain"))).ok().unwrap();
    assert_eq!(p.stage, ShaderStage::Fragment);
    assert_eq!(p.target, TargetEnvironment::Vulkan);
    assert_eq!(p.file_name, "shader.glsl");
    assert_eq!(p.entry_point, "main");
    let h = plan_compilation("TesselationControl", &options(Some("HLSL"), None, Some("psmain"))).ok().unwrap();
    assert_eq!(h.stage, ShaderStage::TessControl);
    assert_eq!(h.target, TargetEnvironment::Hlsl);
    assert_eq!(h.file_name, "shader.hlsl");
    assert_eq!(h.entry_point, "psmain");
    let g = plan_compilation("Compute", &options(Some("OpenGL"), Some("k.comp"), None)).ok().unwrap();
    assert_eq!(g.target, TargetEnvironment::OpenGL);
    assert_eq!(g.file_name, "k.comp");
    assert_eq!(g.entry_point, "main");
}
