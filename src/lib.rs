//! Symbol-annotated disassembly of SPIR-V modules: symbol tables, per-instruction
//! disassembly, source-line tracking and column-aligned rendering.
pub mod text;
pub mod instruction;
pub mod module_info;
pub mod lengths;
pub mod annotated_disassembly;
pub mod compile_options;
