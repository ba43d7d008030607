//! Vyākṛti: a Sanskrit-oriented programming language toolchain.
//!
//! The library holds the verified compiler pipeline: lexer, parser,
//! kāraka-driven type checker, macro expansion, derive processing,
//! monomorphization, constant folding, borrow and exhaustiveness checks,
//! bytecode generation and the stack virtual machine, together with the
//! editor-service helpers used by the IDE backend.
pub mod util;
pub mod ast;
pub mod vm;
pub mod bytecode;
pub mod compiler;
pub mod code_layout;

pub mod lexer;
pub mod semantic;
pub mod parser;
pub mod optimizer;
pub mod borrow_checker;
pub mod exhaustiveness;
pub mod derive_processor;
pub mod macro_expander;
pub mod equality;
pub mod monomorphizer;
pub mod jit_compiler;
pub mod text;
pub mod lsp;
pub mod workspace;
pub mod import_resolver;
pub mod payload;
pub mod numeric;
pub mod location;
pub mod session;
pub mod editor;
pub mod decoder;
pub mod instr_text;
pub mod bytecode_text;
pub mod machine;
