//! A verified compilation toolchain for the Hack/Jack platform: a Jack-to-VM
//! compiler, a VM-to-assembly translator, and a Hack assembler.

pub mod text;
pub mod assembler;
pub mod vm;
pub mod hack;
pub mod tokenizer;
pub mod ast;
pub mod symbols;
pub mod codegen;
pub mod xml;
