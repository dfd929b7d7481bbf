//! An expression compiler that climbs binding powers straight into relocatable bytecode
//! fragments, and the stack machine that runs them.
//!
//! - `token`: the tokens the compiler reads.
//! - `binding`: the binding-power table and the operator-to-opcode mapping.
//! - `bytecode`: fragments, their decoding into instructions, and splicing two fragments
//!   under an operator.
//! - `compiler`: precedence climbing from tokens to one fragment.
//! - `vm`: the virtual machine, which leaves floating-point arithmetic to its host.
//! - `ast`: expression trees and their prefix printer.

pub mod ast;
pub mod binding;
pub mod bytecode;
pub mod compiler;
pub mod token;
pub mod vm;
