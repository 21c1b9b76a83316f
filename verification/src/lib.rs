//! Chadsembly: an assembler and virtual machine for a small LMC-style
//! assembly language with general-purpose registers, four addressing modes,
//! bitwise and shift operations, procedure scopes and a configurable
//! architecture.
//!
//! A source text is compiled end to end into a pool of fixed-width binary
//! words (strings of `'0'`/`'1'` characters), which a fetch/decode/execute
//! interpreter then runs.  Everything here is pure: the surrounding binary
//! reads the source file and drives the interpreter's input and output.

#![verifier::loop_isolation(false)]

pub mod binarystring;
pub mod defaults;
pub mod errors;
pub mod tokens;
pub mod structs;
pub mod architecture;
pub mod machineoperations;
pub mod virtualmachine;
pub mod parser;
pub mod lexer;
pub mod instructionpools;
pub mod semanticanalyser;
pub mod codegenerator;
pub mod precompilation;
