//! Compiler for a small declarative language describing a processor's
//! instruction encodings: field widths, bit layouts and textual assembly
//! syntax.  Source text is parsed into an abstract syntax tree, the tree is
//! resolved into a concrete specification (template bases are expanded and
//! generic parameters substituted), and the specification drives a bit-layout
//! walk that yields, for every instruction, accessors and codecs for both the
//! textual assembly form and the binary machine-word form.

use vstd::prelude::*;

pub mod ast;
pub mod bits;
pub mod codec;
pub mod docgen;
pub mod layout;
pub mod parse;
pub mod render;
pub mod resolve;
pub mod text;

verus! {

/// Error returned by machine-word decoding when a constant region of the
/// word does not hold its expected value.
#[derive(Debug)]
pub struct FieldMismatchError {
    pub field: String,
    pub expected: u64,
    pub found: u64,
}

/// Functions for interacting with instructions in machine-word format.
pub trait MachineInstruction<T>: Sized {
    /// Decode an instruction from a machine word, validating constants.
    fn parse_machine(data: T) -> Result<Self, FieldMismatchError>;
    /// Encode the instruction as a machine word.
    fn emit_machine(&self) -> T;
}

/// Error returned by assembly-text parsing, positioned at the character
/// where the first mandatory element failed to match.
#[derive(Debug)]
pub struct AssemblyParseError {
    pub position: usize,
}

/// Functions for interacting with instructions in assembly-text format.
pub trait AssemblyInstruction: Sized {
    /// Parse an assembly instruction from text.
    fn parse_assembly(text: &str) -> Result<Self, AssemblyParseError>;
    /// Emit the instruction in assembly-text form.
    fn emit_assembly(&self) -> String;
}

} // verus!
