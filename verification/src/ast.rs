//! The abstract syntax tree of the instruction-format language.  Nodes
//! are created once by the parser and read, never mutated, by the
//! resolver.

use crate::text::dec_digits;
use crate::text::str_eq;
use crate::text::u64_to_dec;
use vstd::prelude::*;

verus! {

/// A parsed source file: global characteristics followed by instruction
/// definitions, templated and concrete alike.
#[derive(Debug)]
pub struct Ast {
    pub characteristics: Vec<Characteristic>,
    pub instructions: Vec<Instruction>,
}

/// A global property of the specification.
#[derive(Debug, PartialEq, Eq, Structural)]
pub enum Characteristic {
    /// The nominal bit-width every instruction encodes to.
    InstructionWidth(usize),
}

/// The first instruction with the given name, if any.
pub open spec fn spec_find_instruction(s: Seq<Instruction>, name: Seq<char>) -> Option<int>
    decreases s.len(),
{
    if s.len() == 0 {
        None
    } else if s[0].name@ == name {
        Some(0)
    } else {
        match spec_find_instruction(s.drop_first(), name) {
            None => None,
            Some(i) => Some(i + 1),
        }
    }
}

/// The found instruction bears the name, stands first among those that
/// do, and absence means no instruction bears it.
pub proof fn lemma_find_instruction(s: Seq<Instruction>, name: Seq<char>)
    ensures
        match spec_find_instruction(s, name) {
            Some(i) => 0 <= i < s.len() && s[i].name@ == name && forall|j: int|
                0 <= j < i ==> s[j].name@ != name,
            None => forall|j: int| 0 <= j < s.len() ==> s[j].name@ != name,
        },
    decreases s.len(),
{
    if s.len() > 0 && s[0].name@ != name {
        let t = s.drop_first();
        lemma_find_instruction(t, name);
        match spec_find_instruction(s, name) {
            Some(i) => {
                assert(t[i - 1] == s[i]);
                assert forall|j: int| 0 <= j < i implies s[j].name@ != name by {
                    if j > 0 {
                        assert(t[j - 1] == s[j]);
                    }
                }
            },
            None => {
                assert forall|j: int| 0 <= j < s.len() implies s[j].name@ != name by {
                    if j > 0 {
                        assert(t[j - 1] == s[j]);
                    }
                }
            },
        }
    }
}

impl Ast {
    /// The declared instruction width: the value of the first
    /// characteristic, or nothing when none was declared.
    pub fn instruction_width(&self) -> (r: Option<usize>)
        ensures
            r == (if self.characteristics@.len() > 0 {
                match self.characteristics@[0] {
                    Characteristic::InstructionWidth(w) => Some(w),
                }
            } else {
                None::<usize>
            }),
    {
        if self.characteristics.len() > 0 {
            let Characteristic::InstructionWidth(w) = self.characteristics[0];
            return Some(w);
        }
        None
    }

    /// The first instruction with the given name, if any.
    pub fn get_instruction<'a>(&'a self, name: &str) -> (r: Option<&'a Instruction>)
        ensures
            match r {
                Some(x) => {
                    &&& spec_find_instruction(self.instructions@, name@) matches Some(i) && *x
                        == self.instructions@[i]
                },
                None => spec_find_instruction(self.instructions@, name@) is None,
            },
    {
        proof {
            lemma_find_instruction(self.instructions@, name@);
        }
        let n = self.instructions.len();
        let mut k: usize = 0;
        while k < n
            invariant
                0 <= k <= n,
                n == self.instructions@.len(),
                forall|j: int| 0 <= j < k ==> self.instructions@[j].name@ != name@,
            decreases n - k,
        {
            if str_eq(self.instructions[k].name.as_str(), name) {
                proof {
                    lemma_find_instruction(self.instructions@, name@);
                }
                return Some(&self.instructions[k]);
            }
            k += 1;
        }
        None
    }
}

/// An instruction definition: a template when it declares generic
/// parameters, concrete otherwise.
#[derive(Debug)]
pub struct Instruction {
    pub doc: String,
    pub name: String,
    pub timing: Option<Timing>,
    pub parameters: Vec<String>,
    pub base: Option<Base>,
    pub fields: Vec<Field>,
    pub assembly: Assembly,
    pub machine: Machine,
}

impl Instruction {
    /// Whether this instruction is a base template: it declares generic
    /// parameters, exists only to be instantiated, and is never itself
    /// emitted.
    pub fn is_base(&self) -> (r: bool)
        ensures
            r == (self.parameters@.len() != 0),
    {
        self.parameters.len() != 0
    }
}

/// Advisory timing annotation, carried through unchanged.
#[derive(Debug, PartialEq, Eq, Copy, Clone, Structural)]
pub enum Timing {
    Cycle(usize),
    Async,
    Multi,
}

/// The display text of a timing annotation.
pub open spec fn spec_timing_display(t: Timing) -> Seq<char> {
    match t {
        Timing::Cycle(n) => if n == 1 {
            seq!['1', ' ', 'c', 'y', 'c', 'l', 'e']
        } else {
            dec_digits(n as nat) + seq![' ', 'c', 'y', 'c', 'l', 'e', 's']
        },
        Timing::Async => seq!['a', 's', 'y', 'n', 'c'],
        Timing::Multi => seq!['m', 'u', 'l', 't', 'i', 'p', 'l', 'e', ' ', 'c', 'y', 'c', 'l', 'e', 's'],
    }
}

impl Timing {
    /// Render the annotation for display.
    pub fn display_string(&self) -> (r: String)
        ensures
            r@ == spec_timing_display(*self),
    {
        proof {
            reveal_strlit("1 cycle");
            reveal_strlit(" cycles");
            reveal_strlit("async");
            reveal_strlit("multiple cycles");
        }
        match self {
            Timing::Cycle(n) => {
                if *n == 1 {
                    let r = String::from_str("1 cycle");
                    proof {
                        assert(r@ =~= spec_timing_display(*self));
                    }
                    r
                } else {
                    let mut r = u64_to_dec(*n as u64);
                    r.append(" cycles");
                    proof {
                        assert(r@ =~= spec_timing_display(*self));
                    }
                    r
                }
            },
            Timing::Async => {
                let r = String::from_str("async");
                proof {
                    assert(r@ =~= spec_timing_display(*self));
                }
                r
            },
            Timing::Multi => {
                let r = String::from_str("multiple cycles");
                proof {
                    assert(r@ =~= spec_timing_display(*self));
                }
                r
            },
        }
    }
}

impl Default for Timing {
    /// Unspecified timing displays as zero cycles.
    fn default() -> (r: Self)
        ensures
            r == Timing::Cycle(0usize),
    {
        Timing::Cycle(0)
    }
}

/// A reference to a base template, with positional arguments for its
/// generic parameters.
#[derive(Debug, PartialEq, Eq)]
pub struct Base {
    pub name: String,
    pub parameters: Vec<BaseParameter>,
}

/// A named, fixed-width value within an instruction.
#[derive(Debug, PartialEq, Eq)]
pub struct Field {
    pub doc: String,
    pub name: String,
    pub width: usize,
    pub value: Option<FieldValue>,
}

/// A positional argument bound to a generic parameter.
#[derive(Debug, PartialEq, Eq)]
pub enum BaseParameter {
    Number(u64),
    Text(String),
}

impl Clone for BaseParameter {
    /// Cloning yields an equal argument.
    fn clone(&self) -> (r: Self)
        ensures
            r == *self,
    {
        match self {
            BaseParameter::Number(n) => BaseParameter::Number(*n),
            BaseParameter::Text(s) => BaseParameter::Text(s.clone()),
        }
    }
}

/// A field's declared fixed value.
#[derive(Debug, PartialEq, Eq)]
pub enum FieldValue {
    NumericConstant(u64),
    GenericParameter(String),
    OptionalFieldValue(Box<FieldValue>),
}

/// The textual grammar of an instruction, with worked examples.
#[derive(Debug)]
pub struct Assembly {
    pub syntax: Vec<AssemblyElement>,
    pub example: Vec<AssemblyExample>,
}

impl Default for Assembly {
    /// An empty assembly description.
    fn default() -> (r: Self)
        ensures
            r.syntax@.len() == 0,
            r.example@.len() == 0,
    {
        Assembly { syntax: Vec::new(), example: Vec::new() }
    }
}

/// One element of the assembly grammar, in textual order.
#[derive(Debug, PartialEq, Eq)]
pub enum AssemblyElement {
    /// A generic-parameter expansion; resolved away at instantiation.
    Expansion { name: String },
    StringLiteral { value: String },
    NumberLiteral { value: u64 },
    /// A literal token whose presence sets a named boolean field.
    OptionalFlag { name: String, field: String },
    /// A numeric token, optionally behind a dot, whose presence both
    /// sets the field and marks it explicitly supplied.
    OptionalField { name: String, with_dot: bool },
    Dot,
    Comma,
    Space,
    /// A mandatory numeric token written into the named field.
    Field { name: String },
}

/// A worked example of the assembly syntax.
#[derive(Debug, PartialEq, Eq)]
pub struct AssemblyExample {
    pub doc: String,
    pub example: String,
}

impl Clone for AssemblyExample {
    /// Cloning yields an equal example.
    fn clone(&self) -> (r: Self)
        ensures
            r == *self,
    {
        AssemblyExample { doc: self.doc.clone(), example: self.example.clone() }
    }
}

/// The machine layout of an instruction: elements occupy consecutive bit
/// positions starting at the low-order bit.
#[derive(Debug)]
pub struct Machine {
    pub layout: Vec<MachineElement>,
}

impl Default for Machine {
    /// An empty machine layout.
    fn default() -> (r: Self)
        ensures
            r.layout@.len() == 0,
    {
        Machine { layout: Vec::new() }
    }
}

/// The declared value of a constant layout region.
#[derive(Debug, PartialEq, Eq)]
pub enum MachineElementValue {
    NumericConstant(u64),
    GenericParameter(String),
}

/// One element of the machine layout.
#[derive(Debug, PartialEq, Eq)]
pub enum MachineElement {
    /// A field occupying its declared width.
    Field { name: String },
    /// One contiguous bit range `[begin:end]` of a logically wider field.
    FieldSlice { name: String, begin: usize, end: usize },
    /// A field stored with inverted polarity.
    FieldNegate { name: String },
    /// A single bit recording that an optional field was supplied.
    OptionalFieldPresentTest { name: String },
    /// A single bit recording, inverted, that an optional field was
    /// supplied.
    OptionalFieldAbsentTest { name: String },
    /// A fixed-width region holding a checked value, a named reserved
    /// filler, or, under the name `_`, unchecked padding.
    Constant { name: String, width: usize, value: Option<MachineElementValue> },
}

} // verus!
