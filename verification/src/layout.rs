//! The bit-layout walk.  An instruction's machine-layout elements occupy
//! consecutive bit positions starting at the low-order bit; this module
//! computes every element's bit offset and width, selects the storage
//! word, validates the layout against the declared instruction width,
//! and hands the code generator a placement plan for the accessors it
//! emits.

use crate::resolve::spec_find_field;
use crate::resolve::Field;
use crate::resolve::Instruction;
use crate::resolve::MachineElement;
use crate::resolve::Spec;
use vstd::prelude::*;

verus! {

/// The smallest of the supported storage widths that holds `bits`.
pub open spec fn spec_uint_size(bits: int) -> int {
    if bits <= 8 {
        8
    } else if bits <= 16 {
        16
    } else if bits <= 32 {
        32
    } else if bits <= 64 {
        64
    } else {
        128
    }
}

/// Storage width selection: the smallest of 8, 16, 32, 64 and 128 bits
/// that is at least `bits`; widths above 128 are a specification defect
/// and are rejected before this point.
pub fn uint_size(bits: usize) -> (r: usize)
    requires
        bits <= 128,
    ensures
        r == spec_uint_size(bits as int),
        bits <= r,
{
    if bits <= 8 {
        8
    } else if bits <= 16 {
        16
    } else if bits <= 32 {
        32
    } else if bits <= 64 {
        64
    } else {
        128
    }
}

/// The number of bits a layout element occupies, or nothing when the
/// element is malformed: a field placement whose field is not declared,
/// or a slice whose range is reversed.
pub open spec fn spec_elem_width(e: MachineElement, fields: Seq<Field>) -> Option<int> {
    match e {
        MachineElement::Field { name } => match spec_find_field(fields, name@) {
            Some(i) => Some(fields[i].width as int),
            None => None,
        },
        MachineElement::FieldNegate { name } => match spec_find_field(fields, name@) {
            Some(i) => Some(fields[i].width as int),
            None => None,
        },
        MachineElement::FieldSlice { name, begin, end } => if begin <= end
            && spec_find_field(fields, name@) is Some {
            Some(end - begin + 1)
        } else {
            None
        },
        MachineElement::OptionalFieldPresentTest { name } => if spec_find_field(fields, name@)
            is Some {
            Some(1)
        } else {
            None
        },
        MachineElement::OptionalFieldAbsentTest { name } => if spec_find_field(fields, name@)
            is Some {
            Some(1)
        } else {
            None
        },
        MachineElement::Constant { name, width, value } => Some(width as int),
    }
}

/// The logical width of the field an element places: its declared width,
/// or the element's own width for constants.
pub open spec fn spec_logical_width(e: MachineElement, fields: Seq<Field>) -> Option<int> {
    match e {
        MachineElement::FieldSlice { name, begin, end } => match spec_find_field(fields, name@) {
            Some(i) => if begin <= end {
                Some(fields[i].width as int)
            } else {
                None
            },
            None => None,
        },
        MachineElement::OptionalFieldPresentTest { name } => match spec_find_field(fields, name@) {
            Some(i) => Some(fields[i].width as int),
            None => None,
        },
        MachineElement::OptionalFieldAbsentTest { name } => match spec_find_field(fields, name@) {
            Some(i) => Some(fields[i].width as int),
            None => None,
        },
        MachineElement::Constant { name, width, value } => Some(width as int),
        _ => spec_elem_width(e, fields),
    }
}

/// Whether every element of the layout is well formed.
pub open spec fn layout_ok(layout: Seq<MachineElement>, fields: Seq<Field>) -> bool {
    forall|i: int| 0 <= i < layout.len() ==> (#[trigger] spec_elem_width(layout[i], fields)) is Some
}

/// The width an element contributes to the running offset; malformed
/// elements, rejected separately, count as zero.
pub open spec fn width0(e: MachineElement, fields: Seq<Field>) -> int {
    match spec_elem_width(e, fields) {
        Some(w) => w,
        None => 0,
    }
}

/// The bit offset of element `i`: the sum of the widths of the elements
/// before it.
pub open spec fn width_sum(layout: Seq<MachineElement>, fields: Seq<Field>, i: int) -> int
    decreases i,
{
    if i <= 0 {
        0
    } else {
        width_sum(layout, fields, i - 1) + width0(layout[i - 1], fields)
    }
}

/// Offsets never decrease along the layout.
pub proof fn lemma_width_sum_mono(layout: Seq<MachineElement>, fields: Seq<Field>, i: int, j: int)
    requires
        0 <= i <= j,
    ensures
        width_sum(layout, fields, i) <= width_sum(layout, fields, j),
    decreases j - i,
{
    if i < j {
        lemma_width_sum_mono(layout, fields, i, j - 1);
    }
}

/// An error found while walking a machine layout.
#[derive(Debug, PartialEq, Eq)]
pub enum LayoutError {
    /// The declared instruction width exceeds the widest storage word
    /// the bit-window accessors cover.
    WidthTooLarge { width: usize },
    /// A layout element places a field the instruction does not declare.
    UndefinedField { instruction: String, element: String },
    /// A slice's bit range is reversed.
    InvalidSlice { instruction: String, element: String },
    /// The layout runs past the widest storage word.
    TooWide { instruction: String },
    /// The element widths do not sum to the instruction width.
    WidthMismatch { instruction: String },
}

/// How one layout element is realised in the generated accessors.
#[derive(Debug)]
pub enum PartKind {
    /// A plain get/set window.
    Field,
    /// One placement of a sliced field: bits `[begin:end]` of the
    /// logical value.
    Slice { begin: usize, end: usize },
    /// A window read and written with inverted polarity.
    Negate,
    /// A one-bit marker written 1 by the field's setter.
    PresentTest,
    /// A one-bit marker written 0 by the field's setter, defaulting
    /// to 1.
    AbsentTest,
    /// A fixed region: written at default construction when a value is
    /// present, and revalidated at machine decode.
    Constant { value: Option<u64> },
    /// Unchecked padding; no accessor is generated.
    Padding,
}

/// One element's placement: where its bits stand in the storage word and
/// what accessor it needs.
#[derive(Debug)]
pub struct AccessorPart {
    pub name: String,
    pub offset: usize,
    pub element_width: usize,
    pub field_width: usize,
    pub kind: PartKind,
}

/// Whether `p` realises the layout element `e`.
pub open spec fn part_matches(e: MachineElement, fields: Seq<Field>, p: AccessorPart) -> bool {
    match e {
        MachineElement::Field { name } => {
            &&& p.kind is Field
            &&& p.name@ == name@
            &&& Some(p.element_width as int) == spec_elem_width(e, fields)
            &&& p.field_width == p.element_width
        },
        MachineElement::FieldNegate { name } => {
            &&& p.kind is Negate
            &&& p.name@ == name@
            &&& Some(p.element_width as int) == spec_elem_width(e, fields)
            &&& p.field_width == p.element_width
        },
        MachineElement::FieldSlice { name, begin, end } => {
            &&& p.kind matches PartKind::Slice { begin: pb, end: pe } && pb == begin && pe == end
            &&& p.name@ == name@
            &&& Some(p.element_width as int) == spec_elem_width(e, fields)
            &&& Some(p.field_width as int) == spec_logical_width(e, fields)
        },
        MachineElement::OptionalFieldPresentTest { name } => {
            &&& p.kind is PresentTest
            &&& p.name@ == name@
            &&& p.element_width == 1
            &&& Some(p.field_width as int) == spec_logical_width(e, fields)
        },
        MachineElement::OptionalFieldAbsentTest { name } => {
            &&& p.kind is AbsentTest
            &&& p.name@ == name@
            &&& p.element_width == 1
            &&& Some(p.field_width as int) == spec_logical_width(e, fields)
        },
        MachineElement::Constant { name, width, value } => {
            &&& (if name@ == seq!['_'] {
                p.kind is Padding
            } else {
                p.kind matches PartKind::Constant { value: pv } && pv == value
            })
            &&& p.name@ == name@
            &&& p.element_width == width
            &&& p.field_width == width
        },
    }
}

/// Walk the machine layout left to right, computing every element's bit
/// offset and width: the placement plan the code generator renders into
/// accessors, default construction, and decode-time validation.
pub fn accessor_plan(instr: &Instruction) -> (r: Result<Vec<AccessorPart>, LayoutError>)
    ensures
        r is Ok <==> layout_ok(instr.machine.layout@, instr.fields@) && width_sum(
            instr.machine.layout@,
            instr.fields@,
            instr.machine.layout@.len() as int,
        ) <= 128,
        r matches Ok(v) ==> {
            &&& v@.len() == instr.machine.layout@.len()
            &&& forall|i: int|
                0 <= i < v@.len() ==> part_matches(
                    instr.machine.layout@[i],
                    instr.fields@,
                    #[trigger] v@[i],
                )
            &&& forall|i: int|
                0 <= i < v@.len() ==> (#[trigger] v@[i]).offset == width_sum(
                    instr.machine.layout@,
                    instr.fields@,
                    i,
                )
        },
{
    let n = instr.machine.layout.len();
    let mut parts: Vec<AccessorPart> = Vec::new();
    let mut offset: usize = 0;
    let mut i: usize = 0;
    while i < n
        invariant
            0 <= i <= n,
            n == instr.machine.layout@.len(),
            parts@.len() == i,
            offset == width_sum(instr.machine.layout@, instr.fields@, i as int),
            offset <= 128,
            forall|k: int|
                0 <= k < i ==> part_matches(
                    instr.machine.layout@[k],
                    instr.fields@,
                    #[trigger] parts@[k],
                ),
            forall|k: int|
                0 <= k < i ==> (#[trigger] parts@[k]).offset == width_sum(
                    instr.machine.layout@,
                    instr.fields@,
                    k,
                ),
            forall|k: int|
                0 <= k < i ==> (#[trigger] spec_elem_width(instr.machine.layout@[k], instr.fields@))
                    is Some,
        decreases n - i,
    {
        let e = &instr.machine.layout[i];
        let part: AccessorPart = match e {
            MachineElement::Field { name } => {
                let w = match instr.get_field(name.as_str()) {
                    Some(f) => f.width,
                    None => {
                        proof {
                            assert(spec_elem_width(
                                instr.machine.layout@[i as int],
                                instr.fields@,
                            ) is None);
                        }
                        return Err(
                            LayoutError::UndefinedField {
                                instruction: instr.name.clone(),
                                element: name.clone(),
                            },
                        );
                    },
                };
                AccessorPart {
                    name: name.clone(),
                    offset,
                    element_width: w,
                    field_width: w,
                    kind: PartKind::Field,
                }
            },
            MachineElement::FieldNegate { name } => {
                let w = match instr.get_field(name.as_str()) {
                    Some(f) => f.width,
                    None => {
                        proof {
                            assert(spec_elem_width(
                                instr.machine.layout@[i as int],
                                instr.fields@,
                            ) is None);
                        }
                        return Err(
                            LayoutError::UndefinedField {
                                instruction: instr.name.clone(),
                                element: name.clone(),
                            },
                        );
                    },
                };
                AccessorPart {
                    name: name.clone(),
                    offset,
                    element_width: w,
                    field_width: w,
                    kind: PartKind::Negate,
                }
            },
            MachineElement::FieldSlice { name, begin, end } => {
                let fw = match instr.get_field(name.as_str()) {
                    Some(f) => f.width,
                    None => {
                        proof {
                            assert(spec_elem_width(
                                instr.machine.layout@[i as int],
                                instr.fields@,
                            ) is None);
                        }
                        return Err(
                            LayoutError::UndefinedField {
                                instruction: instr.name.clone(),
                                element: name.clone(),
                            },
                        );
                    },
                };
                if *begin > *end {
                    proof {
                        assert(spec_elem_width(
                            instr.machine.layout@[i as int],
                            instr.fields@,
                        ) is None);
                    }
                    return Err(
                        LayoutError::InvalidSlice {
                            instruction: instr.name.clone(),
                            element: name.clone(),
                        },
                    );
                }
                if *end - *begin >= 128 {
                    // The element alone overruns the widest storage word.
                    proof {
                        lemma_width_sum_mono(instr.machine.layout@, instr.fields@, i + 1, n as int);
                    }
                    return Err(LayoutError::TooWide { instruction: instr.name.clone() });
                }
                AccessorPart {
                    name: name.clone(),
                    offset,
                    element_width: *end - *begin + 1,
                    field_width: fw,
                    kind: PartKind::Slice { begin: *begin, end: *end },
                }
            },
            MachineElement::OptionalFieldPresentTest { name } => {
                let fw = match instr.get_field(name.as_str()) {
                    Some(f) => f.width,
                    None => {
                        proof {
                            assert(spec_elem_width(
                                instr.machine.layout@[i as int],
                                instr.fields@,
                            ) is None);
                        }
                        return Err(
                            LayoutError::UndefinedField {
                                instruction: instr.name.clone(),
                                element: name.clone(),
                            },
                        );
                    },
                };
                AccessorPart {
                    name: name.clone(),
                    offset,
                    element_width: 1,
                    field_width: fw,
                    kind: PartKind::PresentTest,
                }
            },
            MachineElement::OptionalFieldAbsentTest { name } => {
                let fw = match instr.get_field(name.as_str()) {
                    Some(f) => f.width,
                    None => {
                        proof {
                            assert(spec_elem_width(
                                instr.machine.layout@[i as int],
                                instr.fields@,
                            ) is None);
                        }
                        return Err(
                            LayoutError::UndefinedField {
                                instruction: instr.name.clone(),
                                element: name.clone(),
                            },
                        );
                    },
                };
                AccessorPart {
                    name: name.clone(),
                    offset,
                    element_width: 1,
                    field_width: fw,
                    kind: PartKind::AbsentTest,
                }
            },
            MachineElement::Constant { name, width, value } => {
                let kind = if str_is_underscore(name) {
                    PartKind::Padding
                } else {
                    PartKind::Constant { value: *value }
                };
                AccessorPart {
                    name: name.clone(),
                    offset,
                    element_width: *width,
                    field_width: *width,
                    kind,
                }
            },
        };
        if part.element_width > 128 - offset {
            proof {
                lemma_width_sum_mono(instr.machine.layout@, instr.fields@, i + 1, n as int);
            }
            return Err(LayoutError::TooWide { instruction: instr.name.clone() });
        }
        proof {
            assert(part_matches(instr.machine.layout@[i as int], instr.fields@, part));
        }
        offset = offset + part.element_width;
        parts.push(part);
        i += 1;
    }
    Ok(parts)
}

/// The default-construction target of one placement: a checked constant
/// holds its expected value, an absent-test marker holds 1, and every
/// other placement holds zero.
pub open spec fn spec_default_window(p: AccessorPart) -> u64 {
    match p.kind {
        PartKind::Constant { value: Some(v) } => v & crate::bits::mask64(p.element_width as u64),
        PartKind::AbsentTest => 1u64 & crate::bits::mask64(p.element_width as u64),
        _ => 0,
    }
}

/// Whether the placements stand in increasing, non-overlapping bit
/// positions within a 64-bit storage word, as a placement plan's offsets
/// do.
pub open spec fn parts_disjoint64(parts: Seq<AccessorPart>) -> bool {
    &&& forall|i: int|
        0 <= i < parts.len() ==> (#[trigger] parts[i]).offset + parts[i].element_width <= 64
    &&& forall|i: int, j: int|
        0 <= i < j < parts.len() ==> (#[trigger] parts[i]).offset + parts[i].element_width <= (
        #[trigger] parts[j]).offset
}

/// Default-value construction over a placement plan: start from the
/// all-zero word, then apply, in layout order, every constant's expected
/// value and every absent-test marker, so a fresh word reads back with
/// every fixed constant correct and no optional field yet explicitly
/// supplied.
pub fn default_word64(parts: &Vec<AccessorPart>) -> (r: u64)
    requires
        parts_disjoint64(parts@),
    ensures
        forall|i: int|
            0 <= i < parts@.len() ==> crate::bits::window64(
                r,
                (#[trigger] parts@[i]).offset as u64,
                parts@[i].element_width as u64,
            ) == spec_default_window(parts@[i]),
{
    let n = parts.len();
    let mut w: u64 = 0;
    proof {
        assert forall|i: int| 0 <= i < parts@.len() implies crate::bits::window64(
            0u64,
            (#[trigger] parts@[i]).offset as u64,
            parts@[i].element_width as u64,
        ) == 0 by {
            crate::bits::lemma_window_zero64(
                parts@[i].offset as u64,
                parts@[i].element_width as u64,
            );
        }
    }
    let mut k: usize = 0;
    while k < n
        invariant
            0 <= k <= n,
            n == parts@.len(),
            parts_disjoint64(parts@),
            forall|i: int|
                0 <= i < k ==> crate::bits::window64(
                    w,
                    (#[trigger] parts@[i]).offset as u64,
                    parts@[i].element_width as u64,
                ) == spec_default_window(parts@[i]),
            forall|i: int|
                k <= i < n ==> crate::bits::window64(
                    w,
                    (#[trigger] parts@[i]).offset as u64,
                    parts@[i].element_width as u64,
                ) == 0,
        decreases n - k,
    {
        let p = &parts[k];
        let value: Option<u64> = match &p.kind {
            PartKind::Constant { value: Some(v) } => Some(*v),
            PartKind::AbsentTest => Some(1),
            _ => None,
        };
        if let Some(v) = value {
            if p.element_width > 0 {
                let ghost wpre = w;
                w = crate::bits::set_bits64(w, p.offset as u64, p.element_width as u64, v);
                proof {
                    crate::bits::lemma_window_set_get64(
                        wpre,
                        p.offset as u64,
                        p.element_width as u64,
                        v,
                    );
                    assert forall|i: int| 0 <= i < n && i != k implies crate::bits::window64(
                        w,
                        (#[trigger] parts@[i]).offset as u64,
                        parts@[i].element_width as u64,
                    ) == crate::bits::window64(
                        wpre,
                        parts@[i].offset as u64,
                        parts@[i].element_width as u64,
                    ) by {
                        if parts@[i].element_width == 0 {
                            crate::bits::lemma_window_zero_width64(w, parts@[i].offset as u64, 0);
                            crate::bits::lemma_window_zero_width64(
                                wpre,
                                parts@[i].offset as u64,
                                0,
                            );
                        } else {
                            crate::bits::lemma_window_set_other64(
                                wpre,
                                parts@[k as int].offset as u64,
                                parts@[k as int].element_width as u64,
                                v,
                                parts@[i].offset as u64,
                                parts@[i].element_width as u64,
                            );
                        }
                    }
                }
            } else {
                proof {
                    crate::bits::lemma_window_zero_width64(w, p.offset as u64, v);
                }
            }
        }
        k += 1;
    }
    w
}

/// How an absent-test marker is read: the stored bit is inverted, so a
/// raw 1 means "not explicitly supplied".
pub open spec fn absent_marker_reads_set(w: u64, offset: u64) -> bool {
    !crate::bits::bit64(w, offset)
}

/// Optional-field marker, present-test flavor: in a freshly constructed
/// word the marker holds 0 and the field reads not explicitly supplied;
/// the field's setter writes 1 into the marker, after which it reads
/// supplied.
pub proof fn lemma_present_test_marker(w: u64, offset: u64)
    requires
        offset < 64,
    ensures
        crate::bits::window64(w, offset, 1) == 0 ==> !crate::bits::bit64(w, offset),
        crate::bits::bit64(crate::bits::with_window64(w, offset, 1, 1), offset),
{
    crate::bits::lemma_bit_window64(w, offset);
    crate::bits::lemma_bit_window64(crate::bits::with_window64(w, offset, 1, 1), offset);
    crate::bits::lemma_window_set_get64(w, offset, 1, 1);
}

/// Optional-field marker, absent-test flavor: in a freshly constructed
/// word the marker holds 1 and the field reads not explicitly supplied;
/// the field's setter writes 0 into the marker, after which it reads
/// supplied.
pub proof fn lemma_absent_test_marker(w: u64, offset: u64)
    requires
        offset < 64,
    ensures
        crate::bits::window64(w, offset, 1) == 1 ==> !absent_marker_reads_set(w, offset),
        absent_marker_reads_set(crate::bits::with_window64(w, offset, 1, 0), offset),
{
    crate::bits::lemma_bit_window64(w, offset);
    crate::bits::lemma_bit_window64(crate::bits::with_window64(w, offset, 1, 0), offset);
    crate::bits::lemma_window_set_get64(w, offset, 1, 0);
}

/// Whether the string is the padding placeholder `_`.
fn str_is_underscore(s: &String) -> (r: bool)
    ensures
        r == (s@ == seq!['_']),
{
    proof {
        reveal_strlit("_");
        assert("_"@ =~= seq!['_']);
    }
    crate::text::str_eq(s.as_str(), "_")
}

/// Whether a resolved instruction's layout is valid against the global
/// instruction width: every placed field is declared, slices are in
/// order, and the element widths sum to the instruction width exactly.
pub open spec fn instr_layout_valid(instr: Instruction, width: int) -> bool {
    &&& layout_ok(instr.machine.layout@, instr.fields@)
    &&& width_sum(instr.machine.layout@, instr.fields@, instr.machine.layout@.len() as int)
        == width
}

/// Validate a resolved specification: the instruction width fits the
/// widest storage word the bit-window accessors cover, and every
/// instruction's machine layout is valid against it.
pub fn validate_spec(s: &Spec) -> (r: Result<(), LayoutError>)
    ensures
        r is Ok <==> s.instruction_width <= 64 && forall|k: int|
            0 <= k < s.instructions@.len() ==> instr_layout_valid(
                #[trigger] s.instructions@[k],
                s.instruction_width as int,
            ),
{
    if s.instruction_width > 64 {
        return Err(LayoutError::WidthTooLarge { width: s.instruction_width });
    }
    let n = s.instructions.len();
    let mut k: usize = 0;
    while k < n
        invariant
            0 <= k <= n,
            n == s.instructions@.len(),
            s.instruction_width <= 128,
            forall|j: int|
                0 <= j < k ==> instr_layout_valid(
                    #[trigger] s.instructions@[j],
                    s.instruction_width as int,
                ),
        decreases n - k,
    {
        let instr = &s.instructions[k];
        let parts = match accessor_plan(instr) {
            Ok(p) => p,
            Err(e) => {
                return Err(e);
            },
        };
        let total = if parts.len() > 0 {
            let last = &parts[parts.len() - 1];
            proof {
                lemma_width_sum_mono(
                    instr.machine.layout@,
                    instr.fields@,
                    parts@.len() as int - 1,
                    parts@.len() as int,
                );
            }
            last.offset + last.element_width
        } else {
            0
        };
        proof {
            assert(total == width_sum(
                instr.machine.layout@,
                instr.fields@,
                instr.machine.layout@.len() as int,
            ));
        }
        if total != s.instruction_width {
            return Err(LayoutError::WidthMismatch { instruction: instr.name.clone() });
        }
        k += 1;
    }
    Ok(())
}

} // verus!
