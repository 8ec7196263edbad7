//! Rendering a resolved instruction into target-language source text.
//! The emitted type packs its fields into a fixed-width storage word and
//! implements default construction, the assembly text codec and the
//! machine word codec, calling the library's bit-window accessors and
//! text scanners; [`spec_render_instruction`] states the emitted text
//! character for character.

use crate::layout::layout_ok;
use crate::layout::spec_elem_width;
use crate::layout::spec_logical_width;
use crate::layout::width0;
use crate::layout::width_sum;
use crate::layout::LayoutError;
use crate::resolve::spec_find_field;
use crate::resolve::AssemblyElement;
use crate::resolve::Field;
use crate::resolve::Instruction;
use crate::resolve::MachineElement;
use crate::text::dec_digits;
use crate::text::push_char;
use crate::text::str_eq;
use crate::text::u64_to_dec;
use vstd::pervasive::unreached;
use vstd::prelude::*;
use vstd::string::StrSliceExecFns;

verus! {

/// The text with every quote and backslash prefixed by a backslash, fit
/// for the inside of a string literal.
pub open spec fn spec_escape(t: Seq<char>) -> Seq<char>
    decreases t.len(),
{
    if t.len() == 0 {
        Seq::empty()
    } else if t[0] == '"' || t[0] == '\\' {
        seq!['\\', t[0]] + spec_escape(t.skip(1))
    } else {
        seq![t[0]] + spec_escape(t.skip(1))
    }
}

/// The text with every line break replaced by a space, fit for a line
/// comment.
pub open spec fn spec_flatten(t: Seq<char>) -> Seq<char>
    decreases t.len(),
{
    if t.len() == 0 {
        Seq::empty()
    } else if t[0] == '\n' || t[0] == '\r' {
        seq![' '] + spec_flatten(t.skip(1))
    } else {
        seq![t[0]] + spec_flatten(t.skip(1))
    }
}

/// The name of the storage word type.
pub open spec fn storage_name(storage: int) -> Seq<char> {
    if storage == 8 {
        "u8"@
    } else if storage == 16 {
        "u16"@
    } else if storage == 32 {
        "u32"@
    } else {
        "u64"@
    }
}

/// The name of the value type an accessor takes and returns: `bool` for
/// one-bit fields, else the narrowest unsigned word that holds the
/// field.
pub open spec fn vt_name(width: int) -> Seq<char> {
    if width == 1 {
        "bool"@
    } else if width <= 8 {
        "u8"@
    } else if width <= 16 {
        "u16"@
    } else if width <= 32 {
        "u32"@
    } else {
        "u64"@
    }
}

/// The name a layout element answers to.
pub open spec fn elem_name(e: MachineElement) -> Seq<char> {
    match e {
        MachineElement::Field { name } => name@,
        MachineElement::FieldSlice { name, .. } => name@,
        MachineElement::FieldNegate { name } => name@,
        MachineElement::OptionalFieldPresentTest { name } => name@,
        MachineElement::OptionalFieldAbsentTest { name } => name@,
        MachineElement::Constant { name, .. } => name@,
    }
}

/// Whether the element is unchecked padding, which gets no accessor.
pub open spec fn elem_is_padding(e: MachineElement) -> bool {
    e matches MachineElement::Constant { name, .. } && name@ == seq!['_']
}

/// Whether the element is an optional-field marker.
pub open spec fn elem_is_marker(e: MachineElement) -> bool {
    e is OptionalFieldPresentTest || e is OptionalFieldAbsentTest
}

/// Whether element `i` opens its field's accessor group: no earlier
/// non-padding element bears its name.
pub open spec fn first_named(layout: Seq<MachineElement>, i: int) -> bool {
    forall|j: int|
        0 <= j < i ==> elem_is_padding(#[trigger] layout[j]) || elem_name(layout[j]) != elem_name(
            layout[i],
        )
}

/// The first element from `j` on that bears `name` and yields a getter:
/// a field, slice, negated or constant placement.
pub open spec fn first_get_idx(layout: Seq<MachineElement>, name: Seq<char>, j: int) -> Option<int>
    decreases layout.len() - j when 0 <= j <= layout.len()
{
    if j < 0 || j >= layout.len() {
        None
    } else if !elem_is_padding(layout[j]) && !elem_is_marker(layout[j]) && elem_name(layout[j])
        == name {
        Some(j)
    } else {
        first_get_idx(layout, name, j + 1)
    }
}

/// The found getter-bearing element is in range, bears the name, and is
/// neither padding nor a marker.
pub proof fn lemma_first_get_idx(layout: Seq<MachineElement>, name: Seq<char>, j: int)
    requires
        0 <= j <= layout.len(),
    ensures
        match first_get_idx(layout, name, j) {
            Some(g) => j <= g < layout.len() && !elem_is_padding(layout[g]) && !elem_is_marker(
                layout[g],
            ) && elem_name(layout[g]) == name,
            None => true,
        },
    decreases layout.len() - j,
{
    if j < layout.len() && !(!elem_is_padding(layout[j]) && !elem_is_marker(layout[j])
        && elem_name(layout[j]) == name) {
        lemma_first_get_idx(layout, name, j + 1);
    }
}

/// The logical width an element gives its accessor group, zero when
/// malformed.
pub open spec fn lw0(e: MachineElement, fields: Seq<Field>) -> int {
    match spec_logical_width(e, fields) {
        Some(w) => w,
        None => 0,
    }
}

/// One slice placement's contribution to the accumulated getter.
pub open spec fn spec_slice_get_piece(off: int, ew: int, begin: int, vt: Seq<char>) -> Seq<char> {
    "result |= (isf::bits::get_bits64(self.0 as u64, "@ + dec_digits(off as nat) + ", "@
        + dec_digits(ew as nat) + ") as "@ + vt + ") << "@ + dec_digits(begin as nat) + "; "@
}

/// The accumulated getter pieces of every slice placement bearing `name`.
pub open spec fn spec_slice_get_pieces(
    layout: Seq<MachineElement>,
    fields: Seq<Field>,
    name: Seq<char>,
    vt: Seq<char>,
    j: int,
) -> Seq<char>
    decreases layout.len() - j when 0 <= j <= layout.len()
{
    if j < 0 || j >= layout.len() {
        Seq::empty()
    } else {
        (match layout[j] {
            MachineElement::FieldSlice { name: n, begin, end } => if n@ == name {
                spec_slice_get_piece(
                    width_sum(layout, fields, j),
                    width0(layout[j], fields),
                    begin as int,
                    vt,
                )
            } else {
                Seq::empty()
            },
            _ => Seq::empty(),
        }) + spec_slice_get_pieces(layout, fields, name, vt, j + 1)
    }
}

/// The getter of the group that element `i` opens: slices accumulate
/// into one logical read, a negated placement inverts the stored bits,
/// and a plain placement reads its window directly.
pub open spec fn spec_getter(layout: Seq<MachineElement>, fields: Seq<Field>, i: int) -> Seq<char> {
    let name = elem_name(layout[i]);
    match first_get_idx(layout, name, 0) {
        None => Seq::empty(),
        Some(g) => {
            let vtw = lw0(layout[g], fields);
            let vt = vt_name(vtw);
            let off = width_sum(layout, fields, g);
            let ew = width0(layout[g], fields);
            if layout[g] is FieldSlice {
                "pub fn get_"@ + name + "(&self) -> "@ + vt + " { let mut result: "@ + vt
                    + " = 0; "@ + spec_slice_get_pieces(layout, fields, name, vt, 0)
                    + "result }\n"@
            } else if vtw == 1 {
                if layout[g] is FieldNegate {
                    "pub fn get_"@ + name + "(&self) -> bool { !isf::bits::get_bit64(self.0 as u64, "@
                        + dec_digits(off as nat) + ") }\n"@
                } else {
                    "pub fn get_"@ + name + "(&self) -> bool { isf::bits::get_bit64(self.0 as u64, "@
                        + dec_digits(off as nat) + ") }\n"@
                }
            } else if layout[g] is FieldNegate {
                "pub fn get_"@ + name + "(&self) -> "@ + vt
                    + " { ((isf::bits::get_bits64(self.0 as u64, "@ + dec_digits(off as nat)
                    + ", "@ + dec_digits(ew as nat) + ") ^ isf::bits::mask_bits64("@ + dec_digits(
                    ew as nat,
                ) + ")) as "@ + vt + ") }\n"@
            } else {
                "pub fn get_"@ + name + "(&self) -> "@ + vt
                    + " { (isf::bits::get_bits64(self.0 as u64, "@ + dec_digits(off as nat) + ", "@
                    + dec_digits(ew as nat) + ") as "@ + vt + ") }\n"@
            }
        },
    }
}

/// One element's contribution to its group's setter body.
pub open spec fn spec_set_piece(
    layout: Seq<MachineElement>,
    fields: Seq<Field>,
    j: int,
    vtw: int,
    un: Seq<char>,
) -> Seq<char> {
    let off = dec_digits(width_sum(layout, fields, j) as nat);
    let ew = dec_digits(width0(layout[j], fields) as nat);
    match layout[j] {
        MachineElement::Field { .. } | MachineElement::Constant { .. } => if vtw == 1 {
            "self.0 = isf::bits::set_bit64(self.0 as u64, "@ + off + ", value) as "@ + un + "; "@
        } else {
            "self.0 = isf::bits::set_bits64(self.0 as u64, "@ + off + ", "@ + ew
                + ", value as u64) as "@ + un + "; "@
        },
        MachineElement::FieldNegate { .. } => if vtw == 1 {
            "self.0 = isf::bits::set_bit64(self.0 as u64, "@ + off + ", !value) as "@ + un + "; "@
        } else {
            "self.0 = isf::bits::set_bits64(self.0 as u64, "@ + off + ", "@ + ew
                + ", (value as u64) ^ isf::bits::mask_bits64("@ + ew + ")) as "@ + un + "; "@
        },
        MachineElement::FieldSlice { begin, .. } => {
            "self.0 = isf::bits::set_bits64(self.0 as u64, "@ + off + ", "@ + ew + ", (value >> "@
                + dec_digits(begin as nat) + ") as u64) as "@ + un + "; "@
        },
        MachineElement::OptionalFieldPresentTest { .. } => {
            "self.0 = isf::bits::set_bits64(self.0 as u64, "@ + off + ", 1, 1) as "@ + un + "; "@
        },
        MachineElement::OptionalFieldAbsentTest { .. } => {
            "self.0 = isf::bits::set_bits64(self.0 as u64, "@ + off + ", 1, 0) as "@ + un + "; "@
        },
    }
}

/// The setter pieces of every non-padding element bearing `name`, in
/// layout order: field placements write their windows, markers record
/// that the field was explicitly supplied.
pub open spec fn spec_set_pieces(
    layout: Seq<MachineElement>,
    fields: Seq<Field>,
    name: Seq<char>,
    vtw: int,
    un: Seq<char>,
    j: int,
) -> Seq<char>
    decreases layout.len() - j when 0 <= j <= layout.len()
{
    if j < 0 || j >= layout.len() {
        Seq::empty()
    } else {
        (if !elem_is_padding(layout[j]) && elem_name(layout[j]) == name {
            spec_set_piece(layout, fields, j, vtw, un)
        } else {
            Seq::empty()
        }) + spec_set_pieces(layout, fields, name, vtw, un, j + 1)
    }
}

/// The marker queries of every marker element bearing `name`: an is-set
/// report of whether the field was explicitly supplied (inverted for
/// absent tests), and a private reset.
pub open spec fn spec_marker_pieces(
    layout: Seq<MachineElement>,
    fields: Seq<Field>,
    name: Seq<char>,
    un: Seq<char>,
    j: int,
) -> Seq<char>
    decreases layout.len() - j when 0 <= j <= layout.len()
{
    if j < 0 || j >= layout.len() {
        Seq::empty()
    } else {
        (if elem_name(layout[j]) == name {
            let off = dec_digits(width_sum(layout, fields, j) as nat);
            match layout[j] {
                MachineElement::OptionalFieldPresentTest { .. } => {
                    "pub fn "@ + name + "_is_set(&self) -> bool { isf::bits::get_bit64(self.0 as u64, "@
                        + off + ") }\nfn "@ + name
                        + "_mark_unset(&mut self) { self.0 = isf::bits::set_bit64(self.0 as u64, "@
                        + off + ", false) as "@ + un + "; }\n"@
                },
                MachineElement::OptionalFieldAbsentTest { .. } => {
                    "pub fn "@ + name + "_is_set(&self) -> bool { !isf::bits::get_bit64(self.0 as u64, "@
                        + off + ") }\nfn "@ + name
                        + "_mark_unset(&mut self) { self.0 = isf::bits::set_bit64(self.0 as u64, "@
                        + off + ", true) as "@ + un + "; }\n"@
                },
                _ => Seq::empty(),
            }
        } else {
            Seq::empty()
        }) + spec_marker_pieces(layout, fields, name, un, j + 1)
    }
}

/// The accessor block of the group element `i` opens: its getter, its
/// setter (private when the group is a checked constant), and its marker
/// queries.
pub open spec fn spec_accessor_block(
    layout: Seq<MachineElement>,
    fields: Seq<Field>,
    storage: int,
    i: int,
) -> Seq<char> {
    let name = elem_name(layout[i]);
    let vtw = lw0(layout[i], fields);
    let vt = vt_name(vtw);
    let un = storage_name(storage);
    let private = layout[i] matches MachineElement::Constant { value: Some(_), .. };
    spec_getter(layout, fields, i) + (if private {
        "fn set_"@
    } else {
        "pub fn set_"@
    }) + name + "(&mut self, value: "@ + vt + ") { "@ + spec_set_pieces(
        layout,
        fields,
        name,
        vtw,
        un,
        0,
    ) + "}\n"@ + spec_marker_pieces(layout, fields, name, un, 0)
}

/// The accessor methods of the whole layout: one block per field-name
/// group, opened at the group's first placement; padding gets none.
pub open spec fn spec_accessors(
    layout: Seq<MachineElement>,
    fields: Seq<Field>,
    storage: int,
    i: int,
) -> Seq<char>
    decreases layout.len() - i when 0 <= i <= layout.len()
{
    if i < 0 || i >= layout.len() {
        Seq::empty()
    } else {
        (if !elem_is_padding(layout[i]) && first_named(layout, i) {
            spec_accessor_block(layout, fields, storage, i)
        } else {
            Seq::empty()
        }) + spec_accessors(layout, fields, storage, i + 1)
    }
}

/// The default storage word of the layout: every checked constant's
/// expected value written at its offset and every absent-test marker set
/// to 1, in layout order, over an all-zero word.
pub open spec fn spec_layout_default(
    layout: Seq<MachineElement>,
    fields: Seq<Field>,
    i: int,
) -> u64
    decreases i,
{
    if i <= 0 {
        0
    } else {
        let w = spec_layout_default(layout, fields, i - 1);
        let off = width_sum(layout, fields, i - 1);
        let ew = width0(layout[i - 1], fields);
        if 0 <= off < 64 && ew > 0 {
            match layout[i - 1] {
                MachineElement::Constant { name, value: Some(v), .. } => if name@ == seq!['_'] {
                    w
                } else {
                    crate::bits::with_window64(w, off as u64, ew as u64, v)
                },
                MachineElement::OptionalFieldAbsentTest { .. } => crate::bits::with_window64(
                    w,
                    off as u64,
                    ew as u64,
                    1,
                ),
                _ => w,
            }
        } else {
            w
        }
    }
}

/// One assembly element's parsing step, strictly left to right over
/// character positions, with the library's verified scanners.
pub open spec fn spec_parse_step(x: AssemblyElement, fields: Seq<Field>) -> Seq<char> {
    match x {
        AssemblyElement::StringLiteral { value } => if value@.len() == 0 {
            Seq::empty()
        } else {
            "let i = match isf::text::match_lit(text, i, \""@ + spec_escape(value@)
                + "\") { Some(j) => j, None => { return Err(isf::AssemblyParseError { position: i }); }, };\n"@
        },
        AssemblyElement::NumberLiteral { value } => {
            "let i = match isf::text::match_lit(text, i, \""@ + dec_digits(value as nat)
                + "\") { Some(j) => j, None => { return Err(isf::AssemblyParseError { position: i }); }, };\n"@
        },
        AssemblyElement::OptionalFlag { name, field } => {
            "let p = match isf::text::match_lit(text, i, \""@ + spec_escape(name@)
                + "\") { Some(j) => (true, j), None => (false, i), };\nresult.set_"@ + field@
                + "(p.0);\nlet i = p.1;\n"@
        },
        AssemblyElement::OptionalField { name, with_dot } => {
            let vtw = match spec_find_field(fields, name@) {
                Some(k) => fields[k].width as int,
                None => 0,
            };
            let setv = if vtw == 1 {
                "(p.0 != 0)"@
            } else {
                "(p.0 as "@ + vt_name(vtw) + ")"@
            };
            if with_dot {
                "let i = { let a = isf::text::skip_ws(text, i); match isf::text::match_lit(text, a, \".\") { Some(d) => { let b = isf::text::skip_ws(text, d); match isf::text::scan_number(text, b) { Some(p) => { result.set_"@
                    + name@ + setv + "; p.1 }, None => b, } }, None => a, } };\n"@
            } else {
                "let i = match isf::text::scan_number(text, i) { Some(p) => { result.set_"@
                    + name@ + setv + "; p.1 }, None => isf::text::skip_ws(text, i), };\n"@
            }
        },
        AssemblyElement::Dot => {
            "let i = match isf::text::match_lit(text, i, \".\") { Some(j) => j, None => { return Err(isf::AssemblyParseError { position: i }); }, };\n"@
        },
        AssemblyElement::Comma => {
            "let i = match isf::text::match_lit(text, i, \",\") { Some(j) => j, None => { return Err(isf::AssemblyParseError { position: i }); }, };\n"@
        },
        AssemblyElement::Space => "let i = isf::text::skip_ws(text, i);\n"@,
        AssemblyElement::Field { name } => {
            let vtw = match spec_find_field(fields, name@) {
                Some(k) => fields[k].width as int,
                None => 0,
            };
            let setv = if vtw == 1 {
                "(p.0 != 0)"@
            } else {
                "(p.0 as "@ + vt_name(vtw) + ")"@
            };
            "let i = match isf::text::scan_number(text, i) { Some(p) => { result.set_"@ + name@
                + setv
                + "; p.1 }, None => { return Err(isf::AssemblyParseError { position: i }); }, };\n"@
        },
    }
}

/// The parsing steps of the whole syntax, in order.
pub open spec fn spec_parse_steps(
    syntax: Seq<AssemblyElement>,
    fields: Seq<Field>,
    k: int,
) -> Seq<char>
    decreases syntax.len() - k when 0 <= k <= syntax.len()
{
    if k < 0 || k >= syntax.len() {
        Seq::empty()
    } else {
        spec_parse_step(syntax[k], fields) + spec_parse_steps(syntax, fields, k + 1)
    }
}

/// One assembly element's emission step: literals verbatim, optional
/// operands suppressed when their raw value is zero, numerals in
/// decimal.
pub open spec fn spec_emit_step(x: AssemblyElement) -> Seq<char> {
    match x {
        AssemblyElement::StringLiteral { value } => if value@.len() == 0 {
            Seq::empty()
        } else {
            "s.push_str(\""@ + spec_escape(value@) + "\");\n"@
        },
        AssemblyElement::NumberLiteral { value } => {
            "s.push_str(\""@ + dec_digits(value as nat) + "\");\n"@
        },
        AssemblyElement::OptionalFlag { name, field } => {
            "if self.get_"@ + field@ + "() { s.push_str(\""@ + spec_escape(name@) + "\"); }\n"@
        },
        AssemblyElement::OptionalField { name, with_dot } => {
            "if self.get_"@ + name@ + "() as u64 != 0 { "@ + (if with_dot {
                "s.push_str(\".\"); "@
            } else {
                Seq::empty()
            }) + "s.push_str(isf::text::u64_to_dec(self.get_"@ + name@
                + "() as u64).as_str()); }\n"@
        },
        AssemblyElement::Dot => "s.push_str(\".\");\n"@,
        AssemblyElement::Comma => "s.push_str(\",\");\n"@,
        AssemblyElement::Space => "s.push_str(\" \");\n"@,
        AssemblyElement::Field { name } => {
            "s.push_str(isf::text::u64_to_dec(self.get_"@ + name@ + "() as u64).as_str());\n"@
        },
    }
}

/// The emission steps of the whole syntax, in order.
pub open spec fn spec_emit_steps(syntax: Seq<AssemblyElement>, k: int) -> Seq<char>
    decreases syntax.len() - k when 0 <= k <= syntax.len()
{
    if k < 0 || k >= syntax.len() {
        Seq::empty()
    } else {
        spec_emit_step(syntax[k]) + spec_emit_steps(syntax, k + 1)
    }
}

/// The decode-time validation of every checked constant, in layout
/// order: a mismatch reports the constant's name with the expected and
/// observed values.
pub open spec fn spec_machine_checks(
    layout: Seq<MachineElement>,
    fields: Seq<Field>,
    j: int,
) -> Seq<char>
    decreases layout.len() - j when 0 <= j <= layout.len()
{
    if j < 0 || j >= layout.len() {
        Seq::empty()
    } else {
        (match layout[j] {
            MachineElement::Constant { name, value: Some(v), .. } => if name@ == seq!['_'] {
                Seq::empty()
            } else {
                "let found = isf::bits::get_bits64(perhaps.0 as u64, "@ + dec_digits(
                    width_sum(layout, fields, j) as nat,
                ) + ", "@ + dec_digits(width0(layout[j], fields) as nat) + ");\nif found != "@
                    + dec_digits(v as nat) + " { return Err(isf::FieldMismatchError { field: \""@
                    + spec_escape(name@) + "\".to_owned(), expected: "@ + dec_digits(v as nat)
                    + ", found }); }\n"@
            },
            _ => Seq::empty(),
        }) + spec_machine_checks(layout, fields, j + 1)
    }
}

/// The full source text emitted for one instruction: the storage-backed
/// struct with its documentation, default construction from the layout's
/// default word, the accessor methods, and the assembly and machine
/// codec impls.
pub open spec fn spec_render_instruction(instr: Instruction, storage: int) -> Seq<char> {
    let layout = instr.machine.layout@;
    let fields = instr.fields@;
    let name = instr.name@;
    let un = storage_name(storage);
    "/// "@ + spec_flatten(instr.doc@) + "\n#[derive(Debug, PartialEq, Eq)]\npub struct "@ + name
        + "(pub "@ + un + ");\nimpl Default for "@ + name + " { fn default() -> Self { Self("@
        + dec_digits(spec_layout_default(layout, fields, layout.len() as int) as nat) + " as "@
        + un + ") } }\nimpl "@ + name + " {\n"@ + spec_accessors(layout, fields, storage, 0)
        + "}\nimpl isf::AssemblyInstruction for "@ + name
        + " {\nfn parse_assembly(text: &str) -> Result<Self, isf::AssemblyParseError> {\nlet mut result = Self::default();\nlet i = 0usize;\n"@
        + spec_parse_steps(instr.assembly.syntax@, fields, 0)
        + "if i != text.chars().count() { return Err(isf::AssemblyParseError { position: i }); }\nOk(result)\n}\nfn emit_assembly(&self) -> String {\nlet mut s = String::new();\n"@
        + spec_emit_steps(instr.assembly.syntax@, 0)
        + "s\n}\n}\nimpl isf::MachineInstruction<"@ + un + "> for "@ + name
        + " {\nfn parse_machine(data: "@ + un
        + ") -> Result<Self, isf::FieldMismatchError> {\nlet perhaps = Self(data);\n"@
        + spec_machine_checks(layout, fields, 0) + "Ok(perhaps)\n}\nfn emit_machine(&self) -> "@
        + un + " { self.0 }\n}\n"@
}

/// Whether the instruction can be rendered against the given storage
/// width: the layout is well formed and fits the word, every accessor
/// group's logical width fits the widest window, and every assembly
/// operand names a declared field.
pub open spec fn instr_plan_fits(instr: Instruction, storage: int) -> bool {
    &&& layout_ok(instr.machine.layout@, instr.fields@)
    &&& width_sum(instr.machine.layout@, instr.fields@, instr.machine.layout@.len() as int)
        <= storage
    &&& forall|i: int|
        0 <= i < instr.machine.layout@.len() ==> (match spec_logical_width(
            #[trigger] instr.machine.layout@[i],
            instr.fields@,
        ) {
            Some(w) => w <= 64,
            None => true,
        })
    &&& forall|k: int|
        0 <= k < instr.assembly.syntax@.len() ==> asm_ref_ok(
            #[trigger] instr.assembly.syntax@[k],
            instr.fields@,
        )
}

/// Whether an assembly element's operand, if it names a field, names a
/// declared one.
pub open spec fn asm_ref_ok(x: AssemblyElement, fields: Seq<Field>) -> bool {
    match x {
        AssemblyElement::Field { name } => spec_find_field(fields, name@) is Some,
        AssemblyElement::OptionalField { name, .. } => spec_find_field(fields, name@) is Some,
        _ => true,
    }
}

/// Escape the text for the inside of a string literal.
fn escape_text(s: &str) -> (r: String)
    ensures
        r@ == spec_escape(s@),
{
    let n = s.unicode_len();
    let mut out = String::new();
    proof {
        assert(s@.skip(0) =~= s@);
        assert(Seq::<char>::empty() + spec_escape(s@) =~= spec_escape(s@));
    }
    let mut j: usize = 0;
    while j < n
        invariant
            0 <= j <= n,
            n == s@.len(),
            spec_escape(s@) == out@ + spec_escape(s@.skip(j as int)),
        decreases n - j,
    {
        let c = s.get_char(j);
        let ghost pre = out@;
        proof {
            let t = s@.skip(j as int);
            assert(t[0] == s@[j as int]);
            assert(t.skip(1) =~= s@.skip(j + 1));
        }
        if c == '"' || c == '\\' {
            push_char(&mut out, '\\');
            push_char(&mut out, c);
            proof {
                assert(out@ + spec_escape(s@.skip(j + 1)) =~= pre + (seq!['\\', c] + spec_escape(
                    s@.skip(j + 1),
                )));
            }
        } else {
            push_char(&mut out, c);
            proof {
                assert(out@ + spec_escape(s@.skip(j + 1)) =~= pre + (seq![c] + spec_escape(
                    s@.skip(j + 1),
                )));
            }
        }
        j += 1;
    }
    proof {
        assert(s@.skip(n as int) =~= Seq::<char>::empty());
        assert(out@ + Seq::<char>::empty() =~= out@);
    }
    out
}

/// Replace line breaks by spaces, for a line comment.
fn flatten_text(s: &str) -> (r: String)
    ensures
        r@ == spec_flatten(s@),
{
    let n = s.unicode_len();
    let mut out = String::new();
    proof {
        assert(s@.skip(0) =~= s@);
        assert(Seq::<char>::empty() + spec_flatten(s@) =~= spec_flatten(s@));
    }
    let mut j: usize = 0;
    while j < n
        invariant
            0 <= j <= n,
            n == s@.len(),
            spec_flatten(s@) == out@ + spec_flatten(s@.skip(j as int)),
        decreases n - j,
    {
        let c = s.get_char(j);
        let ghost pre = out@;
        proof {
            let t = s@.skip(j as int);
            assert(t[0] == s@[j as int]);
            assert(t.skip(1) =~= s@.skip(j + 1));
        }
        if c == '\n' || c == '\r' {
            push_char(&mut out, ' ');
            proof {
                assert(out@ + spec_flatten(s@.skip(j + 1)) =~= pre + (seq![' '] + spec_flatten(
                    s@.skip(j + 1),
                )));
            }
        } else {
            push_char(&mut out, c);
            proof {
                assert(out@ + spec_flatten(s@.skip(j + 1)) =~= pre + (seq![c] + spec_flatten(
                    s@.skip(j + 1),
                )));
            }
        }
        j += 1;
    }
    proof {
        assert(s@.skip(n as int) =~= Seq::<char>::empty());
        assert(out@ + Seq::<char>::empty() =~= out@);
    }
    out
}

/// The storage word type's name.
fn storage_text(storage: usize) -> (r: &'static str)
    ensures
        r@ == storage_name(storage as int),
{
    if storage == 8 {
        "u8"
    } else if storage == 16 {
        "u16"
    } else if storage == 32 {
        "u32"
    } else {
        "u64"
    }
}

/// The accessor value type's name.
fn vt_text(width: usize) -> (r: &'static str)
    ensures
        r@ == vt_name(width as int),
{
    if width == 1 {
        "bool"
    } else if width <= 8 {
        "u8"
    } else if width <= 16 {
        "u16"
    } else if width <= 32 {
        "u32"
    } else {
        "u64"
    }
}

/// Whether the element bears the given name.
fn eq_name(e: &MachineElement, name: &str) -> (r: bool)
    ensures
        r == (elem_name(*e) == name@),
{
    match e {
        MachineElement::Field { name: n } => str_eq(n.as_str(), name),
        MachineElement::FieldSlice { name: n, .. } => str_eq(n.as_str(), name),
        MachineElement::FieldNegate { name: n } => str_eq(n.as_str(), name),
        MachineElement::OptionalFieldPresentTest { name: n } => str_eq(n.as_str(), name),
        MachineElement::OptionalFieldAbsentTest { name: n } => str_eq(n.as_str(), name),
        MachineElement::Constant { name: n, .. } => str_eq(n.as_str(), name),
    }
}

/// Whether the element is unchecked padding.
fn is_padding(e: &MachineElement) -> (r: bool)
    ensures
        r == elem_is_padding(*e),
{
    proof {
        reveal_strlit("_");
        assert("_"@ =~= seq!['_']);
    }
    match e {
        MachineElement::Constant { name, .. } => str_eq(name.as_str(), "_"),
        _ => false,
    }
}

/// The element's placement width; the layout has been checked, so every
/// element is well formed and no wider than the storage word.
fn elem_width_checked(instr: &Instruction, j: usize) -> (r: usize)
    requires
        j < instr.machine.layout@.len(),
        spec_elem_width(instr.machine.layout@[j as int], instr.fields@) is Some,
        width0(instr.machine.layout@[j as int], instr.fields@) <= 64,
    ensures
        r as int == width0(instr.machine.layout@[j as int], instr.fields@),
{
    match &instr.machine.layout[j] {
        MachineElement::Field { name } => match instr.get_field(name.as_str()) {
            Some(f) => f.width,
            None => {
                proof {
                    assert(false);
                }
                unreached()
            },
        },
        MachineElement::FieldNegate { name } => match instr.get_field(name.as_str()) {
            Some(f) => f.width,
            None => {
                proof {
                    assert(false);
                }
                unreached()
            },
        },
        MachineElement::FieldSlice { name, begin, end } => (*end - *begin) + 1,
        MachineElement::OptionalFieldPresentTest { .. } => 1,
        MachineElement::OptionalFieldAbsentTest { .. } => 1,
        MachineElement::Constant { width, .. } => *width,
    }
}

/// The element's logical field width, under the same checks.
fn logical_width_checked(instr: &Instruction, j: usize) -> (r: usize)
    requires
        j < instr.machine.layout@.len(),
        spec_logical_width(instr.machine.layout@[j as int], instr.fields@) is Some,
        lw0(instr.machine.layout@[j as int], instr.fields@) <= 64,
    ensures
        r as int == lw0(instr.machine.layout@[j as int], instr.fields@),
{
    match &instr.machine.layout[j] {
        MachineElement::FieldSlice { name, .. } => match instr.get_field(name.as_str()) {
            Some(f) => f.width,
            None => {
                proof {
                    assert(false);
                }
                unreached()
            },
        },
        MachineElement::OptionalFieldPresentTest { name } => match instr.get_field(name.as_str()) {
            Some(f) => f.width,
            None => {
                proof {
                    assert(false);
                }
                unreached()
            },
        },
        MachineElement::OptionalFieldAbsentTest { name } => match instr.get_field(name.as_str()) {
            Some(f) => f.width,
            None => {
                proof {
                    assert(false);
                }
                unreached()
            },
        },
        MachineElement::Field { name } => match instr.get_field(name.as_str()) {
            Some(f) => f.width,
            None => {
                proof {
                    assert(false);
                }
                unreached()
            },
        },
        MachineElement::FieldNegate { name } => match instr.get_field(name.as_str()) {
            Some(f) => f.width,
            None => {
                proof {
                    assert(false);
                }
                unreached()
            },
        },
        MachineElement::Constant { width, .. } => *width,
    }
}

/// Whether the instruction's layout and assembly references fit the
/// storage word, reporting the first defect.
fn check_fits(instr: &Instruction, storage: usize) -> (r: Result<(), LayoutError>)
    requires
        storage <= 64,
    ensures
        r is Ok <==> instr_plan_fits(*instr, storage as int),
{
    let n = instr.machine.layout.len();
    let mut sum: usize = 0;
    let mut j: usize = 0;
    while j < n
        invariant
            0 <= j <= n,
            n == instr.machine.layout@.len(),
            storage <= 64,
            sum == width_sum(instr.machine.layout@, instr.fields@, j as int),
            sum <= storage,
            forall|k: int|
                0 <= k < j ==> (#[trigger] spec_elem_width(
                    instr.machine.layout@[k],
                    instr.fields@,
                )) is Some,
            forall|k: int|
                0 <= k < j ==> (match spec_logical_width(
                    #[trigger] instr.machine.layout@[k],
                    instr.fields@,
                ) {
                    Some(w) => w <= 64,
                    None => true,
                }),
        decreases n - j,
    {
        let e = &instr.machine.layout[j];
        let (ew, lwv): (usize, usize) = match e {
            MachineElement::Field { name } => match instr.get_field(name.as_str()) {
                Some(f) => (f.width, f.width),
                None => {
                    proof {
                        assert(spec_elem_width(instr.machine.layout@[j as int], instr.fields@)
                            is None);
                    }
                    return Err(
                        LayoutError::UndefinedField {
                            instruction: instr.name.clone(),
                            element: name.clone(),
                        },
                    );
                },
            },
            MachineElement::FieldNegate { name } => match instr.get_field(name.as_str()) {
                Some(f) => (f.width, f.width),
                None => {
                    proof {
                        assert(spec_elem_width(instr.machine.layout@[j as int], instr.fields@)
                            is None);
                    }
                    return Err(
                        LayoutError::UndefinedField {
                            instruction: instr.name.clone(),
                            element: name.clone(),
                        },
                    );
                },
            },
            MachineElement::FieldSlice { name, begin, end } => {
                let fw = match instr.get_field(name.as_str()) {
                    Some(f) => f.width,
                    None => {
                        proof {
                            assert(spec_elem_width(instr.machine.layout@[j as int], instr.fields@)
                                is None);
                        }
                        return Err(
                            LayoutError::UndefinedField {
                                instruction: instr.name.clone(),
                                element: name.clone(),
                            },
                        );
                    },
                };
                if *begin > *end {
                    proof {
                        assert(spec_elem_width(instr.machine.layout@[j as int], instr.fields@)
                            is None);
                    }
                    return Err(
                        LayoutError::InvalidSlice {
                            instruction: instr.name.clone(),
                            element: name.clone(),
                        },
                    );
                }
                if *end - *begin >= storage {
                    proof {
                        crate::layout::lemma_width_sum_mono(
                            instr.machine.layout@,
                            instr.fields@,
                            j + 1,
                            n as int,
                        );
                    }
                    return Err(LayoutError::TooWide { instruction: instr.name.clone() });
                }
                ((*end - *begin) + 1, fw)
            },
            MachineElement::OptionalFieldPresentTest { name } => match instr.get_field(
                name.as_str(),
            ) {
                Some(f) => (1, f.width),
                None => {
                    proof {
                        assert(spec_elem_width(instr.machine.layout@[j as int], instr.fields@)
                            is None);
                    }
                    return Err(
                        LayoutError::UndefinedField {
                            instruction: instr.name.clone(),
                            element: name.clone(),
                        },
                    );
                },
            },
            MachineElement::OptionalFieldAbsentTest { name } => match instr.get_field(
                name.as_str(),
            ) {
                Some(f) => (1, f.width),
                None => {
                    proof {
                        assert(spec_elem_width(instr.machine.layout@[j as int], instr.fields@)
                            is None);
                    }
                    return Err(
                        LayoutError::UndefinedField {
                            instruction: instr.name.clone(),
                            element: name.clone(),
                        },
                    );
                },
            },
            MachineElement::Constant { width, .. } => (*width, *width),
        };
        if lwv > 64 {
            proof {
                assert(match spec_logical_width(
                    instr.machine.layout@[j as int],
                    instr.fields@,
                ) {
                    Some(w) => !(w <= 64),
                    None => false,
                });
            }
            return Err(LayoutError::TooWide { instruction: instr.name.clone() });
        }
        if ew > storage - sum {
            proof {
                crate::layout::lemma_width_sum_mono(
                    instr.machine.layout@,
                    instr.fields@,
                    j + 1,
                    n as int,
                );
            }
            return Err(LayoutError::TooWide { instruction: instr.name.clone() });
        }
        sum = sum + ew;
        j += 1;
    }
    let m = instr.assembly.syntax.len();
    let mut k: usize = 0;
    while k < m
        invariant
            0 <= k <= m,
            m == instr.assembly.syntax@.len(),
            forall|q: int|
                0 <= q < k ==> asm_ref_ok(#[trigger] instr.assembly.syntax@[q], instr.fields@),
        decreases m - k,
    {
        match &instr.assembly.syntax[k] {
            AssemblyElement::Field { name } => {
                if instr.get_field(name.as_str()).is_none() {
                    proof {
                        assert(!asm_ref_ok(instr.assembly.syntax@[k as int], instr.fields@));
                    }
                    return Err(
                        LayoutError::UndefinedField {
                            instruction: instr.name.clone(),
                            element: name.clone(),
                        },
                    );
                }
            },
            AssemblyElement::OptionalField { name, .. } => {
                if instr.get_field(name.as_str()).is_none() {
                    proof {
                        assert(!asm_ref_ok(instr.assembly.syntax@[k as int], instr.fields@));
                    }
                    return Err(
                        LayoutError::UndefinedField {
                            instruction: instr.name.clone(),
                            element: name.clone(),
                        },
                    );
                }
            },
            _ => {},
        }
        k += 1;
    }
    Ok(())
}

/// The bit offset of element `g`, computed by the walk.
fn offset_of(instr: &Instruction, g: usize) -> (r: usize)
    requires
        g <= instr.machine.layout@.len(),
        layout_ok(instr.machine.layout@, instr.fields@),
        width_sum(instr.machine.layout@, instr.fields@, instr.machine.layout@.len() as int) <= 64,
    ensures
        r as int == width_sum(instr.machine.layout@, instr.fields@, g as int),
        r <= 64,
{
    let mut off: usize = 0;
    let mut j: usize = 0;
    while j < g
        invariant
            0 <= j <= g <= instr.machine.layout@.len(),
            layout_ok(instr.machine.layout@, instr.fields@),
            width_sum(instr.machine.layout@, instr.fields@, instr.machine.layout@.len() as int)
                <= 64,
            off as int == width_sum(instr.machine.layout@, instr.fields@, j as int),
            off <= 64,
        decreases g - j,
    {
        proof {
            crate::layout::lemma_width_sum_mono(instr.machine.layout@, instr.fields@, 0, j as int);
            crate::layout::lemma_width_sum_mono(
                instr.machine.layout@,
                instr.fields@,
                j + 1,
                instr.machine.layout@.len() as int,
            );
        }
        let ew = elem_width_checked(instr, j);
        off = off + ew;
        j += 1;
    }
    proof {
        crate::layout::lemma_width_sum_mono(
            instr.machine.layout@,
            instr.fields@,
            g as int,
            instr.machine.layout@.len() as int,
        );
        crate::layout::lemma_width_sum_mono(instr.machine.layout@, instr.fields@, 0, g as int);
    }
    off
}

/// The first getter-bearing element with the given name, if any.
fn first_get_exec(instr: &Instruction, gname: &str) -> (r: Option<usize>)
    ensures
        match r {
            Some(g) => first_get_idx(instr.machine.layout@, gname@, 0) == Some(g as int),
            None => first_get_idx(instr.machine.layout@, gname@, 0) is None,
        },
{
    let n = instr.machine.layout.len();
    let mut j: usize = 0;
    while j < n
        invariant
            0 <= j <= n,
            n == instr.machine.layout@.len(),
            first_get_idx(instr.machine.layout@, gname@, 0) == first_get_idx(
                instr.machine.layout@,
                gname@,
                j as int,
            ),
        decreases n - j,
    {
        let e = &instr.machine.layout[j];
        if !is_padding(e) && !(matches!(e, MachineElement::OptionalFieldPresentTest { .. })
            || matches!(e, MachineElement::OptionalFieldAbsentTest { .. })) && eq_name(e, gname) {
            return Some(j);
        }
        j += 1;
    }
    None
}

/// Whether element `i` opens its accessor group.
fn first_named_exec(instr: &Instruction, i: usize) -> (r: bool)
    requires
        i < instr.machine.layout@.len(),
    ensures
        r == first_named(instr.machine.layout@, i as int),
{
    let gname = instr.machine.layout[i].name();
    let mut j: usize = 0;
    while j < i
        invariant
            0 <= j <= i < instr.machine.layout@.len(),
            gname@ == elem_name(instr.machine.layout@[i as int]),
            forall|k: int|
                0 <= k < j ==> elem_is_padding(#[trigger] instr.machine.layout@[k]) || elem_name(
                    instr.machine.layout@[k],
                ) != elem_name(instr.machine.layout@[i as int]),
        decreases i - j,
    {
        let e = &instr.machine.layout[j];
        if !is_padding(e) && eq_name(e, gname.as_str()) {
            return false;
        }
        j += 1;
    }
    true
}

/// The accumulated getter pieces of the slices bearing `gname`.
fn slice_pieces_text(instr: &Instruction, gname: &str, vt: &str, j: usize, off: usize) -> (r:
    String)
    requires
        j <= instr.machine.layout@.len(),
        layout_ok(instr.machine.layout@, instr.fields@),
        width_sum(instr.machine.layout@, instr.fields@, instr.machine.layout@.len() as int) <= 64,
        off as int == width_sum(instr.machine.layout@, instr.fields@, j as int),
    ensures
        r@ == spec_slice_get_pieces(instr.machine.layout@, instr.fields@, gname@, vt@, j as int),
    decreases instr.machine.layout@.len() - j,
{
    let n = instr.machine.layout.len();
    if j == n {
        let r = String::new();
        proof {
            assert(r@ =~= spec_slice_get_pieces(
                instr.machine.layout@,
                instr.fields@,
                gname@,
                vt@,
                j as int,
            ));
        }
        return r;
    }
    proof {
        crate::layout::lemma_width_sum_mono(instr.machine.layout@, instr.fields@, 0, j as int);
        crate::layout::lemma_width_sum_mono(
            instr.machine.layout@,
            instr.fields@,
            j + 1,
            n as int,
        );
    }
    let ew = elem_width_checked(instr, j);
    let mut out = String::new();
    match &instr.machine.layout[j] {
        MachineElement::FieldSlice { name, begin, .. } => {
            if str_eq(name.as_str(), gname) {
                out.append("result |= (isf::bits::get_bits64(self.0 as u64, ");
                let d = u64_to_dec(off as u64);
                out.append(d.as_str());
                out.append(", ");
                let d = u64_to_dec(ew as u64);
                out.append(d.as_str());
                out.append(") as ");
                out.append(vt);
                out.append(") << ");
                let d = u64_to_dec(*begin as u64);
                out.append(d.as_str());
                out.append("; ");
            }
        },
        _ => {},
    }
    let rest = slice_pieces_text(instr, gname, vt, j + 1, off + ew);
    out.append(rest.as_str());
    proof {
        assert(out@ =~= spec_slice_get_pieces(
            instr.machine.layout@,
            instr.fields@,
            gname@,
            vt@,
            j as int,
        ));
    }
    out
}

/// The setter pieces of the non-padding elements bearing `gname`.
fn set_pieces_text(instr: &Instruction, gname: &str, vtw: usize, un: &str, j: usize, off: usize)
    -> (r: String)
    requires
        j <= instr.machine.layout@.len(),
        layout_ok(instr.machine.layout@, instr.fields@),
        width_sum(instr.machine.layout@, instr.fields@, instr.machine.layout@.len() as int) <= 64,
        off as int == width_sum(instr.machine.layout@, instr.fields@, j as int),
    ensures
        r@ == spec_set_pieces(
            instr.machine.layout@,
            instr.fields@,
            gname@,
            vtw as int,
            un@,
            j as int,
        ),
    decreases instr.machine.layout@.len() - j,
{
    let n = instr.machine.layout.len();
    if j == n {
        let r = String::new();
        proof {
            assert(r@ =~= spec_set_pieces(
                instr.machine.layout@,
                instr.fields@,
                gname@,
                vtw as int,
                un@,
                j as int,
            ));
        }
        return r;
    }
    proof {
        crate::layout::lemma_width_sum_mono(instr.machine.layout@, instr.fields@, 0, j as int);
        crate::layout::lemma_width_sum_mono(
            instr.machine.layout@,
            instr.fields@,
            j + 1,
            n as int,
        );
    }
    let ew = elem_width_checked(instr, j);
    let e = &instr.machine.layout[j];
    let mut out = String::new();
    if !is_padding(e) && eq_name(e, gname) {
        let offd = u64_to_dec(off as u64);
        let ewd = u64_to_dec(ew as u64);
        match e {
            MachineElement::Field { .. } | MachineElement::Constant { .. } => {
                if vtw == 1 {
                    out.append("self.0 = isf::bits::set_bit64(self.0 as u64, ");
                    out.append(offd.as_str());
                    out.append(", value) as ");
                    out.append(un);
                    out.append("; ");
                } else {
                    out.append("self.0 = isf::bits::set_bits64(self.0 as u64, ");
                    out.append(offd.as_str());
                    out.append(", ");
                    out.append(ewd.as_str());
                    out.append(", value as u64) as ");
                    out.append(un);
                    out.append("; ");
                }
            },
            MachineElement::FieldNegate { .. } => {
                if vtw == 1 {
                    out.append("self.0 = isf::bits::set_bit64(self.0 as u64, ");
                    out.append(offd.as_str());
                    out.append(", !value) as ");
                    out.append(un);
                    out.append("; ");
                } else {
                    out.append("self.0 = isf::bits::set_bits64(self.0 as u64, ");
                    out.append(offd.as_str());
                    out.append(", ");
                    out.append(ewd.as_str());
                    out.append(", (value as u64) ^ isf::bits::mask_bits64(");
                    out.append(ewd.as_str());
                    out.append(")) as ");
                    out.append(un);
                    out.append("; ");
                }
            },
            MachineElement::FieldSlice { begin, .. } => {
                out.append("self.0 = isf::bits::set_bits64(self.0 as u64, ");
                out.append(offd.as_str());
                out.append(", ");
                out.append(ewd.as_str());
                out.append(", (value >> ");
                let d = u64_to_dec(*begin as u64);
                out.append(d.as_str());
                out.append(") as u64) as ");
                out.append(un);
                out.append("; ");
            },
            MachineElement::OptionalFieldPresentTest { .. } => {
                out.append("self.0 = isf::bits::set_bits64(self.0 as u64, ");
                out.append(offd.as_str());
                out.append(", 1, 1) as ");
                out.append(un);
                out.append("; ");
            },
            MachineElement::OptionalFieldAbsentTest { .. } => {
                out.append("self.0 = isf::bits::set_bits64(self.0 as u64, ");
                out.append(offd.as_str());
                out.append(", 1, 0) as ");
                out.append(un);
                out.append("; ");
            },
        }
    }
    let rest = set_pieces_text(instr, gname, vtw, un, j + 1, off + ew);
    out.append(rest.as_str());
    proof {
        assert(out@ =~= spec_set_pieces(
            instr.machine.layout@,
            instr.fields@,
            gname@,
            vtw as int,
            un@,
            j as int,
        ));
    }
    out
}

/// The marker queries of the marker elements bearing `gname`.
fn marker_pieces_text(instr: &Instruction, gname: &str, un: &str, j: usize, off: usize) -> (r:
    String)
    requires
        j <= instr.machine.layout@.len(),
        layout_ok(instr.machine.layout@, instr.fields@),
        width_sum(instr.machine.layout@, instr.fields@, instr.machine.layout@.len() as int) <= 64,
        off as int == width_sum(instr.machine.layout@, instr.fields@, j as int),
    ensures
        r@ == spec_marker_pieces(instr.machine.layout@, instr.fields@, gname@, un@, j as int),
    decreases instr.machine.layout@.len() - j,
{
    let n = instr.machine.layout.len();
    if j == n {
        let r = String::new();
        proof {
            assert(r@ =~= spec_marker_pieces(
                instr.machine.layout@,
                instr.fields@,
                gname@,
                un@,
                j as int,
            ));
        }
        return r;
    }
    proof {
        crate::layout::lemma_width_sum_mono(instr.machine.layout@, instr.fields@, 0, j as int);
        crate::layout::lemma_width_sum_mono(
            instr.machine.layout@,
            instr.fields@,
            j + 1,
            n as int,
        );
    }
    let ew = elem_width_checked(instr, j);
    let e = &instr.machine.layout[j];
    let mut out = String::new();
    if eq_name(e, gname) {
        let offd = u64_to_dec(off as u64);
        match e {
            MachineElement::OptionalFieldPresentTest { .. } => {
                out.append("pub fn ");
                out.append(gname);
                out.append("_is_set(&self) -> bool { isf::bits::get_bit64(self.0 as u64, ");
                out.append(offd.as_str());
                out.append(") }\nfn ");
                out.append(gname);
                out.append("_mark_unset(&mut self) { self.0 = isf::bits::set_bit64(self.0 as u64, ");
                out.append(offd.as_str());
                out.append(", false) as ");
                out.append(un);
                out.append("; }\n");
            },
            MachineElement::OptionalFieldAbsentTest { .. } => {
                out.append("pub fn ");
                out.append(gname);
                out.append("_is_set(&self) -> bool { !isf::bits::get_bit64(self.0 as u64, ");
                out.append(offd.as_str());
                out.append(") }\nfn ");
                out.append(gname);
                out.append("_mark_unset(&mut self) { self.0 = isf::bits::set_bit64(self.0 as u64, ");
                out.append(offd.as_str());
                out.append(", true) as ");
                out.append(un);
                out.append("; }\n");
            },
            _ => {},
        }
    }
    let rest = marker_pieces_text(instr, gname, un, j + 1, off + ew);
    out.append(rest.as_str());
    proof {
        assert(out@ =~= spec_marker_pieces(
            instr.machine.layout@,
            instr.fields@,
            gname@,
            un@,
            j as int,
        ));
    }
    out
}

/// The getter of the group that element `i` opens.
fn getter_text(instr: &Instruction, i: usize) -> (r: String)
    requires
        i < instr.machine.layout@.len(),
        layout_ok(instr.machine.layout@, instr.fields@),
        width_sum(instr.machine.layout@, instr.fields@, instr.machine.layout@.len() as int) <= 64,
        forall|k: int|
            0 <= k < instr.machine.layout@.len() ==> (match spec_logical_width(
                #[trigger] instr.machine.layout@[k],
                instr.fields@,
            ) {
                Some(w) => w <= 64,
                None => true,
            }),
    ensures
        r@ == spec_getter(instr.machine.layout@, instr.fields@, i as int),
{
    let gname = instr.machine.layout[i].name();
    let g = match first_get_exec(instr, gname.as_str()) {
        Some(g) => g,
        None => {
            let r = String::new();
            proof {
                assert(r@ =~= spec_getter(instr.machine.layout@, instr.fields@, i as int));
            }
            return r;
        },
    };
    proof {
        lemma_first_get_idx(instr.machine.layout@, gname@, 0);
    }
    let vtw = logical_width_checked(instr, g);
    let vt = vt_text(vtw);
    let off = offset_of(instr, g);
    proof {
        crate::layout::lemma_width_sum_mono(
            instr.machine.layout@,
            instr.fields@,
            g + 1,
            instr.machine.layout@.len() as int,
        );
    }
    let ew = elem_width_checked(instr, g);
    let offd = u64_to_dec(off as u64);
    let ewd = u64_to_dec(ew as u64);
    let mut out = String::new();
    match &instr.machine.layout[g] {
        MachineElement::FieldSlice { .. } => {
            out.append("pub fn get_");
            out.append(gname.as_str());
            out.append("(&self) -> ");
            out.append(vt);
            out.append(" { let mut result: ");
            out.append(vt);
            out.append(" = 0; ");
            let pieces = slice_pieces_text(instr, gname.as_str(), vt, 0, 0);
            out.append(pieces.as_str());
            out.append("result }\n");
        },
        MachineElement::FieldNegate { .. } => {
            if vtw == 1 {
                out.append("pub fn get_");
                out.append(gname.as_str());
                out.append("(&self) -> bool { !isf::bits::get_bit64(self.0 as u64, ");
                out.append(offd.as_str());
                out.append(") }\n");
            } else {
                out.append("pub fn get_");
                out.append(gname.as_str());
                out.append("(&self) -> ");
                out.append(vt);
                out.append(" { ((isf::bits::get_bits64(self.0 as u64, ");
                out.append(offd.as_str());
                out.append(", ");
                out.append(ewd.as_str());
                out.append(") ^ isf::bits::mask_bits64(");
                out.append(ewd.as_str());
                out.append(")) as ");
                out.append(vt);
                out.append(") }\n");
            }
        },
        _ => {
            if vtw == 1 {
                out.append("pub fn get_");
                out.append(gname.as_str());
                out.append("(&self) -> bool { isf::bits::get_bit64(self.0 as u64, ");
                out.append(offd.as_str());
                out.append(") }\n");
            } else {
                out.append("pub fn get_");
                out.append(gname.as_str());
                out.append("(&self) -> ");
                out.append(vt);
                out.append(" { (isf::bits::get_bits64(self.0 as u64, ");
                out.append(offd.as_str());
                out.append(", ");
                out.append(ewd.as_str());
                out.append(") as ");
                out.append(vt);
                out.append(") }\n");
            }
        },
    }
    proof {
        assert(out@ =~= spec_getter(instr.machine.layout@, instr.fields@, i as int));
    }
    out
}

/// The accessor block of the group element `i` opens.
fn accessor_block_text(instr: &Instruction, storage: usize, i: usize) -> (r: String)
    requires
        i < instr.machine.layout@.len(),
        storage == 8 || storage == 16 || storage == 32 || storage == 64,
        layout_ok(instr.machine.layout@, instr.fields@),
        width_sum(instr.machine.layout@, instr.fields@, instr.machine.layout@.len() as int) <= 64,
        forall|k: int|
            0 <= k < instr.machine.layout@.len() ==> (match spec_logical_width(
                #[trigger] instr.machine.layout@[k],
                instr.fields@,
            ) {
                Some(w) => w <= 64,
                None => true,
            }),
    ensures
        r@ == spec_accessor_block(instr.machine.layout@, instr.fields@, storage as int, i as int),
{
    let gname = instr.machine.layout[i].name();
    let vtw = logical_width_checked(instr, i);
    let vt = vt_text(vtw);
    let un = storage_text(storage);
    let private = matches!(&instr.machine.layout[i], MachineElement::Constant { value: Some(_), .. });
    let mut out = getter_text(instr, i);
    if private {
        out.append("fn set_");
    } else {
        out.append("pub fn set_");
    }
    out.append(gname.as_str());
    out.append("(&mut self, value: ");
    out.append(vt);
    out.append(") { ");
    let pieces = set_pieces_text(instr, gname.as_str(), vtw, un, 0, 0);
    out.append(pieces.as_str());
    out.append("}\n");
    let markers = marker_pieces_text(instr, gname.as_str(), un, 0, 0);
    out.append(markers.as_str());
    proof {
        assert(out@ =~= spec_accessor_block(
            instr.machine.layout@,
            instr.fields@,
            storage as int,
            i as int,
        ));
    }
    out
}

/// The accessor methods of the whole layout, from element `i` on.
fn accessors_text(instr: &Instruction, storage: usize, i: usize) -> (r: String)
    requires
        i <= instr.machine.layout@.len(),
        storage == 8 || storage == 16 || storage == 32 || storage == 64,
        layout_ok(instr.machine.layout@, instr.fields@),
        width_sum(instr.machine.layout@, instr.fields@, instr.machine.layout@.len() as int) <= 64,
        forall|k: int|
            0 <= k < instr.machine.layout@.len() ==> (match spec_logical_width(
                #[trigger] instr.machine.layout@[k],
                instr.fields@,
            ) {
                Some(w) => w <= 64,
                None => true,
            }),
    ensures
        r@ == spec_accessors(instr.machine.layout@, instr.fields@, storage as int, i as int),
    decreases instr.machine.layout@.len() - i,
{
    let n = instr.machine.layout.len();
    if i == n {
        let r = String::new();
        proof {
            assert(r@ =~= spec_accessors(
                instr.machine.layout@,
                instr.fields@,
                storage as int,
                i as int,
            ));
        }
        return r;
    }
    let mut out = if !is_padding(&instr.machine.layout[i]) && first_named_exec(instr, i) {
        accessor_block_text(instr, storage, i)
    } else {
        String::new()
    };
    let rest = accessors_text(instr, storage, i + 1);
    out.append(rest.as_str());
    proof {
        assert(out@ =~= spec_accessors(
            instr.machine.layout@,
            instr.fields@,
            storage as int,
            i as int,
        ));
    }
    out
}

/// The default storage word of the layout, by the fold
/// [`spec_layout_default`] describes.
fn layout_default_word(instr: &Instruction) -> (r: u64)
    requires
        layout_ok(instr.machine.layout@, instr.fields@),
        width_sum(instr.machine.layout@, instr.fields@, instr.machine.layout@.len() as int) <= 64,
    ensures
        r == spec_layout_default(
            instr.machine.layout@,
            instr.fields@,
            instr.machine.layout@.len() as int,
        ),
{
    let n = instr.machine.layout.len();
    let mut w: u64 = 0;
    let mut off: usize = 0;
    let mut k: usize = 0;
    while k < n
        invariant
            0 <= k <= n,
            n == instr.machine.layout@.len(),
            layout_ok(instr.machine.layout@, instr.fields@),
            width_sum(instr.machine.layout@, instr.fields@, n as int) <= 64,
            off as int == width_sum(instr.machine.layout@, instr.fields@, k as int),
            off <= 64,
            w == spec_layout_default(instr.machine.layout@, instr.fields@, k as int),
        decreases n - k,
    {
        proof {
            reveal_strlit("_");
            assert("_"@ =~= seq!['_']);
            crate::layout::lemma_width_sum_mono(instr.machine.layout@, instr.fields@, 0, k as int);
            crate::layout::lemma_width_sum_mono(
                instr.machine.layout@,
                instr.fields@,
                k + 1,
                n as int,
            );
        }
        let ew = elem_width_checked(instr, k);
        if off < 64 && ew > 0 {
            match &instr.machine.layout[k] {
                MachineElement::Constant { name, value: Some(v), .. } => {
                    if !str_eq(name.as_str(), "_") {
                        w = crate::bits::set_bits64(w, off as u64, ew as u64, *v);
                    }
                },
                MachineElement::OptionalFieldAbsentTest { .. } => {
                    w = crate::bits::set_bits64(w, off as u64, ew as u64, 1);
                },
                _ => {},
            }
        }
        off = off + ew;
        k += 1;
    }
    w
}

/// One assembly element's parsing step.
fn parse_step_text(instr: &Instruction, k: usize) -> (r: String)
    requires
        k < instr.assembly.syntax@.len(),
        asm_ref_ok(instr.assembly.syntax@[k as int], instr.fields@),
    ensures
        r@ == spec_parse_step(instr.assembly.syntax@[k as int], instr.fields@),
{
    let mut out = String::new();
    match &instr.assembly.syntax[k] {
        AssemblyElement::StringLiteral { value } => {
            if value.as_str().unicode_len() > 0 {
                out.append("let i = match isf::text::match_lit(text, i, \"");
                let e = escape_text(value.as_str());
                out.append(e.as_str());
                out.append(
                    "\") { Some(j) => j, None => { return Err(isf::AssemblyParseError { position: i }); }, };\n",
                );
            }
        },
        AssemblyElement::NumberLiteral { value } => {
            out.append("let i = match isf::text::match_lit(text, i, \"");
            let d = u64_to_dec(*value);
            out.append(d.as_str());
            out.append(
                "\") { Some(j) => j, None => { return Err(isf::AssemblyParseError { position: i }); }, };\n",
            );
        },
        AssemblyElement::OptionalFlag { name, field } => {
            out.append("let p = match isf::text::match_lit(text, i, \"");
            let e = escape_text(name.as_str());
            out.append(e.as_str());
            out.append("\") { Some(j) => (true, j), None => (false, i), };\nresult.set_");
            out.append(field.as_str());
            out.append("(p.0);\nlet i = p.1;\n");
        },
        AssemblyElement::OptionalField { name, with_dot } => {
            let fw = match instr.get_field(name.as_str()) {
                Some(f) => f.width,
                None => {
                    proof {
                        assert(false);
                    }
                    unreached()
                },
            };
            if *with_dot {
                out.append(
                    "let i = { let a = isf::text::skip_ws(text, i); match isf::text::match_lit(text, a, \".\") { Some(d) => { let b = isf::text::skip_ws(text, d); match isf::text::scan_number(text, b) { Some(p) => { result.set_",
                );
                out.append(name.as_str());
                if fw == 1 {
                    out.append("(p.0 != 0)");
                } else {
                    out.append("(p.0 as ");
                    out.append(vt_text(fw));
                    out.append(")");
                }
                out.append("; p.1 }, None => b, } }, None => a, } };\n");
            } else {
                out.append(
                    "let i = match isf::text::scan_number(text, i) { Some(p) => { result.set_",
                );
                out.append(name.as_str());
                if fw == 1 {
                    out.append("(p.0 != 0)");
                } else {
                    out.append("(p.0 as ");
                    out.append(vt_text(fw));
                    out.append(")");
                }
                out.append("; p.1 }, None => isf::text::skip_ws(text, i), };\n");
            }
        },
        AssemblyElement::Dot => {
            out.append(
                "let i = match isf::text::match_lit(text, i, \".\") { Some(j) => j, None => { return Err(isf::AssemblyParseError { position: i }); }, };\n",
            );
        },
        AssemblyElement::Comma => {
            out.append(
                "let i = match isf::text::match_lit(text, i, \",\") { Some(j) => j, None => { return Err(isf::AssemblyParseError { position: i }); }, };\n",
            );
        },
        AssemblyElement::Space => {
            out.append("let i = isf::text::skip_ws(text, i);\n");
        },
        AssemblyElement::Field { name } => {
            let fw = match instr.get_field(name.as_str()) {
                Some(f) => f.width,
                None => {
                    proof {
                        assert(false);
                    }
                    unreached()
                },
            };
            out.append("let i = match isf::text::scan_number(text, i) { Some(p) => { result.set_");
            out.append(name.as_str());
            if fw == 1 {
                out.append("(p.0 != 0)");
            } else {
                out.append("(p.0 as ");
                out.append(vt_text(fw));
                out.append(")");
            }
            out.append("; p.1 }, None => { return Err(isf::AssemblyParseError { position: i }); }, };\n");
        },
    }
    proof {
        assert(out@ =~= spec_parse_step(instr.assembly.syntax@[k as int], instr.fields@));
    }
    out
}

/// The parsing steps of the whole syntax, from element `k` on.
fn parse_steps_text(instr: &Instruction, k: usize) -> (r: String)
    requires
        k <= instr.assembly.syntax@.len(),
        forall|q: int|
            0 <= q < instr.assembly.syntax@.len() ==> asm_ref_ok(
                #[trigger] instr.assembly.syntax@[q],
                instr.fields@,
            ),
    ensures
        r@ == spec_parse_steps(instr.assembly.syntax@, instr.fields@, k as int),
    decreases instr.assembly.syntax@.len() - k,
{
    let m = instr.assembly.syntax.len();
    if k == m {
        let r = String::new();
        proof {
            assert(r@ =~= spec_parse_steps(instr.assembly.syntax@, instr.fields@, k as int));
        }
        return r;
    }
    let mut out = parse_step_text(instr, k);
    let rest = parse_steps_text(instr, k + 1);
    out.append(rest.as_str());
    proof {
        assert(out@ =~= spec_parse_steps(instr.assembly.syntax@, instr.fields@, k as int));
    }
    out
}

/// The emission steps of the whole syntax, from element `k` on.
fn emit_steps_text(instr: &Instruction, k: usize) -> (r: String)
    requires
        k <= instr.assembly.syntax@.len(),
    ensures
        r@ == spec_emit_steps(instr.assembly.syntax@, k as int),
    decreases instr.assembly.syntax@.len() - k,
{
    let m = instr.assembly.syntax.len();
    if k == m {
        let r = String::new();
        proof {
            assert(r@ =~= spec_emit_steps(instr.assembly.syntax@, k as int));
        }
        return r;
    }
    let mut out = String::new();
    match &instr.assembly.syntax[k] {
        AssemblyElement::StringLiteral { value } => {
            if value.as_str().unicode_len() > 0 {
                out.append("s.push_str(\"");
                let e = escape_text(value.as_str());
                out.append(e.as_str());
                out.append("\");\n");
            }
        },
        AssemblyElement::NumberLiteral { value } => {
            out.append("s.push_str(\"");
            let d = u64_to_dec(*value);
            out.append(d.as_str());
            out.append("\");\n");
        },
        AssemblyElement::OptionalFlag { name, field } => {
            out.append("if self.get_");
            out.append(field.as_str());
            out.append("() { s.push_str(\"");
            let e = escape_text(name.as_str());
            out.append(e.as_str());
            out.append("\"); }\n");
        },
        AssemblyElement::OptionalField { name, with_dot } => {
            out.append("if self.get_");
            out.append(name.as_str());
            out.append("() as u64 != 0 { ");
            if *with_dot {
                out.append("s.push_str(\".\"); ");
            }
            out.append("s.push_str(isf::text::u64_to_dec(self.get_");
            out.append(name.as_str());
            out.append("() as u64).as_str()); }\n");
        },
        AssemblyElement::Dot => {
            out.append("s.push_str(\".\");\n");
        },
        AssemblyElement::Comma => {
            out.append("s.push_str(\",\");\n");
        },
        AssemblyElement::Space => {
            out.append("s.push_str(\" \");\n");
        },
        AssemblyElement::Field { name } => {
            out.append("s.push_str(isf::text::u64_to_dec(self.get_");
            out.append(name.as_str());
            out.append("() as u64).as_str());\n");
        },
    }
    let rest = emit_steps_text(instr, k + 1);
    out.append(rest.as_str());
    proof {
        assert(out@ =~= spec_emit_steps(instr.assembly.syntax@, k as int));
    }
    out
}

/// The decode-time constant checks, from element `j` on.
fn machine_checks_text(instr: &Instruction, j: usize, off: usize) -> (r: String)
    requires
        j <= instr.machine.layout@.len(),
        layout_ok(instr.machine.layout@, instr.fields@),
        width_sum(instr.machine.layout@, instr.fields@, instr.machine.layout@.len() as int) <= 64,
        off as int == width_sum(instr.machine.layout@, instr.fields@, j as int),
    ensures
        r@ == spec_machine_checks(instr.machine.layout@, instr.fields@, j as int),
    decreases instr.machine.layout@.len() - j,
{
    let n = instr.machine.layout.len();
    if j == n {
        let r = String::new();
        proof {
            assert(r@ =~= spec_machine_checks(instr.machine.layout@, instr.fields@, j as int));
        }
        return r;
    }
    proof {
        reveal_strlit("_");
        assert("_"@ =~= seq!['_']);
        crate::layout::lemma_width_sum_mono(instr.machine.layout@, instr.fields@, 0, j as int);
        crate::layout::lemma_width_sum_mono(
            instr.machine.layout@,
            instr.fields@,
            j + 1,
            n as int,
        );
    }
    let ew = elem_width_checked(instr, j);
    let mut out = String::new();
    match &instr.machine.layout[j] {
        MachineElement::Constant { name, value: Some(v), .. } => {
            if !str_eq(name.as_str(), "_") {
                out.append("let found = isf::bits::get_bits64(perhaps.0 as u64, ");
                let d = u64_to_dec(off as u64);
                out.append(d.as_str());
                out.append(", ");
                let d = u64_to_dec(ew as u64);
                out.append(d.as_str());
                out.append(");\nif found != ");
                let d = u64_to_dec(*v);
                out.append(d.as_str());
                out.append(" { return Err(isf::FieldMismatchError { field: \"");
                let e = escape_text(name.as_str());
                out.append(e.as_str());
                out.append("\".to_owned(), expected: ");
                let d = u64_to_dec(*v);
                out.append(d.as_str());
                out.append(", found }); }\n");
            }
        },
        _ => {},
    }
    let rest = machine_checks_text(instr, j + 1, off + ew);
    out.append(rest.as_str());
    proof {
        assert(out@ =~= spec_machine_checks(instr.machine.layout@, instr.fields@, j as int));
    }
    out
}

/// Render one resolved instruction into source text for a storage word
/// of the given width: the packed struct, default construction from the
/// layout's default word, one accessor group per field, and the assembly
/// and machine codec impls, exactly as [`spec_render_instruction`]
/// states them.
#[verifier::rlimit(100)]
pub fn render_instruction(instr: &Instruction, storage: usize) -> (r: Result<String, LayoutError>)
    requires
        storage == 8 || storage == 16 || storage == 32 || storage == 64,
    ensures
        r is Ok <==> instr_plan_fits(*instr, storage as int),
        r matches Ok(text) ==> text@ == spec_render_instruction(*instr, storage as int),
{
    match check_fits(instr, storage) {
        Ok(()) => {},
        Err(e) => {
            return Err(e);
        },
    }
    let un = storage_text(storage);
    let w = layout_default_word(instr);
    let wd = u64_to_dec(w);
    let mut out = String::new();
    out.append("/// ");
    let doc = flatten_text(instr.doc.as_str());
    out.append(doc.as_str());
    out.append("\n#[derive(Debug, PartialEq, Eq)]\npub struct ");
    out.append(instr.name.as_str());
    out.append("(pub ");
    out.append(un);
    out.append(");\nimpl Default for ");
    out.append(instr.name.as_str());
    out.append(" { fn default() -> Self { Self(");
    out.append(wd.as_str());
    out.append(" as ");
    out.append(un);
    out.append(") } }\nimpl ");
    out.append(instr.name.as_str());
    out.append(" {\n");
    let acc = accessors_text(instr, storage, 0);
    out.append(acc.as_str());
    out.append("}\nimpl isf::AssemblyInstruction for ");
    out.append(instr.name.as_str());
    out.append(
        " {\nfn parse_assembly(text: &str) -> Result<Self, isf::AssemblyParseError> {\nlet mut result = Self::default();\nlet i = 0usize;\n",
    );
    let ps = parse_steps_text(instr, 0);
    out.append(ps.as_str());
    out.append(
        "if i != text.chars().count() { return Err(isf::AssemblyParseError { position: i }); }\nOk(result)\n}\nfn emit_assembly(&self) -> String {\nlet mut s = String::new();\n",
    );
    let es = emit_steps_text(instr, 0);
    out.append(es.as_str());
    out.append("s\n}\n}\nimpl isf::MachineInstruction<");
    out.append(un);
    out.append("> for ");
    out.append(instr.name.as_str());
    out.append(" {\nfn parse_machine(data: ");
    out.append(un);
    out.append(") -> Result<Self, isf::FieldMismatchError> {\nlet perhaps = Self(data);\n");
    let mc = machine_checks_text(instr, 0, 0);
    out.append(mc.as_str());
    out.append("Ok(perhaps)\n}\nfn emit_machine(&self) -> ");
    out.append(un);
    out.append(" { self.0 }\n}\n");
    proof {
        assert(out@ =~= spec_render_instruction(*instr, storage as int));
    }
    Ok(out)
}

} // verus!
