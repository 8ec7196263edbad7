//! The `AddOptField` instruction: width 32, layout `opcode:7 = 2`,
//! negated field `sign_extend`, field `dst:5`, padding `_:3`, field
//! `src1:5`, field `src1_sel:3`, field `a:3`, field `b:2`, present-test
//! `src1_sel?`, padding `_:2`; assembly syntax `'add' ['.sx' =
//! sign_extend] 'r' dst 'r' src1 [.src1_sel] [a] b`.  The `src1_sel`
//! operand is optional behind a dot, `a` is optional, and the
//! present-test bit records whether `src1_sel` was explicitly supplied.

use crate::bits::bit32;
use crate::bits::lemma_mask32_values;
use crate::bits::lemma_mask_noop32;
use crate::bits::lemma_window_bound32;
use crate::bits::lemma_window_flip32;
use crate::bits::lemma_window_set_get32;
use crate::bits::lemma_window_set_other32;
use crate::bits::lemma_window_zero32;
use crate::bits::set_bit32;
use crate::bits::set_bits32;
use crate::bits::get_bit32;
use crate::bits::get_bits32;
use crate::bits::window32;
use crate::bits::with_window32;
use crate::text::dec_digits;
use crate::text::has_lit;
use crate::text::lemma_dec_digits_are_digits;
use crate::text::lemma_digit_not_ws;
use crate::text::lemma_skip_ws_end_none;
use crate::text::lemma_spec_number_at;
use crate::text::match_lit;
use crate::text::scan_number;
use crate::text::skip_ws;
use crate::text::skip_ws_end;
use crate::text::spec_number;
use crate::text::u64_to_dec;
use crate::AssemblyInstruction;
use crate::AssemblyParseError;
use crate::FieldMismatchError;
use crate::MachineInstruction;
use vstd::prelude::*;

verus! {

/// An instruction
#[derive(Debug, PartialEq, Eq, Structural)]
pub struct AddOptField(pub u32);

/// The `opcode` constant region: bits 0..7.
pub open spec fn opcode_of(w: u32) -> u8 {
    window32(w, 0, 7) as u8
}

/// The `sign_extend` field: bit 7, stored with inverted polarity.
pub open spec fn sign_extend_of(w: u32) -> bool {
    !bit32(w, 7)
}

/// The `dst` field: bits 8..13.
pub open spec fn dst_of(w: u32) -> u8 {
    window32(w, 8, 5) as u8
}

/// The `src1` field: bits 16..21.
pub open spec fn src1_of(w: u32) -> u8 {
    window32(w, 16, 5) as u8
}

/// The `src1_sel` field: bits 21..24.
pub open spec fn src1_sel_of(w: u32) -> u8 {
    window32(w, 21, 3) as u8
}

/// The `a` field: bits 24..27.
pub open spec fn a_of(w: u32) -> u8 {
    window32(w, 24, 3) as u8
}

/// The `b` field: bits 27..29.
pub open spec fn b_of(w: u32) -> u8 {
    window32(w, 27, 2) as u8
}

/// The present-test bit for `src1_sel`: bit 29, set when the field's
/// setter has been invoked.
pub open spec fn src1_sel_set_of(w: u32) -> bool {
    bit32(w, 29)
}

/// The word with `src1_sel` written and its present-test bit marked.
pub open spec fn sel_set_word(w: u32, value: u32) -> u32 {
    with_window32(with_window32(w, 21, 3, value), 29, 1, 1)
}

/// The word a default-constructed `AddOptField` holds.
pub open spec fn default_word() -> u32 {
    with_window32(0, 0, 7, 2)
}

/// What machine-word decoding yields: the word itself when the `opcode`
/// constant holds its expected value, nothing otherwise.
pub open spec fn spec_parse_machine(data: u32) -> Option<AddOptField> {
    if opcode_of(data) == 2 {
        Some(AddOptField(data))
    } else {
        None
    }
}

/// Windows of this layout written over any word read back as written and
/// leave the other windows unchanged.
proof fn lemma_set_field_windows(w: u32, offset: u32, width: u32, value: u32)
    requires
        offset < 32,
        offset + width <= 32,
    ensures
        window32(with_window32(w, offset, width, value), offset, width) == value
            & crate::bits::mask32(width),
        offset >= 7 ==> window32(with_window32(w, offset, width, value), 0, 7) == window32(
            w,
            0,
            7,
        ),
        offset >= 8 || offset + width <= 7 ==> window32(
            with_window32(w, offset, width, value),
            7,
            1,
        ) == window32(w, 7, 1),
        offset >= 13 || offset + width <= 8 ==> window32(
            with_window32(w, offset, width, value),
            8,
            5,
        ) == window32(w, 8, 5),
        offset >= 21 || offset + width <= 16 ==> window32(
            with_window32(w, offset, width, value),
            16,
            5,
        ) == window32(w, 16, 5),
        offset >= 24 || offset + width <= 21 ==> window32(
            with_window32(w, offset, width, value),
            21,
            3,
        ) == window32(w, 21, 3),
        offset >= 27 || offset + width <= 24 ==> window32(
            with_window32(w, offset, width, value),
            24,
            3,
        ) == window32(w, 24, 3),
        offset >= 29 || offset + width <= 27 ==> window32(
            with_window32(w, offset, width, value),
            27,
            2,
        ) == window32(w, 27, 2),
        offset >= 30 || offset + width <= 29 ==> window32(
            with_window32(w, offset, width, value),
            29,
            1,
        ) == window32(w, 29, 1),
{
    lemma_window_set_get32(w, offset, width, value);
    if offset >= 7 {
        lemma_window_set_other32(w, offset, width, value, 0, 7);
    }
    if offset >= 8 || offset + width <= 7 {
        lemma_window_set_other32(w, offset, width, value, 7, 1);
    }
    if offset >= 13 || offset + width <= 8 {
        lemma_window_set_other32(w, offset, width, value, 8, 5);
    }
    if offset >= 21 || offset + width <= 16 {
        lemma_window_set_other32(w, offset, width, value, 16, 5);
    }
    if offset >= 24 || offset + width <= 21 {
        lemma_window_set_other32(w, offset, width, value, 21, 3);
    }
    if offset >= 27 || offset + width <= 24 {
        lemma_window_set_other32(w, offset, width, value, 24, 3);
    }
    if offset >= 29 || offset + width <= 27 {
        lemma_window_set_other32(w, offset, width, value, 27, 2);
    }
    if offset >= 30 || offset + width <= 29 {
        lemma_window_set_other32(w, offset, width, value, 29, 1);
    }
}

/// Field values of the default word.
proof fn lemma_default_word_fields()
    ensures
        opcode_of(default_word()) == 2,
        dst_of(default_word()) == 0,
        src1_of(default_word()) == 0,
        src1_sel_of(default_word()) == 0,
        a_of(default_word()) == 0,
        b_of(default_word()) == 0,
        !bit32(default_word(), 7),
        !src1_sel_set_of(default_word()),
{
    lemma_mask32_values();
    lemma_set_field_windows(0, 0, 7, 2);
    lemma_mask_noop32(2, 7);
    lemma_window_zero32(7, 1);
    lemma_window_zero32(8, 5);
    lemma_window_zero32(16, 5);
    lemma_window_zero32(21, 3);
    lemma_window_zero32(24, 3);
    lemma_window_zero32(27, 2);
    lemma_window_zero32(29, 1);
}

impl Default for AddOptField {
    /// A fresh `AddOptField`: every field zero, the `opcode` constant
    /// already 2, the present-test bit clear.
    fn default() -> (r: Self)
        ensures
            r.0 == default_word(),
            opcode_of(r.0) == 2,
            dst_of(r.0) == 0,
            src1_of(r.0) == 0,
            src1_sel_of(r.0) == 0,
            a_of(r.0) == 0,
            b_of(r.0) == 0,
            !src1_sel_set_of(r.0),
    {
        let mut def = AddOptField(0);
        def.set_opcode(2);
        proof {
            lemma_default_word_fields();
        }
        def
    }
}

impl AddOptField {
    pub fn get_a(&self) -> (r: u8)
        ensures
            r == a_of(self.0),
    {
        get_bits32(self.0, 24, 3) as u8
    }

    pub fn get_b(&self) -> (r: u8)
        ensures
            r == b_of(self.0),
    {
        get_bits32(self.0, 27, 2) as u8
    }

    pub fn get_dst(&self) -> (r: u8)
        ensures
            r == dst_of(self.0),
    {
        get_bits32(self.0, 8, 5) as u8
    }

    pub fn get_opcode(&self) -> (r: u8)
        ensures
            r == opcode_of(self.0),
    {
        get_bits32(self.0, 0, 7) as u8
    }

    pub fn get_sign_extend(&self) -> (r: bool)
        ensures
            r == sign_extend_of(self.0),
    {
        !get_bit32(self.0, 7)
    }

    pub fn get_src1(&self) -> (r: u8)
        ensures
            r == src1_of(self.0),
    {
        get_bits32(self.0, 16, 5) as u8
    }

    pub fn get_src1_sel(&self) -> (r: u8)
        ensures
            r == src1_sel_of(self.0),
    {
        get_bits32(self.0, 21, 3) as u8
    }

    pub fn set_a(&mut self, value: u8)
        ensures
            final(self).0 == with_window32(old(self).0, 24, 3, value as u32),
            value < 8 ==> a_of(final(self).0) == value,
            opcode_of(final(self).0) == opcode_of(old(self).0),
            sign_extend_of(final(self).0) == sign_extend_of(old(self).0),
            dst_of(final(self).0) == dst_of(old(self).0),
            src1_of(final(self).0) == src1_of(old(self).0),
            src1_sel_of(final(self).0) == src1_sel_of(old(self).0),
            b_of(final(self).0) == b_of(old(self).0),
            src1_sel_set_of(final(self).0) == src1_sel_set_of(old(self).0),
    {
        proof {
            lemma_set_field_windows(self.0, 24, 3, value as u32);
            lemma_mask32_values();
            if value < 8 {
                lemma_mask_noop32(value as u32, 3);
            }
        }
        self.0 = set_bits32(self.0, 24, 3, value as u32);
    }

    pub fn set_b(&mut self, value: u8)
        ensures
            final(self).0 == with_window32(old(self).0, 27, 2, value as u32),
            value < 4 ==> b_of(final(self).0) == value,
            opcode_of(final(self).0) == opcode_of(old(self).0),
            sign_extend_of(final(self).0) == sign_extend_of(old(self).0),
            dst_of(final(self).0) == dst_of(old(self).0),
            src1_of(final(self).0) == src1_of(old(self).0),
            src1_sel_of(final(self).0) == src1_sel_of(old(self).0),
            a_of(final(self).0) == a_of(old(self).0),
            src1_sel_set_of(final(self).0) == src1_sel_set_of(old(self).0),
    {
        proof {
            lemma_set_field_windows(self.0, 27, 2, value as u32);
            lemma_mask32_values();
            if value < 4 {
                lemma_mask_noop32(value as u32, 2);
            }
        }
        self.0 = set_bits32(self.0, 27, 2, value as u32);
    }

    pub fn set_dst(&mut self, value: u8)
        ensures
            final(self).0 == with_window32(old(self).0, 8, 5, value as u32),
            value < 32 ==> dst_of(final(self).0) == value,
            opcode_of(final(self).0) == opcode_of(old(self).0),
            sign_extend_of(final(self).0) == sign_extend_of(old(self).0),
            src1_of(final(self).0) == src1_of(old(self).0),
            src1_sel_of(final(self).0) == src1_sel_of(old(self).0),
            a_of(final(self).0) == a_of(old(self).0),
            b_of(final(self).0) == b_of(old(self).0),
            src1_sel_set_of(final(self).0) == src1_sel_set_of(old(self).0),
    {
        proof {
            lemma_set_field_windows(self.0, 8, 5, value as u32);
            lemma_mask32_values();
            if value < 32 {
                lemma_mask_noop32(value as u32, 5);
            }
        }
        self.0 = set_bits32(self.0, 8, 5, value as u32);
    }

    fn set_opcode(&mut self, value: u8)
        ensures
            final(self).0 == with_window32(old(self).0, 0, 7, value as u32),
    {
        self.0 = set_bits32(self.0, 0, 7, value as u32);
    }

    pub fn set_sign_extend(&mut self, value: bool)
        ensures
            final(self).0 == with_window32(old(self).0, 7, 1, if value { 0u32 } else { 1u32 }),
            sign_extend_of(final(self).0) == value,
            opcode_of(final(self).0) == opcode_of(old(self).0),
            dst_of(final(self).0) == dst_of(old(self).0),
            src1_of(final(self).0) == src1_of(old(self).0),
            src1_sel_of(final(self).0) == src1_sel_of(old(self).0),
            a_of(final(self).0) == a_of(old(self).0),
            b_of(final(self).0) == b_of(old(self).0),
            src1_sel_set_of(final(self).0) == src1_sel_set_of(old(self).0),
    {
        proof {
            let raw: u32 = if value { 0u32 } else { 1u32 };
            lemma_set_field_windows(self.0, 7, 1, raw);
            lemma_mask32_values();
            lemma_mask_noop32(raw, 1);
        }
        self.0 = set_bit32(self.0, 7, !value);
    }

    pub fn set_src1(&mut self, value: u8)
        ensures
            final(self).0 == with_window32(old(self).0, 16, 5, value as u32),
            value < 32 ==> src1_of(final(self).0) == value,
            opcode_of(final(self).0) == opcode_of(old(self).0),
            sign_extend_of(final(self).0) == sign_extend_of(old(self).0),
            dst_of(final(self).0) == dst_of(old(self).0),
            src1_sel_of(final(self).0) == src1_sel_of(old(self).0),
            a_of(final(self).0) == a_of(old(self).0),
            b_of(final(self).0) == b_of(old(self).0),
            src1_sel_set_of(final(self).0) == src1_sel_set_of(old(self).0),
    {
        proof {
            lemma_set_field_windows(self.0, 16, 5, value as u32);
            lemma_mask32_values();
            if value < 32 {
                lemma_mask_noop32(value as u32, 5);
            }
        }
        self.0 = set_bits32(self.0, 16, 5, value as u32);
    }

    /// Write `src1_sel` and mark it explicitly supplied: the setter also
    /// writes 1 into the field's present-test bit.
    pub fn set_src1_sel(&mut self, value: u8)
        ensures
            final(self).0 == sel_set_word(old(self).0, value as u32),
            value < 8 ==> src1_sel_of(final(self).0) == value,
            src1_sel_set_of(final(self).0),
            opcode_of(final(self).0) == opcode_of(old(self).0),
            sign_extend_of(final(self).0) == sign_extend_of(old(self).0),
            dst_of(final(self).0) == dst_of(old(self).0),
            src1_of(final(self).0) == src1_of(old(self).0),
            a_of(final(self).0) == a_of(old(self).0),
            b_of(final(self).0) == b_of(old(self).0),
    {
        proof {
            lemma_sel_set_word(self.0, value as u32);
            if value < 8 {
                lemma_mask32_values();
                lemma_mask_noop32(value as u32, 3);
            }
        }
        self.0 = set_bits32(self.0, 21, 3, value as u32);
        self.0 = set_bits32(self.0, 29, 1, 1);
    }

    /// Whether `src1_sel` has been explicitly supplied.
    pub fn src1_sel_is_set(&self) -> (r: bool)
        ensures
            r == src1_sel_set_of(self.0),
    {
        get_bit32(self.0, 29)
    }

    /// Clear the present-test bit, returning the field to "not
    /// explicitly supplied".
    fn src1_sel_mark_unset(&mut self)
        ensures
            final(self).0 == with_window32(old(self).0, 29, 1, 0),
            !src1_sel_set_of(final(self).0),
    {
        proof {
            lemma_set_field_windows(self.0, 29, 1, 0);
            lemma_mask32_values();
            lemma_mask_noop32(0, 1);
        }
        self.0 = set_bits32(self.0, 29, 1, 0);
    }
}

/// Writing `src1_sel` through `sel_set_word` reads back as written, sets
/// the present-test bit, and leaves every other field unchanged.
pub proof fn lemma_sel_set_word(w: u32, value: u32)
    ensures
        src1_sel_of(sel_set_word(w, value)) == ((value & crate::bits::mask32(3)) as u8),
        src1_sel_set_of(sel_set_word(w, value)),
        opcode_of(sel_set_word(w, value)) == opcode_of(w),
        sign_extend_of(sel_set_word(w, value)) == sign_extend_of(w),
        dst_of(sel_set_word(w, value)) == dst_of(w),
        src1_of(sel_set_word(w, value)) == src1_of(w),
        a_of(sel_set_word(w, value)) == a_of(w),
        b_of(sel_set_word(w, value)) == b_of(w),
{
    let w1 = with_window32(w, 21, 3, value);
    lemma_set_field_windows(w, 21, 3, value);
    lemma_set_field_windows(w1, 29, 1, 1);
    lemma_mask32_values();
    lemma_mask_noop32(1, 1);
    lemma_window_bound32(w, 21, 3);
}

impl MachineInstruction<u32> for AddOptField {
    /// Decode a machine word, validating the `opcode` constant.
    fn parse_machine(data: u32) -> (r: Result<Self, FieldMismatchError>)
        ensures
            match r {
                Ok(x) => spec_parse_machine(data) == Some(x),
                Err(e) => {
                    &&& spec_parse_machine(data) is None
                    &&& e.field@ == "opcode"@
                    &&& e.expected == 2
                    &&& e.found == opcode_of(data) as u64
                },
            },
    {
        let perhaps = AddOptField(data);
        let found: u64 = perhaps.get_opcode() as u64;
        let expected: u64 = 2;
        if found != expected {
            return Err(FieldMismatchError { field: "opcode".to_owned(), expected, found });
        }
        Ok(perhaps)
    }

    /// Encode is the identity projection of the packed storage word.
    fn emit_machine(&self) -> (r: u32)
        ensures
            r == self.0,
    {
        self.0
    }
}

/// The assembly text of `x`: optional operands are written with their
/// decimal value, and suppressed when their raw value is zero.
pub open spec fn spec_emit_assembly(x: AddOptField) -> Seq<char> {
    seq!['a', 'd', 'd'] + (if sign_extend_of(x.0) {
        seq!['.', 's', 'x']
    } else {
        Seq::<char>::empty()
    }) + seq![' ', 'r'] + dec_digits(dst_of(x.0) as nat) + seq![' ', 'r'] + dec_digits(
        src1_of(x.0) as nat,
    ) + (if src1_sel_of(x.0) != 0 {
        seq!['.'] + dec_digits(src1_sel_of(x.0) as nat)
    } else {
        Seq::<char>::empty()
    }) + seq![' '] + (if a_of(x.0) != 0 {
        dec_digits(a_of(x.0) as nat)
    } else {
        Seq::<char>::empty()
    }) + seq![' '] + dec_digits(b_of(x.0) as nat)
}

/// What parsing assembly text yields: mandatory elements abort on
/// mismatch; the dotted `src1_sel` and the bare `a` numeral are optional
/// and leave the word untouched when absent.
pub open spec fn spec_parse_assembly(s: Seq<char>) -> Option<AddOptField> {
    if !has_lit(s, 0, seq!['a', 'd', 'd']) {
        None
    } else {
        let sx = has_lit(s, 3, seq!['.', 's', 'x']);
        let i1 = if sx {
            6int
        } else {
            3int
        };
        let w1 = with_window32(default_word(), 7, 1, if sx { 0u32 } else { 1u32 });
        let i2 = skip_ws_end(s, i1);
        if !has_lit(s, i2, seq!['r']) {
            None
        } else {
            match spec_number(s, i2 + 1) {
                None => None,
                Some((dst, i3)) => if dst > 255 {
                    None
                } else {
                    let w2 = with_window32(w1, 8, 5, dst as u32);
                    let i4 = skip_ws_end(s, i3);
                    if !has_lit(s, i4, seq!['r']) {
                        None
                    } else {
                        match spec_number(s, i4 + 1) {
                            None => None,
                            Some((src1, i5)) => if src1 > 255 {
                                None
                            } else {
                                let w3 = with_window32(w2, 16, 5, src1 as u32);
                                let j = skip_ws_end(s, i5);
                                let after_sel: Option<(u32, int)> = if has_lit(s, j, seq!['.']) {
                                    let jb = skip_ws_end(s, j + 1);
                                    match spec_number(s, jb) {
                                        None => Some((w3, jb)),
                                        Some((sel, i6)) => if sel > 255 {
                                            None
                                        } else {
                                            Some((sel_set_word(w3, sel as u32), i6))
                                        },
                                    }
                                } else {
                                    Some((w3, j))
                                };
                                match after_sel {
                                    None => None,
                                    Some((w4, i7)) => {
                                        let i8 = skip_ws_end(s, i7);
                                        let after_a: Option<(u32, int)> = match spec_number(
                                            s,
                                            i8,
                                        ) {
                                            None => Some((w4, i8)),
                                            Some((a, i9)) => if a > 255 {
                                                None
                                            } else {
                                                Some((with_window32(w4, 24, 3, a as u32), i9))
                                            },
                                        };
                                        match after_a {
                                            None => None,
                                            Some((w5, i10)) => {
                                                let i11 = skip_ws_end(s, i10);
                                                match spec_number(s, i11) {
                                                    None => None,
                                                    Some((b, i12)) => if b > 255 {
                                                        None
                                                    } else if i12 == s.len() {
                                                        Some(
                                                            AddOptField(
                                                                with_window32(w5, 27, 2, b as u32),
                                                            ),
                                                        )
                                                    } else {
                                                        None
                                                    },
                                                }
                                            },
                                        }
                                    },
                                }
                            },
                        }
                    }
                },
            }
        }
    }
}

/// The position of the first element that fails to match: the mnemonic
/// at the start, a register prefix, an operand numeral, an oversized
/// optional operand, or the position after the last element when text
/// trails it.
pub open spec fn spec_parse_fail_at(s: Seq<char>) -> int {
    if !has_lit(s, 0, seq!['a', 'd', 'd']) {
        0
    } else {
        let sx = has_lit(s, 3, seq!['.', 's', 'x']);
        let i1 = if sx {
            6int
        } else {
            3int
        };
        let i2 = skip_ws_end(s, i1);
        if !has_lit(s, i2, seq!['r']) {
            i2
        } else {
            match spec_number(s, i2 + 1) {
                None => i2 + 1,
                Some((dst, i3)) => if dst > 255 {
                    i2 + 1
                } else {
                    let i4 = skip_ws_end(s, i3);
                    if !has_lit(s, i4, seq!['r']) {
                        i4
                    } else {
                        match spec_number(s, i4 + 1) {
                            None => i4 + 1,
                            Some((src1, i5)) => if src1 > 255 {
                                i4 + 1
                            } else {
                                spec_fail_after_src1(s, skip_ws_end(s, i5))
                            },
                        }
                    }
                },
            }
        }
    }
}

/// The failing position from the optional dotted operand on.
pub open spec fn spec_fail_after_src1(s: Seq<char>, j: int) -> int {
    if has_lit(s, j, seq!['.']) {
        spec_fail_sel(s, skip_ws_end(s, j + 1))
    } else {
        spec_fail_after_sel(s, j)
    }
}

/// The failing position at the dotted operand's numeral.
pub open spec fn spec_fail_sel(s: Seq<char>, jb: int) -> int {
    match spec_number(s, jb) {
        None => spec_fail_after_sel(s, jb),
        Some((sel, i6)) => if sel > 255 {
            jb
        } else {
            spec_fail_after_sel(s, i6)
        },
    }
}

/// The failing position from the optional bare operand on.
pub open spec fn spec_fail_after_sel(s: Seq<char>, i7: int) -> int {
    spec_fail_a(s, skip_ws_end(s, i7))
}

/// The failing position at the bare optional operand.
pub open spec fn spec_fail_a(s: Seq<char>, i8: int) -> int {
    match spec_number(s, i8) {
        None => spec_fail_b(s, i8),
        Some((a, i9)) => if a > 255 {
            i8
        } else {
            spec_fail_b(s, i9)
        },
    }
}

/// The failing position at the mandatory final operand or the trailing
/// text after it.
pub open spec fn spec_fail_b(s: Seq<char>, i10: int) -> int {
    let i11 = skip_ws_end(s, i10);
    match spec_number(s, i11) {
        None => i11,
        Some((b, i12)) => if b > 255 {
            i11
        } else {
            i12
        },
    }
}

impl AssemblyInstruction for AddOptField {
    /// Parse assembly text, as `spec_parse_assembly` describes it; an
    /// error points at the element that failed to match.
    fn parse_assembly(text: &str) -> (r: Result<Self, AssemblyParseError>)
        ensures
            match r {
                Ok(x) => spec_parse_assembly(text@) == Some(x),
                Err(e) => {
                    &&& spec_parse_assembly(text@) is None
                    &&& e.position <= text@.len()
                    &&& e.position == spec_parse_fail_at(text@)
                },
            },
    {
        proof {
            reveal_strlit("add");
            reveal_strlit(".sx");
            reveal_strlit("r");
            reveal_strlit(".");
            assert("add"@ =~= seq!['a', 'd', 'd']);
            assert(".sx"@ =~= seq!['.', 's', 'x']);
            assert("r"@ =~= seq!['r']);
            assert("."@ =~= seq!['.']);
        }
        let n = text.unicode_len();
        let mut result = AddOptField::default();
        match match_lit(text, 0, "add") {
            Some(_) => {},
            None => {
                return Err(AssemblyParseError { position: 0 });
            },
        }
        let (sx, i1) = match match_lit(text, 3, ".sx") {
            Some(j) => (true, j),
            None => (false, 3),
        };
        result.set_sign_extend(sx);
        let i2 = skip_ws(text, i1);
        let i3 = match match_lit(text, i2, "r") {
            Some(j) => j,
            None => {
                return Err(AssemblyParseError { position: i2 });
            },
        };
        let (dst, i4) = match scan_number(text, i3) {
            Some(p) => p,
            None => {
                return Err(AssemblyParseError { position: i3 });
            },
        };
        if dst > 255 {
            return Err(AssemblyParseError { position: i3 });
        }
        result.set_dst(dst as u8);
        let i5 = skip_ws(text, i4);
        let i6 = match match_lit(text, i5, "r") {
            Some(j) => j,
            None => {
                return Err(AssemblyParseError { position: i5 });
            },
        };
        let (src1, i7) = match scan_number(text, i6) {
            Some(p) => p,
            None => {
                return Err(AssemblyParseError { position: i6 });
            },
        };
        if src1 > 255 {
            return Err(AssemblyParseError { position: i6 });
        }
        result.set_src1(src1 as u8);
        let j = skip_ws(text, i7);
        let i8 = match match_lit(text, j, ".") {
            Some(jd) => {
                let jb = skip_ws(text, jd);
                match scan_number(text, jb) {
                    None => jb,
                    Some((sel, i6b)) => {
                        if sel > 255 {
                            return Err(AssemblyParseError { position: jb });
                        }
                        result.set_src1_sel(sel as u8);
                        i6b
                    },
                }
            },
            None => j,
        };
        let i9 = skip_ws(text, i8);
        let i10 = match scan_number(text, i9) {
            None => i9,
            Some((a, i9b)) => {
                if a > 255 {
                    return Err(AssemblyParseError { position: i9 });
                }
                result.set_a(a as u8);
                i9b
            },
        };
        let i11 = skip_ws(text, i10);
        let (b, i12) = match scan_number(text, i11) {
            Some(p) => p,
            None => {
                return Err(AssemblyParseError { position: i11 });
            },
        };
        if b > 255 {
            return Err(AssemblyParseError { position: i11 });
        }
        result.set_b(b as u8);
        if i12 != n {
            return Err(AssemblyParseError { position: i12 });
        }
        Ok(result)
    }

    /// Emit assembly text, as `spec_emit_assembly` describes it.
    fn emit_assembly(&self) -> (r: String)
        ensures
            r@ == spec_emit_assembly(*self),
    {
        proof {
            reveal_strlit("add");
            reveal_strlit(".sx");
            reveal_strlit(" ");
            reveal_strlit("r");
            reveal_strlit(".");
        }
        let mut s = String::new();
        s.append("add");
        if self.get_sign_extend() {
            s.append(".sx");
        }
        s.append(" ");
        s.append("r");
        let d1 = u64_to_dec(self.get_dst() as u64);
        s.append(d1.as_str());
        s.append(" ");
        s.append("r");
        let d2 = u64_to_dec(self.get_src1() as u64);
        s.append(d2.as_str());
        if self.get_src1_sel() != 0 {
            s.append(".");
            let d3 = u64_to_dec(self.get_src1_sel() as u64);
            s.append(d3.as_str());
        }
        s.append(" ");
        if self.get_a() != 0 {
            let d4 = u64_to_dec(self.get_a() as u64);
            s.append(d4.as_str());
        }
        s.append(" ");
        let d5 = u64_to_dec(self.get_b() as u64);
        s.append(d5.as_str());
        proof {
            assert(s@ =~= spec_emit_assembly(*self));
        }
        s
    }
}

/// Whether `x` is reachable through default construction and the public
/// setters: the constant region holds its value and the padding regions
/// are clear.
pub open spec fn canonical(x: AddOptField) -> bool {
    &&& opcode_of(x.0) == 2
    &&& window32(x.0, 13, 3) == 0
    &&& window32(x.0, 30, 2) == 0
}

/// Words agreeing on every window of this layout are equal.
proof fn lemma_word_eq_parts(x: u32, y: u32)
    by (bit_vector)
    requires
        window32(x, 0, 7) == window32(y, 0, 7),
        window32(x, 7, 1) == window32(y, 7, 1),
        window32(x, 8, 5) == window32(y, 8, 5),
        window32(x, 13, 3) == window32(y, 13, 3),
        window32(x, 16, 5) == window32(y, 16, 5),
        window32(x, 21, 3) == window32(y, 21, 3),
        window32(x, 24, 3) == window32(y, 24, 3),
        window32(x, 27, 2) == window32(y, 27, 2),
        window32(x, 29, 1) == window32(y, 29, 1),
        window32(x, 30, 2) == window32(y, 30, 2),
    ensures
        x == y,
{
}

/// Machine round-trip: a word encoded from any `AddOptField` whose
/// constant region is intact decodes to the identical value.
pub proof fn lemma_machine_round_trip(x: AddOptField)
    requires
        opcode_of(x.0) == 2,
    ensures
        spec_parse_machine(x.0) == Some(x),
{
}

/// Constant enforcement: flipping any single bit of the `opcode` constant
/// region of a decodable word makes decoding fail.
pub proof fn lemma_constant_enforcement(x: AddOptField, k: u32)
    requires
        opcode_of(x.0) == 2,
        k < 7,
    ensures
        spec_parse_machine(x.0 ^ ((1u32 << k) as u32)) is None,
{
    lemma_window_flip32(x.0, 0, 7, k);
    lemma_window_bound32(x.0, 0, 7);
    lemma_window_bound32((x.0 ^ ((1u32 << k) as u32)), 0, 7);
    lemma_mask32_values();
}

/// Assembly round-trip: printing any canonical `AddOptField` whose
/// optional operands are present and parsing the text back yields the
/// identical value.  Optional operands whose raw value is zero are
/// exempt: emission suppresses them, so parsing cannot recover whether
/// they had been supplied.
#[verifier::rlimit(60)]
pub proof fn lemma_assembly_round_trip(x: AddOptField)
    requires
        canonical(x),
        src1_sel_of(x.0) != 0,
        a_of(x.0) != 0,
        src1_sel_set_of(x.0),
    ensures
        spec_parse_assembly(spec_emit_assembly(x)) == Some(x),
{
    let e = spec_emit_assembly(x);
    let sx = sign_extend_of(x.0);
    let dst = dst_of(x.0) as nat;
    let src1 = src1_of(x.0) as nat;
    let sel = src1_sel_of(x.0) as nat;
    let av = a_of(x.0) as nat;
    let bv = b_of(x.0) as nat;
    let d1 = dec_digits(dst);
    let d2 = dec_digits(src1);
    let d3 = dec_digits(sel);
    let d4 = dec_digits(av);
    let d5 = dec_digits(bv);
    let l1 = d1.len() as int;
    let l2 = d2.len() as int;
    let l3 = d3.len() as int;
    let l4 = d4.len() as int;
    let l5 = d5.len() as int;
    lemma_dec_digits_are_digits(dst);
    lemma_dec_digits_are_digits(src1);
    lemma_dec_digits_are_digits(sel);
    lemma_dec_digits_are_digits(av);
    lemma_dec_digits_are_digits(bv);
    lemma_mask32_values();
    lemma_window_bound32(x.0, 0, 7);
    lemma_window_bound32(x.0, 7, 1);
    lemma_window_bound32(x.0, 8, 5);
    lemma_window_bound32(x.0, 16, 5);
    lemma_window_bound32(x.0, 21, 3);
    lemma_window_bound32(x.0, 24, 3);
    lemma_window_bound32(x.0, 27, 2);
    lemma_window_bound32(x.0, 29, 1);

    let i1: int = if sx { 6 } else { 3 };
    assert(e.len() == i1 + 2 + l1 + 2 + l2 + 1 + l3 + 1 + l4 + 1 + l5);
    assert(has_lit(e, 0, seq!['a', 'd', 'd'])) by {
        assert(e.subrange(0, 3) =~= seq!['a', 'd', 'd']);
    }
    if sx {
        assert(has_lit(e, 3, seq!['.', 's', 'x'])) by {
            assert(e.subrange(3, 6) =~= seq!['.', 's', 'x']);
        }
    } else {
        assert(e[3] == ' ');
        assert(!has_lit(e, 3, seq!['.', 's', 'x'])) by {
            if has_lit(e, 3, seq!['.', 's', 'x']) {
                assert(e.subrange(3, 6)[0] == '.');
            }
        }
    }
    assert(e[i1] == ' ' && e[i1 + 1] == 'r');
    assert(skip_ws_end(e, i1) == i1 + 1) by {
        lemma_skip_ws_end_none(e, i1 + 1);
    }
    assert(has_lit(e, i1 + 1, seq!['r'])) by {
        assert(e.subrange(i1 + 1, i1 + 2) =~= seq!['r']);
    }
    // dst operand, then " r".
    let p1 = i1 + 2;
    assert forall|k: int| 0 <= k < l1 implies e[p1 + k] == #[trigger] d1[k] by {}
    assert(e[p1 + l1] == ' ');
    lemma_spec_number_at(e, p1, dst);
    let q1 = p1 + l1;
    assert(e[q1] == ' ' && e[q1 + 1] == 'r');
    assert(skip_ws_end(e, q1) == q1 + 1) by {
        lemma_skip_ws_end_none(e, q1 + 1);
    }
    assert(has_lit(e, q1 + 1, seq!['r'])) by {
        assert(e.subrange(q1 + 1, q1 + 2) =~= seq!['r']);
    }
    // src1 operand, terminated by the dot.
    let p2 = q1 + 2;
    assert forall|k: int| 0 <= k < l2 implies e[p2 + k] == #[trigger] d2[k] by {}
    let j0 = p2 + l2;
    assert(e[j0] == '.');
    lemma_spec_number_at(e, p2, src1);
    // The dot, then the src1_sel operand, terminated by a space.
    lemma_skip_ws_end_none(e, j0);
    assert(has_lit(e, j0, seq!['.'])) by {
        assert(e.subrange(j0, j0 + 1) =~= seq!['.']);
    }
    let p3 = j0 + 1;
    assert forall|k: int| 0 <= k < l3 implies e[p3 + k] == #[trigger] d3[k] by {}
    assert(skip_ws_end(e, p3) == p3) by {
        lemma_digit_not_ws(e[p3]);
        lemma_skip_ws_end_none(e, p3);
    }
    let q3 = p3 + l3;
    assert(e[q3] == ' ');
    lemma_spec_number_at(e, p3, sel);
    // The a operand, terminated by a space.
    let p4 = q3 + 1;
    assert forall|k: int| 0 <= k < l4 implies e[p4 + k] == #[trigger] d4[k] by {}
    assert(skip_ws_end(e, q3) == p4) by {
        lemma_digit_not_ws(e[p4]);
        lemma_skip_ws_end_none(e, p4);
    }
    let q4 = p4 + l4;
    assert(e[q4] == ' ');
    lemma_spec_number_at(e, p4, av);
    // The b operand, running to the end of the text.
    let p5 = q4 + 1;
    assert forall|k: int| 0 <= k < l5 implies e[p5 + k] == #[trigger] d5[k] by {}
    assert(skip_ws_end(e, q4) == p5) by {
        lemma_digit_not_ws(e[p5]);
        lemma_skip_ws_end_none(e, p5);
    }
    lemma_spec_number_at(e, p5, bv);
    assert(p5 + l5 == e.len());

    // The reconstructed word equals the original, window by window.
    let w0 = default_word();
    let bneg: u32 = if sx { 0 } else { 1 };
    let w1 = with_window32(w0, 7, 1, bneg);
    let w2 = with_window32(w1, 8, 5, dst as u32);
    let w3 = with_window32(w2, 16, 5, src1 as u32);
    let wa = with_window32(w3, 21, 3, sel as u32);
    let w4 = with_window32(wa, 29, 1, 1);
    let w5 = with_window32(w4, 24, 3, av as u32);
    let w6 = with_window32(w5, 27, 2, bv as u32);
    lemma_set_field_windows(0, 0, 7, 2);
    lemma_set_field_windows(w0, 7, 1, bneg);
    lemma_set_field_windows(w1, 8, 5, dst as u32);
    lemma_set_field_windows(w2, 16, 5, src1 as u32);
    lemma_set_field_windows(w3, 21, 3, sel as u32);
    lemma_set_field_windows(wa, 29, 1, 1);
    lemma_set_field_windows(w4, 24, 3, av as u32);
    lemma_set_field_windows(w5, 27, 2, bv as u32);
    lemma_mask_noop32(2, 7);
    lemma_mask_noop32(bneg, 1);
    lemma_mask_noop32(dst as u32, 5);
    lemma_mask_noop32(src1 as u32, 5);
    lemma_mask_noop32(sel as u32, 3);
    lemma_mask_noop32(1, 1);
    lemma_mask_noop32(av as u32, 3);
    lemma_mask_noop32(bv as u32, 2);
    // Padding windows stay clear through every write.
    lemma_window_zero32(13, 3);
    lemma_window_zero32(30, 2);
    lemma_window_set_other32(0, 0, 7, 2, 13, 3);
    lemma_window_set_other32(w0, 7, 1, bneg, 13, 3);
    lemma_window_set_other32(w1, 8, 5, dst as u32, 13, 3);
    lemma_window_set_other32(w2, 16, 5, src1 as u32, 13, 3);
    lemma_window_set_other32(w3, 21, 3, sel as u32, 13, 3);
    lemma_window_set_other32(wa, 29, 1, 1, 13, 3);
    lemma_window_set_other32(w4, 24, 3, av as u32, 13, 3);
    lemma_window_set_other32(w5, 27, 2, bv as u32, 13, 3);
    lemma_window_set_other32(0, 0, 7, 2, 30, 2);
    lemma_window_set_other32(w0, 7, 1, bneg, 30, 2);
    lemma_window_set_other32(w1, 8, 5, dst as u32, 30, 2);
    lemma_window_set_other32(w2, 16, 5, src1 as u32, 30, 2);
    lemma_window_set_other32(w3, 21, 3, sel as u32, 30, 2);
    lemma_window_set_other32(wa, 29, 1, 1, 30, 2);
    lemma_window_set_other32(w4, 24, 3, av as u32, 30, 2);
    lemma_window_set_other32(w5, 27, 2, bv as u32, 30, 2);
    assert(window32(x.0, 7, 1) == bneg);
    assert(window32(x.0, 29, 1) == 1);
    lemma_word_eq_parts(w6, x.0);
    assert(spec_parse_assembly(e) == Some(x));
}

/// Optional-field marker: a freshly default-constructed instruction
/// reports the field not explicitly supplied; invoking the field's setter
/// makes it report supplied.
pub proof fn lemma_optional_field_marker(w: u32, value: u32)
    ensures
        !src1_sel_set_of(default_word()),
        src1_sel_set_of(sel_set_word(w, value)),
{
    lemma_default_word_fields();
    lemma_sel_set_word(w, value);
}

} // verus!
