//! The two instantiations of the templated `BinOp<name, opcode>` base:
//! `Add: BinOp<'add', 2>` and `Sub: BinOp<'sub', 3>`.  Both share the
//! layout `opcode:7 = $opcode`, field `sign_extend`, field `dst:5`,
//! padding `_:3`, field `src1:5`, padding `_:3`, field `src2:5`, padding
//! `_:3`, and the assembly syntax `$name ['.sx' = sign_extend] 'r' dst
//! 'r' src1 'r' src2`.

use crate::bits::bit32;
use crate::bits::lemma_mask32_values;
use crate::bits::lemma_mask_noop32;
use crate::bits::lemma_window_bound32;
use crate::bits::lemma_window_flip32;
use crate::bits::lemma_window_set_get32;
use crate::bits::lemma_window_set_other32;
use crate::bits::lemma_window_zero32;
use crate::bits::set_bit32;
use crate::bits::set_bits32;
use crate::bits::get_bit32;
use crate::bits::get_bits32;
use crate::bits::window32;
use crate::bits::with_window32;
use crate::text::dec_digits;
use crate::text::has_lit;
use crate::text::lemma_dec_digits_are_digits;
use crate::text::lemma_skip_ws_end_none;
use crate::text::lemma_spec_number_at;
use crate::text::match_lit;
use crate::text::scan_number;
use crate::text::skip_ws;
use crate::text::skip_ws_end;
use crate::text::spec_number;
use crate::text::u64_to_dec;
use crate::AssemblyInstruction;
use crate::AssemblyParseError;
use crate::FieldMismatchError;
use crate::MachineInstruction;
use vstd::prelude::*;

verus! {

/// The `opcode` constant region: bits 0..7.
pub open spec fn opcode_of(w: u32) -> u8 {
    window32(w, 0, 7) as u8
}

/// The `sign_extend` field: bit 7, stored directly.
pub open spec fn sign_extend_of(w: u32) -> bool {
    bit32(w, 7)
}

/// The `dst` field: bits 8..13.
pub open spec fn dst_of(w: u32) -> u8 {
    window32(w, 8, 5) as u8
}

/// The `src1` field: bits 16..21.
pub open spec fn src1_of(w: u32) -> u8 {
    window32(w, 16, 5) as u8
}

/// The `src2` field: bits 24..29.
pub open spec fn src2_of(w: u32) -> u8 {
    window32(w, 24, 5) as u8
}

/// The word a default-constructed instruction holds: all zero but for the
/// instantiated `opcode` constant.
pub open spec fn default_word(op: u32) -> u32 {
    with_window32(0, 0, 7, op)
}

/// What machine-word decoding yields for an instantiation with constant
/// `op`: the word itself when the constant is intact, nothing otherwise.
pub open spec fn spec_decode_word(data: u32, op: u8) -> Option<u32> {
    if opcode_of(data) == op {
        Some(data)
    } else {
        None
    }
}

/// The assembly text of the word `w` under mnemonic `m`.
pub open spec fn spec_emit_word(w: u32, m: Seq<char>) -> Seq<char> {
    m + (if sign_extend_of(w) {
        seq!['.', 's', 'x']
    } else {
        Seq::<char>::empty()
    }) + seq![' ', 'r'] + dec_digits(dst_of(w) as nat) + seq![' ', 'r'] + dec_digits(
        src1_of(w) as nat,
    ) + seq![' ', 'r'] + dec_digits(src2_of(w) as nat)
}

/// What parsing assembly text yields under a three-character mnemonic `m`
/// and opcode constant `op`: the packed word, built from the default word
/// by the matched elements, or nothing on the first mandatory mismatch.
pub open spec fn spec_parse_word(s: Seq<char>, m: Seq<char>, op: u32) -> Option<u32> {
    if !has_lit(s, 0, m) {
        None
    } else {
        let sx = has_lit(s, 3, seq!['.', 's', 'x']);
        let i1 = if sx {
            6int
        } else {
            3int
        };
        let w1 = with_window32(default_word(op), 7, 1, if sx { 1u32 } else { 0u32 });
        let i2 = skip_ws_end(s, i1);
        if !has_lit(s, i2, seq!['r']) {
            None
        } else {
            match spec_number(s, i2 + 1) {
                None => None,
                Some((dst, i3)) => if dst > 255 {
                    None
                } else {
                    let w2 = with_window32(w1, 8, 5, dst as u32);
                    let i4 = skip_ws_end(s, i3);
                    if !has_lit(s, i4, seq!['r']) {
                        None
                    } else {
                        match spec_number(s, i4 + 1) {
                            None => None,
                            Some((src1, i5)) => if src1 > 255 {
                                None
                            } else {
                                let w3 = with_window32(w2, 16, 5, src1 as u32);
                                let i6 = skip_ws_end(s, i5);
                                if !has_lit(s, i6, seq!['r']) {
                                    None
                                } else {
                                    match spec_number(s, i6 + 1) {
                                        None => None,
                                        Some((src2, i7)) => if src2 > 255 {
                                            None
                                        } else if i7 == s.len() {
                                            Some(with_window32(w3, 24, 5, src2 as u32))
                                        } else {
                                            None
                                        },
                                    }
                                }
                            },
                        }
                    }
                },
            }
        }
    }
}

/// The position of the first element that fails to match under a
/// three-character mnemonic: the mnemonic at the start, a register
/// prefix, an operand numeral, or the position after the last element
/// when text trails it.
pub open spec fn spec_parse_word_fail(s: Seq<char>, m: Seq<char>) -> int {
    if !has_lit(s, 0, m) {
        0
    } else {
        let sx = has_lit(s, 3, seq!['.', 's', 'x']);
        let i1 = if sx {
            6int
        } else {
            3int
        };
        let i2 = skip_ws_end(s, i1);
        if !has_lit(s, i2, seq!['r']) {
            i2
        } else {
            match spec_number(s, i2 + 1) {
                None => i2 + 1,
                Some((dst, i3)) => if dst > 255 {
                    i2 + 1
                } else {
                    let i4 = skip_ws_end(s, i3);
                    if !has_lit(s, i4, seq!['r']) {
                        i4
                    } else {
                        match spec_number(s, i4 + 1) {
                            None => i4 + 1,
                            Some((src1, i5)) => if src1 > 255 {
                                i4 + 1
                            } else {
                                let i6 = skip_ws_end(s, i5);
                                if !has_lit(s, i6, seq!['r']) {
                                    i6
                                } else {
                                    match spec_number(s, i6 + 1) {
                                        None => i6 + 1,
                                        Some((src2, i7)) => if src2 > 255 {
                                            i6 + 1
                                        } else {
                                            i7
                                        },
                                    }
                                }
                            },
                        }
                    }
                },
            }
        }
    }
}

/// Whether the word is reachable through default construction and the
/// public setters: the constant region holds `op` and the padding regions
/// are clear.
pub open spec fn canonical_word(w: u32, op: u8) -> bool {
    &&& opcode_of(w) == op
    &&& window32(w, 13, 3) == 0
    &&& window32(w, 21, 3) == 0
    &&& window32(w, 29, 3) == 0
}

/// Words agreeing on every window of this layout are equal.
proof fn lemma_word_eq_parts(x: u32, y: u32)
    by (bit_vector)
    requires
        window32(x, 0, 7) == window32(y, 0, 7),
        window32(x, 7, 1) == window32(y, 7, 1),
        window32(x, 8, 5) == window32(y, 8, 5),
        window32(x, 13, 3) == window32(y, 13, 3),
        window32(x, 16, 5) == window32(y, 16, 5),
        window32(x, 21, 3) == window32(y, 21, 3),
        window32(x, 24, 5) == window32(y, 24, 5),
        window32(x, 29, 3) == window32(y, 29, 3),
    ensures
        x == y,
{
}

/// Assembly round-trip at the word level: printing any canonical word and
/// parsing the text back yields the identical word.
pub proof fn lemma_word_round_trip(x: u32, m: Seq<char>, op: u8)
    requires
        canonical_word(x, op),
        m.len() == 3,
        m[0] != '.',
    ensures
        spec_parse_word(spec_emit_word(x, m), m, op as u32) == Some(x),
{
    let e = spec_emit_word(x, m);
    let sx = sign_extend_of(x);
    let dst = dst_of(x) as nat;
    let src1 = src1_of(x) as nat;
    let src2 = src2_of(x) as nat;
    let d1 = dec_digits(dst);
    let d2 = dec_digits(src1);
    let d3 = dec_digits(src2);
    let l1 = d1.len() as int;
    let l2 = d2.len() as int;
    let l3 = d3.len() as int;
    lemma_dec_digits_are_digits(dst);
    lemma_dec_digits_are_digits(src1);
    lemma_dec_digits_are_digits(src2);
    lemma_mask32_values();
    lemma_window_bound32(x, 0, 7);
    lemma_window_bound32(x, 8, 5);
    lemma_window_bound32(x, 16, 5);
    lemma_window_bound32(x, 24, 5);
    lemma_window_bound32(x, 7, 1);

    let i1: int = if sx { 6 } else { 3 };
    assert(e.len() == i1 + 2 + l1 + 2 + l2 + 2 + l3);
    assert(has_lit(e, 0, m)) by {
        assert(e.subrange(0, 3) =~= m);
    }
    if sx {
        assert(has_lit(e, 3, seq!['.', 's', 'x'])) by {
            assert(e.subrange(3, 6) =~= seq!['.', 's', 'x']);
        }
    } else {
        assert(e[3] == ' ');
        assert(!has_lit(e, 3, seq!['.', 's', 'x'])) by {
            if has_lit(e, 3, seq!['.', 's', 'x']) {
                assert(e.subrange(3, 6)[0] == '.');
            }
        }
    }
    assert(e[i1] == ' ' && e[i1 + 1] == 'r');
    assert(skip_ws_end(e, i1) == i1 + 1) by {
        lemma_skip_ws_end_none(e, i1 + 1);
    }
    assert(has_lit(e, i1 + 1, seq!['r'])) by {
        assert(e.subrange(i1 + 1, i1 + 2) =~= seq!['r']);
    }
    let p1 = i1 + 2;
    assert forall|k: int| 0 <= k < l1 implies e[p1 + k] == #[trigger] d1[k] by {}
    assert(e[p1 + l1] == ' ');
    lemma_spec_number_at(e, p1, dst);
    let q1 = p1 + l1;
    assert(e[q1] == ' ' && e[q1 + 1] == 'r');
    assert(skip_ws_end(e, q1) == q1 + 1) by {
        lemma_skip_ws_end_none(e, q1 + 1);
    }
    assert(has_lit(e, q1 + 1, seq!['r'])) by {
        assert(e.subrange(q1 + 1, q1 + 2) =~= seq!['r']);
    }
    let p2 = q1 + 2;
    assert forall|k: int| 0 <= k < l2 implies e[p2 + k] == #[trigger] d2[k] by {}
    assert(e[p2 + l2] == ' ');
    lemma_spec_number_at(e, p2, src1);
    let q2 = p2 + l2;
    assert(e[q2] == ' ' && e[q2 + 1] == 'r');
    assert(skip_ws_end(e, q2) == q2 + 1) by {
        lemma_skip_ws_end_none(e, q2 + 1);
    }
    assert(has_lit(e, q2 + 1, seq!['r'])) by {
        assert(e.subrange(q2 + 1, q2 + 2) =~= seq!['r']);
    }
    let p3 = q2 + 2;
    assert forall|k: int| 0 <= k < l3 implies e[p3 + k] == #[trigger] d3[k] by {}
    lemma_spec_number_at(e, p3, src2);
    assert(p3 + l3 == e.len());

    let w0 = default_word(op as u32);
    let b: u32 = if sx { 1 } else { 0 };
    let w1 = with_window32(w0, 7, 1, b);
    let w2 = with_window32(w1, 8, 5, dst as u32);
    let w3 = with_window32(w2, 16, 5, src1 as u32);
    let w4 = with_window32(w3, 24, 5, src2 as u32);
    lemma_window_set_get32(0, 0, 7, op as u32);
    lemma_mask_noop32(op as u32, 7);
    lemma_window_set_get32(w0, 7, 1, b);
    lemma_mask_noop32(b, 1);
    lemma_window_set_get32(w1, 8, 5, dst as u32);
    lemma_mask_noop32(dst as u32, 5);
    lemma_window_set_get32(w2, 16, 5, src1 as u32);
    lemma_mask_noop32(src1 as u32, 5);
    lemma_window_set_get32(w3, 24, 5, src2 as u32);
    lemma_mask_noop32(src2 as u32, 5);
    lemma_window_set_other32(w1, 8, 5, dst as u32, 7, 1);
    lemma_window_set_other32(w2, 16, 5, src1 as u32, 7, 1);
    lemma_window_set_other32(w3, 24, 5, src2 as u32, 7, 1);
    lemma_window_set_other32(w2, 16, 5, src1 as u32, 8, 5);
    lemma_window_set_other32(w3, 24, 5, src2 as u32, 8, 5);
    lemma_window_set_other32(w3, 24, 5, src2 as u32, 16, 5);
    lemma_window_set_other32(w0, 7, 1, b, 0, 7);
    lemma_window_set_other32(w1, 8, 5, dst as u32, 0, 7);
    lemma_window_set_other32(w2, 16, 5, src1 as u32, 0, 7);
    lemma_window_set_other32(w3, 24, 5, src2 as u32, 0, 7);
    lemma_window_zero32(13, 3);
    lemma_window_zero32(21, 3);
    lemma_window_zero32(29, 3);
    lemma_window_set_other32(0, 0, 7, op as u32, 13, 3);
    lemma_window_set_other32(w0, 7, 1, b, 13, 3);
    lemma_window_set_other32(w1, 8, 5, dst as u32, 13, 3);
    lemma_window_set_other32(w2, 16, 5, src1 as u32, 13, 3);
    lemma_window_set_other32(w3, 24, 5, src2 as u32, 13, 3);
    lemma_window_set_other32(0, 0, 7, op as u32, 21, 3);
    lemma_window_set_other32(w0, 7, 1, b, 21, 3);
    lemma_window_set_other32(w1, 8, 5, dst as u32, 21, 3);
    lemma_window_set_other32(w2, 16, 5, src1 as u32, 21, 3);
    lemma_window_set_other32(w3, 24, 5, src2 as u32, 21, 3);
    lemma_window_set_other32(0, 0, 7, op as u32, 29, 3);
    lemma_window_set_other32(w0, 7, 1, b, 29, 3);
    lemma_window_set_other32(w1, 8, 5, dst as u32, 29, 3);
    lemma_window_set_other32(w2, 16, 5, src1 as u32, 29, 3);
    lemma_window_set_other32(w3, 24, 5, src2 as u32, 29, 3);
    assert(window32(x, 7, 1) == b);
    lemma_window_bound32(x, 0, 7);
    lemma_word_eq_parts(w4, x);
    assert(spec_parse_word(e, m, op as u32) == Some(x));
}

/// Machine round-trip: a word encoded from any instantiation whose
/// constant region is intact decodes to the identical word.
pub proof fn lemma_machine_round_trip(w: u32, op: u8)
    requires
        opcode_of(w) == op,
    ensures
        spec_decode_word(w, op) == Some(w),
{
}

/// Constant enforcement: flipping any single bit of the `opcode`
/// constant region of a decodable word makes decoding fail.
pub proof fn lemma_constant_enforcement(w: u32, op: u8, k: u32)
    requires
        opcode_of(w) == op,
        k < 7,
    ensures
        spec_decode_word((w ^ ((1u32 << k) as u32)), op) is None,
{
    lemma_window_flip32(w, 0, 7, k);
    lemma_window_bound32(w, 0, 7);
    lemma_window_bound32((w ^ ((1u32 << k) as u32)), 0, 7);
    lemma_mask32_values();
}

/// Windows of this layout written over any word read back as written and
/// leave the other windows unchanged.
proof fn lemma_set_field_windows(w: u32, offset: u32, width: u32, value: u32)
    requires
        offset < 32,
        offset + width <= 32,
    ensures
        window32(with_window32(w, offset, width, value), offset, width) == value
            & crate::bits::mask32(width),
        offset >= 7 ==> window32(with_window32(w, offset, width, value), 0, 7) == window32(
            w,
            0,
            7,
        ),
        offset >= 8 || offset + width <= 7 ==> window32(
            with_window32(w, offset, width, value),
            7,
            1,
        ) == window32(w, 7, 1),
        offset >= 13 || offset + width <= 8 ==> window32(
            with_window32(w, offset, width, value),
            8,
            5,
        ) == window32(w, 8, 5),
        offset >= 21 || offset + width <= 16 ==> window32(
            with_window32(w, offset, width, value),
            16,
            5,
        ) == window32(w, 16, 5),
        offset + width <= 24 ==> window32(with_window32(w, offset, width, value), 24, 5)
            == window32(w, 24, 5),
{
    lemma_window_set_get32(w, offset, width, value);
    if offset >= 7 {
        lemma_window_set_other32(w, offset, width, value, 0, 7);
    }
    if offset >= 8 || offset + width <= 7 {
        lemma_window_set_other32(w, offset, width, value, 7, 1);
    }
    if offset >= 13 || offset + width <= 8 {
        lemma_window_set_other32(w, offset, width, value, 8, 5);
    }
    if offset >= 21 || offset + width <= 16 {
        lemma_window_set_other32(w, offset, width, value, 16, 5);
    }
    if offset + width <= 24 {
        lemma_window_set_other32(w, offset, width, value, 24, 5);
    }
}

/// Field values of the default word.
proof fn lemma_default_word_fields(op: u32)
    requires
        op <= 127,
    ensures
        opcode_of(default_word(op)) == op,
        dst_of(default_word(op)) == 0,
        src1_of(default_word(op)) == 0,
        src2_of(default_word(op)) == 0,
        !bit32(default_word(op), 7),
{
    lemma_mask32_values();
    lemma_window_set_get32(0, 0, 7, op);
    lemma_mask_noop32(op, 7);
    lemma_window_set_other32(0, 0, 7, op, 7, 1);
    lemma_window_set_other32(0, 0, 7, op, 8, 5);
    lemma_window_set_other32(0, 0, 7, op, 16, 5);
    lemma_window_set_other32(0, 0, 7, op, 24, 5);
    lemma_window_zero32(7, 1);
    lemma_window_zero32(8, 5);
    lemma_window_zero32(16, 5);
    lemma_window_zero32(24, 5);
}

/// Add values from two registers
#[derive(Debug, PartialEq, Eq, Structural)]
pub struct Add(pub u32);

impl Default for Add {
    /// A fresh `Add`: every field zero, the `opcode` constant already 2.
    fn default() -> (r: Self)
        ensures
            r.0 == default_word(2),
            opcode_of(r.0) == 2,
            dst_of(r.0) == 0,
            src1_of(r.0) == 0,
            src2_of(r.0) == 0,
            !sign_extend_of(r.0),
    {
        let mut def = Add(0);
        def.set_opcode(2);
        proof {
            lemma_default_word_fields(2);
        }
        def
    }
}

impl Add {
    pub fn get_dst(&self) -> (r: u8)
        ensures
            r == dst_of(self.0),
    {
        get_bits32(self.0, 8, 5) as u8
    }

    pub fn get_opcode(&self) -> (r: u8)
        ensures
            r == opcode_of(self.0),
    {
        get_bits32(self.0, 0, 7) as u8
    }

    pub fn get_sign_extend(&self) -> (r: bool)
        ensures
            r == sign_extend_of(self.0),
    {
        get_bit32(self.0, 7)
    }

    pub fn get_src1(&self) -> (r: u8)
        ensures
            r == src1_of(self.0),
    {
        get_bits32(self.0, 16, 5) as u8
    }

    pub fn get_src2(&self) -> (r: u8)
        ensures
            r == src2_of(self.0),
    {
        get_bits32(self.0, 24, 5) as u8
    }

    pub fn set_dst(&mut self, value: u8)
        ensures
            final(self).0 == with_window32(old(self).0, 8, 5, value as u32),
            value < 32 ==> dst_of(final(self).0) == value,
            opcode_of(final(self).0) == opcode_of(old(self).0),
            sign_extend_of(final(self).0) == sign_extend_of(old(self).0),
            src1_of(final(self).0) == src1_of(old(self).0),
            src2_of(final(self).0) == src2_of(old(self).0),
    {
        proof {
            lemma_set_field_windows(self.0, 8, 5, value as u32);
            lemma_mask32_values();
            if value < 32 {
                lemma_mask_noop32(value as u32, 5);
            }
        }
        self.0 = set_bits32(self.0, 8, 5, value as u32);
    }

    fn set_opcode(&mut self, value: u8)
        ensures
            final(self).0 == with_window32(old(self).0, 0, 7, value as u32),
    {
        self.0 = set_bits32(self.0, 0, 7, value as u32);
    }

    pub fn set_sign_extend(&mut self, value: bool)
        ensures
            final(self).0 == with_window32(old(self).0, 7, 1, if value { 1u32 } else { 0u32 }),
            sign_extend_of(final(self).0) == value,
            opcode_of(final(self).0) == opcode_of(old(self).0),
            dst_of(final(self).0) == dst_of(old(self).0),
            src1_of(final(self).0) == src1_of(old(self).0),
            src2_of(final(self).0) == src2_of(old(self).0),
    {
        proof {
            let raw: u32 = if value { 1u32 } else { 0u32 };
            lemma_set_field_windows(self.0, 7, 1, raw);
            lemma_mask32_values();
            lemma_mask_noop32(raw, 1);
        }
        self.0 = set_bit32(self.0, 7, value);
    }

    pub fn set_src1(&mut self, value: u8)
        ensures
            final(self).0 == with_window32(old(self).0, 16, 5, value as u32),
            value < 32 ==> src1_of(final(self).0) == value,
            opcode_of(final(self).0) == opcode_of(old(self).0),
            sign_extend_of(final(self).0) == sign_extend_of(old(self).0),
            dst_of(final(self).0) == dst_of(old(self).0),
            src2_of(final(self).0) == src2_of(old(self).0),
    {
        proof {
            lemma_set_field_windows(self.0, 16, 5, value as u32);
            lemma_mask32_values();
            if value < 32 {
                lemma_mask_noop32(value as u32, 5);
            }
        }
        self.0 = set_bits32(self.0, 16, 5, value as u32);
    }

    pub fn set_src2(&mut self, value: u8)
        ensures
            final(self).0 == with_window32(old(self).0, 24, 5, value as u32),
            value < 32 ==> src2_of(final(self).0) == value,
            opcode_of(final(self).0) == opcode_of(old(self).0),
            sign_extend_of(final(self).0) == sign_extend_of(old(self).0),
            dst_of(final(self).0) == dst_of(old(self).0),
            src1_of(final(self).0) == src1_of(old(self).0),
    {
        proof {
            lemma_set_field_windows(self.0, 24, 5, value as u32);
            lemma_mask32_values();
            if value < 32 {
                lemma_mask_noop32(value as u32, 5);
            }
        }
        self.0 = set_bits32(self.0, 24, 5, value as u32);
    }
}

impl MachineInstruction<u32> for Add {
    /// Decode a machine word, validating the `opcode` constant.
    fn parse_machine(data: u32) -> (r: Result<Self, FieldMismatchError>)
        ensures
            match r {
                Ok(x) => spec_decode_word(data, 2) == Some(x.0) && x == Add(data),
                Err(e) => {
                    &&& spec_decode_word(data, 2) is None
                    &&& e.field@ == "opcode"@
                    &&& e.expected == 2
                    &&& e.found == opcode_of(data) as u64
                },
            },
    {
        let perhaps = Add(data);
        let found: u64 = perhaps.get_opcode() as u64;
        let expected: u64 = 2;
        if found != expected {
            return Err(FieldMismatchError { field: "opcode".to_owned(), expected, found });
        }
        Ok(perhaps)
    }

    /// Encode is the identity projection of the packed storage word.
    fn emit_machine(&self) -> (r: u32)
        ensures
            r == self.0,
    {
        self.0
    }
}

impl AssemblyInstruction for Add {
    /// Parse assembly text, as `spec_parse_word` under the `add` mnemonic
    /// describes it.
    fn parse_assembly(text: &str) -> (r: Result<Self, AssemblyParseError>)
        ensures
            match r {
                Ok(x) => spec_parse_word(text@, "add"@, 2) == Some(x.0),
                Err(e) => {
                    &&& spec_parse_word(text@, "add"@, 2) is None
                    &&& e.position <= text@.len()
                    &&& e.position == spec_parse_word_fail(text@, "add"@)
                },
            },
    {
        proof {
            reveal_strlit("add");
            reveal_strlit(".sx");
            reveal_strlit("r");
            assert(".sx"@ =~= seq!['.', 's', 'x']);
            assert("r"@ =~= seq!['r']);
        }
        let start = Add::default();
        match parse_word_tail(text, "add", start.0, 2) {
            Ok(w) => Ok(Add(w)),
            Err(p) => Err(AssemblyParseError { position: p }),
        }
    }

    /// Emit assembly text, as `spec_emit_word` under the `add` mnemonic
    /// describes it.
    fn emit_assembly(&self) -> (r: String)
        ensures
            r@ == spec_emit_word(self.0, "add"@),
    {
        emit_word(self.0, "add")
    }
}

/// Subtract values from two registers
#[derive(Debug, PartialEq, Eq, Structural)]
pub struct Sub(pub u32);

impl Default for Sub {
    /// A fresh `Sub`: every field zero, the `opcode` constant already 3.
    fn default() -> (r: Self)
        ensures
            r.0 == default_word(3),
            opcode_of(r.0) == 3,
            dst_of(r.0) == 0,
            src1_of(r.0) == 0,
            src2_of(r.0) == 0,
            !sign_extend_of(r.0),
    {
        let mut def = Sub(0);
        def.set_opcode(3);
        proof {
            lemma_default_word_fields(3);
        }
        def
    }
}

impl Sub {
    pub fn get_dst(&self) -> (r: u8)
        ensures
            r == dst_of(self.0),
    {
        get_bits32(self.0, 8, 5) as u8
    }

    pub fn get_opcode(&self) -> (r: u8)
        ensures
            r == opcode_of(self.0),
    {
        get_bits32(self.0, 0, 7) as u8
    }

    pub fn get_sign_extend(&self) -> (r: bool)
        ensures
            r == sign_extend_of(self.0),
    {
        get_bit32(self.0, 7)
    }

    pub fn get_src1(&self) -> (r: u8)
        ensures
            r == src1_of(self.0),
    {
        get_bits32(self.0, 16, 5) as u8
    }

    pub fn get_src2(&self) -> (r: u8)
        ensures
            r == src2_of(self.0),
    {
        get_bits32(self.0, 24, 5) as u8
    }

    pub fn set_dst(&mut self, value: u8)
        ensures
            final(self).0 == with_window32(old(self).0, 8, 5, value as u32),
            value < 32 ==> dst_of(final(self).0) == value,
            opcode_of(final(self).0) == opcode_of(old(self).0),
            sign_extend_of(final(self).0) == sign_extend_of(old(self).0),
            src1_of(final(self).0) == src1_of(old(self).0),
            src2_of(final(self).0) == src2_of(old(self).0),
    {
        proof {
            lemma_set_field_windows(self.0, 8, 5, value as u32);
            lemma_mask32_values();
            if value < 32 {
                lemma_mask_noop32(value as u32, 5);
            }
        }
        self.0 = set_bits32(self.0, 8, 5, value as u32);
    }

    fn set_opcode(&mut self, value: u8)
        ensures
            final(self).0 == with_window32(old(self).0, 0, 7, value as u32),
    {
        self.0 = set_bits32(self.0, 0, 7, value as u32);
    }

    pub fn set_sign_extend(&mut self, value: bool)
        ensures
            final(self).0 == with_window32(old(self).0, 7, 1, if value { 1u32 } else { 0u32 }),
            sign_extend_of(final(self).0) == value,
            opcode_of(final(self).0) == opcode_of(old(self).0),
            dst_of(final(self).0) == dst_of(old(self).0),
            src1_of(final(self).0) == src1_of(old(self).0),
            src2_of(final(self).0) == src2_of(old(self).0),
    {
        proof {
            let raw: u32 = if value { 1u32 } else { 0u32 };
            lemma_set_field_windows(self.0, 7, 1, raw);
            lemma_mask32_values();
            lemma_mask_noop32(raw, 1);
        }
        self.0 = set_bit32(self.0, 7, value);
    }

    pub fn set_src1(&mut self, value: u8)
        ensures
            final(self).0 == with_window32(old(self).0, 16, 5, value as u32),
            value < 32 ==> src1_of(final(self).0) == value,
            opcode_of(final(self).0) == opcode_of(old(self).0),
            sign_extend_of(final(self).0) == sign_extend_of(old(self).0),
            dst_of(final(self).0) == dst_of(old(self).0),
            src2_of(final(self).0) == src2_of(old(self).0),
    {
        proof {
            lemma_set_field_windows(self.0, 16, 5, value as u32);
            lemma_mask32_values();
            if value < 32 {
                lemma_mask_noop32(value as u32, 5);
            }
        }
        self.0 = set_bits32(self.0, 16, 5, value as u32);
    }

    pub fn set_src2(&mut self, value: u8)
        ensures
            final(self).0 == with_window32(old(self).0, 24, 5, value as u32),
            value < 32 ==> src2_of(final(self).0) == value,
            opcode_of(final(self).0) == opcode_of(old(self).0),
            sign_extend_of(final(self).0) == sign_extend_of(old(self).0),
            dst_of(final(self).0) == dst_of(old(self).0),
            src1_of(final(self).0) == src1_of(old(self).0),
    {
        proof {
            lemma_set_field_windows(self.0, 24, 5, value as u32);
            lemma_mask32_values();
            if value < 32 {
                lemma_mask_noop32(value as u32, 5);
            }
        }
        self.0 = set_bits32(self.0, 24, 5, value as u32);
    }
}

impl MachineInstruction<u32> for Sub {
    /// Decode a machine word, validating the `opcode` constant.
    fn parse_machine(data: u32) -> (r: Result<Self, FieldMismatchError>)
        ensures
            match r {
                Ok(x) => spec_decode_word(data, 3) == Some(x.0) && x == Sub(data),
                Err(e) => {
                    &&& spec_decode_word(data, 3) is None
                    &&& e.field@ == "opcode"@
                    &&& e.expected == 3
                    &&& e.found == opcode_of(data) as u64
                },
            },
    {
        let perhaps = Sub(data);
        let found: u64 = perhaps.get_opcode() as u64;
        let expected: u64 = 3;
        if found != expected {
            return Err(FieldMismatchError { field: "opcode".to_owned(), expected, found });
        }
        Ok(perhaps)
    }

    /// Encode is the identity projection of the packed storage word.
    fn emit_machine(&self) -> (r: u32)
        ensures
            r == self.0,
    {
        self.0
    }
}

impl AssemblyInstruction for Sub {
    /// Parse assembly text, as `spec_parse_word` under the `sub` mnemonic
    /// describes it.
    fn parse_assembly(text: &str) -> (r: Result<Self, AssemblyParseError>)
        ensures
            match r {
                Ok(x) => spec_parse_word(text@, "sub"@, 3) == Some(x.0),
                Err(e) => {
                    &&& spec_parse_word(text@, "sub"@, 3) is None
                    &&& e.position <= text@.len()
                    &&& e.position == spec_parse_word_fail(text@, "sub"@)
                },
            },
    {
        proof {
            reveal_strlit("sub");
            reveal_strlit(".sx");
            reveal_strlit("r");
            assert(".sx"@ =~= seq!['.', 's', 'x']);
            assert("r"@ =~= seq!['r']);
        }
        let start = Sub::default();
        match parse_word_tail(text, "sub", start.0, 3) {
            Ok(w) => Ok(Sub(w)),
            Err(p) => Err(AssemblyParseError { position: p }),
        }
    }

    /// Emit assembly text, as `spec_emit_word` under the `sub` mnemonic
    /// describes it.
    fn emit_assembly(&self) -> (r: String)
        ensures
            r@ == spec_emit_word(self.0, "sub"@),
    {
        emit_word(self.0, "sub")
    }
}

/// Parse the shared element sequence starting from the default word for
/// opcode `op`; an error carries the failing position.
fn parse_word_tail(text: &str, m: &str, start: u32, op: u32) -> (r: Result<u32, usize>)
    requires
        start == default_word(op),
        m@.len() == 3,
    ensures
        match r {
            Ok(w) => spec_parse_word(text@, m@, op) == Some(w),
            Err(p) => {
                &&& spec_parse_word(text@, m@, op) is None
                &&& p <= text@.len()
                &&& p as int == spec_parse_word_fail(text@, m@)
            },
        },
{
    proof {
        reveal_strlit(".sx");
        reveal_strlit("r");
        assert(".sx"@ =~= seq!['.', 's', 'x']);
        assert("r"@ =~= seq!['r']);
    }
    let mut word = start;
    let n = text.unicode_len();
    let i0 = match match_lit(text, 0, m) {
        Some(j) => j,
        None => {
            return Err(0);
        },
    };
    let (sx, i1) = match match_lit(text, i0, ".sx") {
        Some(j) => (true, j),
        None => (false, i0),
    };
    word = set_bit32(word, 7, sx);
    let i2 = skip_ws(text, i1);
    let i3 = match match_lit(text, i2, "r") {
        Some(j) => j,
        None => {
            return Err(i2);
        },
    };
    let (dst, i4) = match scan_number(text, i3) {
        Some(p) => p,
        None => {
            return Err(i3);
        },
    };
    if dst > 255 {
        return Err(i3);
    }
    word = set_bits32(word, 8, 5, dst as u32);
    let i5 = skip_ws(text, i4);
    let i6 = match match_lit(text, i5, "r") {
        Some(j) => j,
        None => {
            return Err(i5);
        },
    };
    let (src1, i7) = match scan_number(text, i6) {
        Some(p) => p,
        None => {
            return Err(i6);
        },
    };
    if src1 > 255 {
        return Err(i6);
    }
    word = set_bits32(word, 16, 5, src1 as u32);
    let i8 = skip_ws(text, i7);
    let i9 = match match_lit(text, i8, "r") {
        Some(j) => j,
        None => {
            return Err(i8);
        },
    };
    let (src2, i10) = match scan_number(text, i9) {
        Some(p) => p,
        None => {
            return Err(i9);
        },
    };
    if src2 > 255 {
        return Err(i9);
    }
    word = set_bits32(word, 24, 5, src2 as u32);
    if i10 != n {
        return Err(i10);
    }
    Ok(word)
}

/// Emit the shared element sequence for `word` under mnemonic `m`.
fn emit_word(word: u32, m: &str) -> (r: String)
    ensures
        r@ == spec_emit_word(word, m@),
{
    proof {
        reveal_strlit(".sx");
        reveal_strlit(" ");
        reveal_strlit("r");
    }
    let mut s = String::new();
    s.append(m);
    if get_bit32(word, 7) {
        s.append(".sx");
    }
    s.append(" ");
    s.append("r");
    let d1 = u64_to_dec(get_bits32(word, 8, 5) as u64);
    s.append(d1.as_str());
    s.append(" ");
    s.append("r");
    let d2 = u64_to_dec(get_bits32(word, 16, 5) as u64);
    s.append(d2.as_str());
    s.append(" ");
    s.append("r");
    let d3 = u64_to_dec(get_bits32(word, 24, 5) as u64);
    s.append(d3.as_str());
    proof {
        lemma_window_bound32(word, 8, 5);
        lemma_window_bound32(word, 16, 5);
        lemma_window_bound32(word, 24, 5);
        lemma_mask32_values();
        assert(s@ =~= spec_emit_word(word, m@));
    }
    s
}

} // verus!
