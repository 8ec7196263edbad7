//! The `SliceAdd` instruction: width 32, layout `opcode:7 = 2`, field
//! `sign_extend`, field `dst:5`, padding `_:3`, slice `src[0:6]`, padding
//! `_:2`, slice `src[7:13]`; assembly syntax `'add' ['.sx' = sign_extend]
//! 'r' dst src`.  The 14-bit `src` field is split across two
//! non-contiguous placements and read and written as one value.

use crate::bits::bit32;
use crate::bits::lemma_mask32_values;
use crate::bits::lemma_mask_noop32;
use crate::bits::lemma_window_bound32;
use crate::bits::lemma_window_flip32;
use crate::bits::lemma_window_set_get32;
use crate::bits::lemma_window_set_other32;
use crate::bits::lemma_window_zero32;
use crate::bits::set_bit32;
use crate::bits::set_bits32;
use crate::bits::get_bit32;
use crate::bits::get_bits32;
use crate::bits::window32;
use crate::bits::with_window32;
use crate::text::dec_digits;
use crate::text::has_lit;
use crate::text::lemma_dec_digits_are_digits;
use crate::text::lemma_skip_ws_end_none;
use crate::text::lemma_spec_number_at;
use crate::text::match_lit;
use crate::text::scan_number;
use crate::text::skip_ws;
use crate::text::skip_ws_end;
use crate::text::spec_number;
use crate::text::u64_to_dec;
use crate::AssemblyInstruction;
use crate::AssemblyParseError;
use crate::FieldMismatchError;
use crate::MachineInstruction;
use vstd::prelude::*;

verus! {

/// An instruction
#[derive(Debug, PartialEq, Eq, Structural)]
pub struct SliceAdd(pub u32);

/// The `opcode` constant region: bits 0..7.
pub open spec fn opcode_of(w: u32) -> u8 {
    window32(w, 0, 7) as u8
}

/// The `sign_extend` field: bit 7.
pub open spec fn sign_extend_of(w: u32) -> bool {
    bit32(w, 7)
}

/// The `dst` field: bits 8..13.
pub open spec fn dst_of(w: u32) -> u8 {
    window32(w, 8, 5) as u8
}

/// The logical 14-bit `src` field: slice `[0:6]` stands at bits 16..23,
/// slice `[7:13]` at bits 25..32; the slices OR-combine, each shifted to
/// its bit range within the logical field.
pub open spec fn src_of(w: u32) -> u16 {
    ((window32(w, 16, 7) | (window32(w, 25, 7) << 7)) as u32) as u16
}

/// The word with both `src` slices rewritten from the logical value `v`:
/// each placement takes its own bit range of `v`.
pub open spec fn src_set_word(w: u32, v: u16) -> u32 {
    with_window32(with_window32(w, 16, 7, v as u32), 25, 7, (v >> 7) as u32)
}

/// The word a default-constructed `SliceAdd` holds.
pub open spec fn default_word() -> u32 {
    with_window32(0, 0, 7, 2)
}

/// What machine-word decoding yields: the word itself when the `opcode`
/// constant holds its expected value, nothing otherwise.
pub open spec fn spec_parse_machine(data: u32) -> Option<SliceAdd> {
    if opcode_of(data) == 2 {
        Some(SliceAdd(data))
    } else {
        None
    }
}

/// Field values of the default word.
proof fn lemma_default_word_fields()
    ensures
        opcode_of(default_word()) == 2,
        dst_of(default_word()) == 0,
        src_of(default_word()) == 0,
        !bit32(default_word(), 7),
{
    lemma_mask32_values();
    lemma_window_set_get32(0, 0, 7, 2);
    lemma_mask_noop32(2, 7);
    lemma_window_set_other32(0, 0, 7, 2, 7, 1);
    lemma_window_set_other32(0, 0, 7, 2, 8, 5);
    lemma_window_set_other32(0, 0, 7, 2, 16, 7);
    lemma_window_set_other32(0, 0, 7, 2, 25, 7);
    lemma_window_zero32(7, 1);
    lemma_window_zero32(8, 5);
    lemma_window_zero32(16, 7);
    lemma_window_zero32(25, 7);
    assert((0u32 | (0u32 << 7)) as u16 == 0) by (bit_vector);
}

impl Default for SliceAdd {
    /// A fresh `SliceAdd`: every field zero, the `opcode` constant
    /// already 2.
    fn default() -> (r: Self)
        ensures
            r.0 == default_word(),
            opcode_of(r.0) == 2,
            dst_of(r.0) == 0,
            src_of(r.0) == 0,
            !sign_extend_of(r.0),
    {
        let mut def = SliceAdd(0);
        def.set_opcode(2);
        proof {
            lemma_default_word_fields();
        }
        def
    }
}

impl SliceAdd {
    pub fn get_dst(&self) -> (r: u8)
        ensures
            r == dst_of(self.0),
    {
        get_bits32(self.0, 8, 5) as u8
    }

    pub fn get_opcode(&self) -> (r: u8)
        ensures
            r == opcode_of(self.0),
    {
        get_bits32(self.0, 0, 7) as u8
    }

    pub fn get_sign_extend(&self) -> (r: bool)
        ensures
            r == sign_extend_of(self.0),
    {
        get_bit32(self.0, 7)
    }

    /// Read the logical `src` value by OR-combining its two slices in
    /// layout order.
    pub fn get_src(&self) -> (r: u16)
        ensures
            r == src_of(self.0),
    {
        proof {
            lemma_window_bound32(self.0, 16, 7);
            lemma_window_bound32(self.0, 25, 7);
            lemma_mask32_values();
            let a = window32(self.0, 16, 7);
            let b = window32(self.0, 25, 7);
            assert(a <= 127 && b <= 127 ==> (a | (b << 7)) <= 0xffff && ((a | (b << 7)) as u32)
                as u16 == (a | (b << 7))) by (bit_vector);
        }
        let mut result = get_bits32(self.0, 16, 7) as u16;
        result |= (get_bits32(self.0, 25, 7) as u16) << 7;
        proof {
            let a = window32(self.0, 16, 7);
            let b = window32(self.0, 25, 7);
            assert(a <= 127 && b <= 127 ==> ((a as u16) | ((b as u16) << 7)) == ((a | (b << 7))
                as u32) as u16) by (bit_vector);
        }
        result
    }

    pub fn set_dst(&mut self, value: u8)
        ensures
            final(self).0 == with_window32(old(self).0, 8, 5, value as u32),
            value < 32 ==> dst_of(final(self).0) == value,
            opcode_of(final(self).0) == opcode_of(old(self).0),
            sign_extend_of(final(self).0) == sign_extend_of(old(self).0),
            src_of(final(self).0) == src_of(old(self).0),
    {
        proof {
            lemma_window_set_get32(self.0, 8, 5, value as u32);
            lemma_window_set_other32(self.0, 8, 5, value as u32, 0, 7);
            lemma_window_set_other32(self.0, 8, 5, value as u32, 7, 1);
            lemma_window_set_other32(self.0, 8, 5, value as u32, 16, 7);
            lemma_window_set_other32(self.0, 8, 5, value as u32, 25, 7);
            lemma_mask32_values();
            if value < 32 {
                lemma_mask_noop32(value as u32, 5);
            }
        }
        self.0 = set_bits32(self.0, 8, 5, value as u32);
    }

    fn set_opcode(&mut self, value: u8)
        ensures
            final(self).0 == with_window32(old(self).0, 0, 7, value as u32),
    {
        self.0 = set_bits32(self.0, 0, 7, value as u32);
    }

    pub fn set_sign_extend(&mut self, value: bool)
        ensures
            final(self).0 == with_window32(old(self).0, 7, 1, if value { 1u32 } else { 0u32 }),
            sign_extend_of(final(self).0) == value,
            opcode_of(final(self).0) == opcode_of(old(self).0),
            dst_of(final(self).0) == dst_of(old(self).0),
            src_of(final(self).0) == src_of(old(self).0),
    {
        proof {
            let raw: u32 = if value { 1u32 } else { 0u32 };
            lemma_window_set_get32(self.0, 7, 1, raw);
            lemma_window_set_other32(self.0, 7, 1, raw, 0, 7);
            lemma_window_set_other32(self.0, 7, 1, raw, 8, 5);
            lemma_window_set_other32(self.0, 7, 1, raw, 16, 7);
            lemma_window_set_other32(self.0, 7, 1, raw, 25, 7);
            lemma_mask32_values();
            lemma_mask_noop32(raw, 1);
        }
        self.0 = set_bit32(self.0, 7, value);
    }

    /// Write the logical `src` value: each slice placement takes its own
    /// bit range of the value.
    pub fn set_src(&mut self, value: u16)
        ensures
            final(self).0 == src_set_word(old(self).0, value),
            value < 0x4000 ==> src_of(final(self).0) == value,
            opcode_of(final(self).0) == opcode_of(old(self).0),
            sign_extend_of(final(self).0) == sign_extend_of(old(self).0),
            dst_of(final(self).0) == dst_of(old(self).0),
    {
        proof {
            lemma_src_set(self.0, value);
        }
        self.0 = set_bits32(self.0, 16, 7, value as u32);
        self.0 = set_bits32(self.0, 25, 7, (value >> 7) as u32);
    }
}

/// Slice accumulation: rewriting both `src` placements from a value
/// within the field's 14-bit width and reading the slices back yields
/// exactly that value; every other window is untouched.
pub proof fn lemma_src_set(w: u32, value: u16)
    ensures
        value < 0x4000 ==> src_of(src_set_word(w, value)) == value,
        opcode_of(src_set_word(w, value)) == opcode_of(w),
        sign_extend_of(src_set_word(w, value)) == sign_extend_of(w),
        dst_of(src_set_word(w, value)) == dst_of(w),
{
    let w1 = with_window32(w, 16, 7, value as u32);
    let w2 = with_window32(w1, 25, 7, (value >> 7) as u32);
    lemma_window_set_get32(w, 16, 7, value as u32);
    lemma_window_set_other32(w1, 25, 7, (value >> 7) as u32, 16, 7);
    lemma_window_set_get32(w1, 25, 7, (value >> 7) as u32);
    lemma_window_set_other32(w, 16, 7, value as u32, 0, 7);
    lemma_window_set_other32(w1, 25, 7, (value >> 7) as u32, 0, 7);
    lemma_window_set_other32(w, 16, 7, value as u32, 7, 1);
    lemma_window_set_other32(w1, 25, 7, (value >> 7) as u32, 7, 1);
    lemma_window_set_other32(w, 16, 7, value as u32, 8, 5);
    lemma_window_set_other32(w1, 25, 7, (value >> 7) as u32, 8, 5);
    lemma_mask32_values();
    assert(window32(w2, 16, 7) == (value as u32) & 127);
    assert(window32(w2, 25, 7) == ((value >> 7) as u32) & 127);
    assert(value < 0x4000 ==> ((((value as u32) & 127) | (((((value >> 7) as u32) & 127))
        << 7)) as u32) as u16 == value) by (bit_vector);
}

impl MachineInstruction<u32> for SliceAdd {
    /// Decode a machine word, validating the `opcode` constant.
    fn parse_machine(data: u32) -> (r: Result<Self, FieldMismatchError>)
        ensures
            match r {
                Ok(x) => spec_parse_machine(data) == Some(x),
                Err(e) => {
                    &&& spec_parse_machine(data) is None
                    &&& e.field@ == "opcode"@
                    &&& e.expected == 2
                    &&& e.found == opcode_of(data) as u64
                },
            },
    {
        let perhaps = SliceAdd(data);
        let found: u64 = perhaps.get_opcode() as u64;
        let expected: u64 = 2;
        if found != expected {
            return Err(FieldMismatchError { field: "opcode".to_owned(), expected, found });
        }
        Ok(perhaps)
    }

    /// Encode is the identity projection of the packed storage word.
    fn emit_machine(&self) -> (r: u32)
        ensures
            r == self.0,
    {
        self.0
    }
}

/// The assembly text of `x`.
pub open spec fn spec_emit_assembly(x: SliceAdd) -> Seq<char> {
    seq!['a', 'd', 'd'] + (if sign_extend_of(x.0) {
        seq!['.', 's', 'x']
    } else {
        Seq::<char>::empty()
    }) + seq![' ', 'r'] + dec_digits(dst_of(x.0) as nat) + seq![' '] + dec_digits(
        src_of(x.0) as nat,
    )
}

/// What parsing assembly text yields.
pub open spec fn spec_parse_assembly(s: Seq<char>) -> Option<SliceAdd> {
    if !has_lit(s, 0, seq!['a', 'd', 'd']) {
        None
    } else {
        let sx = has_lit(s, 3, seq!['.', 's', 'x']);
        let i1 = if sx {
            6int
        } else {
            3int
        };
        let w1 = with_window32(default_word(), 7, 1, if sx { 1u32 } else { 0u32 });
        let i2 = skip_ws_end(s, i1);
        if !has_lit(s, i2, seq!['r']) {
            None
        } else {
            match spec_number(s, i2 + 1) {
                None => None,
                Some((dst, i3)) => if dst > 255 {
                    None
                } else {
                    let w2 = with_window32(w1, 8, 5, dst as u32);
                    let i4 = skip_ws_end(s, i3);
                    match spec_number(s, i4) {
                        None => None,
                        Some((src, i5)) => if src > 0xffff {
                            None
                        } else if i5 == s.len() {
                            Some(SliceAdd(src_set_word(w2, src as u16)))
                        } else {
                            None
                        },
                    }
                },
            }
        }
    }
}

/// The position of the first element that fails to match: the mnemonic
/// at the start, the register prefix, an operand numeral, or the
/// position after the last element when text trails it.
pub open spec fn spec_parse_fail_at(s: Seq<char>) -> int {
    if !has_lit(s, 0, seq!['a', 'd', 'd']) {
        0
    } else {
        let sx = has_lit(s, 3, seq!['.', 's', 'x']);
        let i1 = if sx {
            6int
        } else {
            3int
        };
        let i2 = skip_ws_end(s, i1);
        if !has_lit(s, i2, seq!['r']) {
            i2
        } else {
            match spec_number(s, i2 + 1) {
                None => i2 + 1,
                Some((dst, i3)) => if dst > 255 {
                    i2 + 1
                } else {
                    let i4 = skip_ws_end(s, i3);
                    match spec_number(s, i4) {
                        None => i4,
                        Some((src, i5)) => if src > 0xffff {
                            i4
                        } else {
                            i5
                        },
                    }
                },
            }
        }
    }
}

impl AssemblyInstruction for SliceAdd {
    /// Parse assembly text, as `spec_parse_assembly` describes it; an
    /// error points at the element that failed to match.
    fn parse_assembly(text: &str) -> (r: Result<Self, AssemblyParseError>)
        ensures
            match r {
                Ok(x) => spec_parse_assembly(text@) == Some(x),
                Err(e) => {
                    &&& spec_parse_assembly(text@) is None
                    &&& e.position <= text@.len()
                    &&& e.position == spec_parse_fail_at(text@)
                },
            },
    {
        proof {
            reveal_strlit("add");
            reveal_strlit(".sx");
            reveal_strlit("r");
            assert("add"@ =~= seq!['a', 'd', 'd']);
            assert(".sx"@ =~= seq!['.', 's', 'x']);
            assert("r"@ =~= seq!['r']);
        }
        let n = text.unicode_len();
        let mut result = SliceAdd::default();
        match match_lit(text, 0, "add") {
            Some(_) => {},
            None => {
                return Err(AssemblyParseError { position: 0 });
            },
        }
        let (sx, i1) = match match_lit(text, 3, ".sx") {
            Some(j) => (true, j),
            None => (false, 3),
        };
        result.set_sign_extend(sx);
        let i2 = skip_ws(text, i1);
        let i3 = match match_lit(text, i2, "r") {
            Some(j) => j,
            None => {
                return Err(AssemblyParseError { position: i2 });
            },
        };
        let (dst, i4) = match scan_number(text, i3) {
            Some(p) => p,
            None => {
                return Err(AssemblyParseError { position: i3 });
            },
        };
        if dst > 255 {
            return Err(AssemblyParseError { position: i3 });
        }
        result.set_dst(dst as u8);
        let i5 = skip_ws(text, i4);
        let (src, i6) = match scan_number(text, i5) {
            Some(p) => p,
            None => {
                return Err(AssemblyParseError { position: i5 });
            },
        };
        if src > 0xffff {
            return Err(AssemblyParseError { position: i5 });
        }
        result.set_src(src as u16);
        if i6 != n {
            return Err(AssemblyParseError { position: i6 });
        }
        Ok(result)
    }

    /// Emit assembly text, as `spec_emit_assembly` describes it.
    fn emit_assembly(&self) -> (r: String)
        ensures
            r@ == spec_emit_assembly(*self),
    {
        proof {
            reveal_strlit("add");
            reveal_strlit(".sx");
            reveal_strlit(" ");
            reveal_strlit("r");
        }
        let mut s = String::new();
        s.append("add");
        if self.get_sign_extend() {
            s.append(".sx");
        }
        s.append(" ");
        s.append("r");
        let d1 = u64_to_dec(self.get_dst() as u64);
        s.append(d1.as_str());
        s.append(" ");
        let d2 = u64_to_dec(self.get_src() as u64);
        s.append(d2.as_str());
        proof {
            assert(s@ =~= spec_emit_assembly(*self));
        }
        s
    }
}

/// Whether `x` is reachable through default construction and the public
/// setters: the constant region holds its value and the padding regions
/// are clear.
pub open spec fn canonical(x: SliceAdd) -> bool {
    &&& opcode_of(x.0) == 2
    &&& window32(x.0, 13, 3) == 0
    &&& window32(x.0, 23, 2) == 0
}

/// Words agreeing on every window of this layout are equal.
proof fn lemma_word_eq_parts(x: u32, y: u32)
    by (bit_vector)
    requires
        window32(x, 0, 7) == window32(y, 0, 7),
        window32(x, 7, 1) == window32(y, 7, 1),
        window32(x, 8, 5) == window32(y, 8, 5),
        window32(x, 13, 3) == window32(y, 13, 3),
        window32(x, 16, 7) == window32(y, 16, 7),
        window32(x, 23, 2) == window32(y, 23, 2),
        window32(x, 25, 7) == window32(y, 25, 7),
    ensures
        x == y,
{
}

/// Machine round-trip: a word encoded from any `SliceAdd` whose constant
/// region is intact decodes to the identical value.
pub proof fn lemma_machine_round_trip(x: SliceAdd)
    requires
        opcode_of(x.0) == 2,
    ensures
        spec_parse_machine(x.0) == Some(x),
{
}

/// Constant enforcement: flipping any single bit of the `opcode` constant
/// region of a decodable word makes decoding fail.
pub proof fn lemma_constant_enforcement(x: SliceAdd, k: u32)
    requires
        opcode_of(x.0) == 2,
        k < 7,
    ensures
        spec_parse_machine(x.0 ^ ((1u32 << k) as u32)) is None,
{
    lemma_window_flip32(x.0, 0, 7, k);
    lemma_window_bound32(x.0, 0, 7);
    lemma_window_bound32((x.0 ^ ((1u32 << k) as u32)), 0, 7);
    lemma_mask32_values();
}

/// Assembly round-trip: printing any canonical `SliceAdd` and parsing the
/// text back yields the identical value.
pub proof fn lemma_assembly_round_trip(x: SliceAdd)
    requires
        canonical(x),
    ensures
        spec_parse_assembly(spec_emit_assembly(x)) == Some(x),
{
    let e = spec_emit_assembly(x);
    let sx = sign_extend_of(x.0);
    let dst = dst_of(x.0) as nat;
    let src = src_of(x.0) as nat;
    let d1 = dec_digits(dst);
    let d2 = dec_digits(src);
    let l1 = d1.len() as int;
    let l2 = d2.len() as int;
    lemma_dec_digits_are_digits(dst);
    lemma_dec_digits_are_digits(src);
    lemma_mask32_values();
    lemma_window_bound32(x.0, 0, 7);
    lemma_window_bound32(x.0, 7, 1);
    lemma_window_bound32(x.0, 8, 5);
    lemma_window_bound32(x.0, 16, 7);
    lemma_window_bound32(x.0, 25, 7);

    let i1: int = if sx { 6 } else { 3 };
    assert(e.len() == i1 + 2 + l1 + 1 + l2);
    assert(has_lit(e, 0, seq!['a', 'd', 'd'])) by {
        assert(e.subrange(0, 3) =~= seq!['a', 'd', 'd']);
    }
    if sx {
        assert(has_lit(e, 3, seq!['.', 's', 'x'])) by {
            assert(e.subrange(3, 6) =~= seq!['.', 's', 'x']);
        }
    } else {
        assert(e[3] == ' ');
        assert(!has_lit(e, 3, seq!['.', 's', 'x'])) by {
            if has_lit(e, 3, seq!['.', 's', 'x']) {
                assert(e.subrange(3, 6)[0] == '.');
            }
        }
    }
    assert(e[i1] == ' ' && e[i1 + 1] == 'r');
    assert(skip_ws_end(e, i1) == i1 + 1) by {
        lemma_skip_ws_end_none(e, i1 + 1);
    }
    assert(has_lit(e, i1 + 1, seq!['r'])) by {
        assert(e.subrange(i1 + 1, i1 + 2) =~= seq!['r']);
    }
    let p1 = i1 + 2;
    assert forall|k: int| 0 <= k < l1 implies e[p1 + k] == #[trigger] d1[k] by {}
    assert(e[p1 + l1] == ' ');
    lemma_spec_number_at(e, p1, dst);
    let q1 = p1 + l1;
    let p2 = q1 + 1;
    assert forall|k: int| 0 <= k < l2 implies e[p2 + k] == #[trigger] d2[k] by {}
    assert(e[q1] == ' ' && !crate::text::is_ws(e[p2])) by {
        crate::text::lemma_digit_not_ws(e[p2]);
    }
    assert(skip_ws_end(e, q1) == p2) by {
        lemma_skip_ws_end_none(e, p2);
    }
    lemma_spec_number_at(e, p2, src);
    assert(p2 + l2 == e.len());

    let w0 = default_word();
    let b: u32 = if sx { 1 } else { 0 };
    let w1 = with_window32(w0, 7, 1, b);
    let w2 = with_window32(w1, 8, 5, dst as u32);
    let w3 = src_set_word(w2, src as u16);
    lemma_window_set_get32(0, 0, 7, 2);
    lemma_mask_noop32(2, 7);
    lemma_window_set_get32(w0, 7, 1, b);
    lemma_mask_noop32(b, 1);
    lemma_window_set_get32(w1, 8, 5, dst as u32);
    lemma_mask_noop32(dst as u32, 5);
    let v: u16 = src as u16;
    let wa = with_window32(w2, 16, 7, v as u32);
    lemma_window_set_get32(w2, 16, 7, v as u32);
    lemma_window_set_other32(wa, 25, 7, (v >> 7) as u32, 16, 7);
    lemma_window_set_get32(wa, 25, 7, (v >> 7) as u32);
    // Earlier windows survive the later writes.
    lemma_window_set_other32(w0, 7, 1, b, 0, 7);
    lemma_window_set_other32(w1, 8, 5, dst as u32, 0, 7);
    lemma_window_set_other32(w2, 16, 7, v as u32, 0, 7);
    lemma_window_set_other32(wa, 25, 7, (v >> 7) as u32, 0, 7);
    lemma_window_set_other32(w1, 8, 5, dst as u32, 7, 1);
    lemma_window_set_other32(w2, 16, 7, v as u32, 7, 1);
    lemma_window_set_other32(wa, 25, 7, (v >> 7) as u32, 7, 1);
    lemma_window_set_other32(w2, 16, 7, v as u32, 8, 5);
    lemma_window_set_other32(wa, 25, 7, (v >> 7) as u32, 8, 5);
    // Padding windows stay clear through every write.
    lemma_window_zero32(13, 3);
    lemma_window_zero32(23, 2);
    lemma_window_set_other32(0, 0, 7, 2, 13, 3);
    lemma_window_set_other32(w0, 7, 1, b, 13, 3);
    lemma_window_set_other32(w1, 8, 5, dst as u32, 13, 3);
    lemma_window_set_other32(w2, 16, 7, v as u32, 13, 3);
    lemma_window_set_other32(wa, 25, 7, (v >> 7) as u32, 13, 3);
    lemma_window_set_other32(0, 0, 7, 2, 23, 2);
    lemma_window_set_other32(w0, 7, 1, b, 23, 2);
    lemma_window_set_other32(w1, 8, 5, dst as u32, 23, 2);
    lemma_window_set_other32(w2, 16, 7, v as u32, 23, 2);
    lemma_window_set_other32(wa, 25, 7, (v >> 7) as u32, 23, 2);
    // The slice windows of the original word are the slices of its value.
    let sa = window32(x.0, 16, 7);
    let sb = window32(x.0, 25, 7);
    assert(sa <= 127 && sb <= 127 ==> {
        &&& ((((sa | (sb << 7)) as u32) as u16) as u32) & 127 == sa
        &&& (((((sa | (sb << 7)) as u32) as u16) >> 7) as u32) & 127 == sb
        &&& (((sa | (sb << 7)) as u32) as u16) < 0x4000
    }) by (bit_vector);
    assert(window32(x.0, 7, 1) == b);
    lemma_word_eq_parts(w3, x.0);
    assert(spec_parse_assembly(e) == Some(x));
}

} // verus!
