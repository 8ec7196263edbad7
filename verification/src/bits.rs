//! Bit-window accessors over fixed-width storage words.  A window is the
//! `width` bits of a word starting at bit `offset` (bit 0 is the low-order
//! bit).  Generated instruction types read and write every field through
//! these functions, so the lemmas here carry the whole bit-packing argument:
//! writing a window and reading it back yields the written value, and
//! writing one window leaves every disjoint window unchanged.

use vstd::prelude::*;

verus! {

/// The `u32` mask with the low `width` bits set.
pub open spec fn mask32(width: u32) -> u32 {
    if width >= 32 {
        0xffff_ffffu32
    } else {
        (((1u32 << width) as u32) - 1) as u32
    }
}

/// The `u64` mask with the low `width` bits set.
pub open spec fn mask64(width: u64) -> u64 {
    if width >= 64 {
        0xffff_ffff_ffff_ffffu64
    } else {
        (((1u64 << width) as u64) - 1) as u64
    }
}

/// The value held by the window of `width` bits at `offset`.
pub open spec fn window32(reg: u32, offset: u32, width: u32) -> u32 {
    ((reg >> offset) as u32) & mask32(width)
}

/// `reg` with the window of `width` bits at `offset` replaced by the low
/// `width` bits of `value`.
pub open spec fn with_window32(reg: u32, offset: u32, width: u32, value: u32) -> u32 {
    (reg & !((mask32(width) << offset) as u32)) | (((value & mask32(width)) << offset) as u32)
}

/// The value held by the window of `width` bits at `offset`.
pub open spec fn window64(reg: u64, offset: u64, width: u64) -> u64 {
    ((reg >> offset) as u64) & mask64(width)
}

/// `reg` with the window of `width` bits at `offset` replaced by the low
/// `width` bits of `value`.
pub open spec fn with_window64(reg: u64, offset: u64, width: u64, value: u64) -> u64 {
    (reg & !((mask64(width) << offset) as u64)) | (((value & mask64(width)) << offset) as u64)
}

/// Read the window of `width` bits at `offset`.
pub fn get_bits32(reg: u32, offset: u32, width: u32) -> (r: u32)
    requires
        offset < 32,
    ensures
        r == window32(reg, offset, width),
{
    let mask: u32 = if width >= 32 {
        0xffff_ffffu32
    } else {
        proof {
            assert(width < 32 ==> (1u32 << width) >= 1) by (bit_vector);
        }
        (1u32 << width) - 1
    };
    (reg >> offset) & mask
}

/// Write `value` into the window of `width` bits at `offset`.
pub fn set_bits32(reg: u32, offset: u32, width: u32, value: u32) -> (r: u32)
    requires
        offset < 32,
    ensures
        r == with_window32(reg, offset, width, value),
{
    let mask: u32 = if width >= 32 {
        0xffff_ffffu32
    } else {
        proof {
            assert(width < 32 ==> (1u32 << width) >= 1) by (bit_vector);
        }
        (1u32 << width) - 1
    };
    (reg & !(mask << offset)) | ((value & mask) << offset)
}

/// Whether the single bit at `offset` is set.
pub open spec fn bit32(reg: u32, offset: u32) -> bool {
    window32(reg, offset, 1) == 1
}

/// Read the single bit at `offset`.
pub fn get_bit32(reg: u32, offset: u32) -> (r: bool)
    requires
        offset < 32,
    ensures
        r == bit32(reg, offset),
{
    get_bits32(reg, offset, 1) == 1
}

/// Write the single bit at `offset`.
pub fn set_bit32(reg: u32, offset: u32, value: bool) -> (r: u32)
    requires
        offset < 32,
    ensures
        r == with_window32(reg, offset, 1, if value { 1u32 } else { 0u32 }),
{
    set_bits32(reg, offset, 1, if value { 1 } else { 0 })
}

/// Read the window of `width` bits at `offset`.
pub fn get_bits64(reg: u64, offset: u64, width: u64) -> (r: u64)
    requires
        offset < 64,
    ensures
        r == window64(reg, offset, width),
{
    let mask: u64 = if width >= 64 {
        0xffff_ffff_ffff_ffffu64
    } else {
        proof {
            assert(width < 64 ==> (1u64 << width) >= 1) by (bit_vector);
        }
        (1u64 << width) - 1
    };
    (reg >> offset) & mask
}

/// Write `value` into the window of `width` bits at `offset`.
pub fn set_bits64(reg: u64, offset: u64, width: u64, value: u64) -> (r: u64)
    requires
        offset < 64,
    ensures
        r == with_window64(reg, offset, width, value),
{
    let mask: u64 = if width >= 64 {
        0xffff_ffff_ffff_ffffu64
    } else {
        proof {
            assert(width < 64 ==> (1u64 << width) >= 1) by (bit_vector);
        }
        (1u64 << width) - 1
    };
    (reg & !(mask << offset)) | ((value & mask) << offset)
}

/// Compute the mask with the low `width` bits set.
pub fn mask_bits64(width: u64) -> (r: u64)
    ensures
        r == mask64(width),
{
    if width >= 64 {
        0xffff_ffff_ffff_ffffu64
    } else {
        proof {
            assert(width < 64 ==> (1u64 << width) >= 1) by (bit_vector);
        }
        (1u64 << width) - 1
    }
}

/// Whether the single bit at `offset` is set.
pub open spec fn bit64(reg: u64, offset: u64) -> bool {
    window64(reg, offset, 1) == 1
}

/// Read the single bit at `offset`.
pub fn get_bit64(reg: u64, offset: u64) -> (r: bool)
    requires
        offset < 64,
    ensures
        r == bit64(reg, offset),
{
    get_bits64(reg, offset, 1) == 1
}

/// Write the single bit at `offset`.
pub fn set_bit64(reg: u64, offset: u64, value: bool) -> (r: u64)
    requires
        offset < 64,
    ensures
        r == with_window64(reg, offset, 1, if value { 1u64 } else { 0u64 }),
{
    set_bits64(reg, offset, 1, if value { 1 } else { 0 })
}

/// Reading a window just written returns the written value, truncated to
/// the window's width.
pub proof fn lemma_window_set_get32(reg: u32, offset: u32, width: u32, value: u32)
    by (bit_vector)
    requires
        offset < 32,
        offset + width <= 32,
    ensures
        window32(with_window32(reg, offset, width, value), offset, width) == value & mask32(width),
{
}

/// Writing one window leaves every disjoint window unchanged.
pub proof fn lemma_window_set_other32(
    reg: u32,
    offset: u32,
    width: u32,
    value: u32,
    offset2: u32,
    width2: u32,
)
    by (bit_vector)
    requires
        offset < 32,
        offset2 < 32,
        offset + width <= 32,
        offset2 + width2 <= 32,
        offset + width <= offset2 || offset2 + width2 <= offset,
    ensures
        window32(with_window32(reg, offset, width, value), offset2, width2) == window32(
            reg,
            offset2,
            width2,
        ),
{
}

/// A window's value never exceeds the window's mask.
pub proof fn lemma_window_bound32(reg: u32, offset: u32, width: u32)
    by (bit_vector)
    ensures
        window32(reg, offset, width) & mask32(width) == window32(reg, offset, width),
        window32(reg, offset, width) <= mask32(width),
{
}

/// Concrete mask sizes, for fitting window values into narrow result types.
pub proof fn lemma_mask32_values()
    by (bit_vector)
    ensures
        mask32(1) == 0x1,
        mask32(2) == 0x3,
        mask32(3) == 0x7,
        mask32(4) == 0xf,
        mask32(5) == 0x1f,
        mask32(6) == 0x3f,
        mask32(7) == 0x7f,
        mask32(8) == 0xff,
        mask32(14) == 0x3fff,
        mask32(16) == 0xffff,
{
}

/// Every window of the zero word is zero.
pub proof fn lemma_window_zero32(offset: u32, width: u32)
    by (bit_vector)
    ensures
        window32(0u32, offset, width) == 0,
{
}

/// Masking a value already within the mask changes nothing.
pub proof fn lemma_mask_noop32(x: u32, width: u32)
    by (bit_vector)
    requires
        x <= mask32(width),
    ensures
        x & mask32(width) == x,
{
}

/// Reading a window just written returns the written value, truncated to
/// the window's width.
pub proof fn lemma_window_set_get64(reg: u64, offset: u64, width: u64, value: u64)
    by (bit_vector)
    requires
        offset < 64,
        offset + width <= 64,
    ensures
        window64(with_window64(reg, offset, width, value), offset, width) == value & mask64(width),
{
}

/// Writing one window leaves every disjoint window unchanged.
pub proof fn lemma_window_set_other64(
    reg: u64,
    offset: u64,
    width: u64,
    value: u64,
    offset2: u64,
    width2: u64,
)
    by (bit_vector)
    requires
        offset < 64,
        offset2 < 64,
        offset + width <= 64,
        offset2 + width2 <= 64,
        offset + width <= offset2 || offset2 + width2 <= offset,
    ensures
        window64(with_window64(reg, offset, width, value), offset2, width2) == window64(
            reg,
            offset2,
            width2,
        ),
{
}

/// Every window of the zero word is zero.
pub proof fn lemma_window_zero64(offset: u64, width: u64)
    by (bit_vector)
    ensures
        window64(0u64, offset, width) == 0,
{
}

/// A zero-width window holds nothing, and nothing fits in it.
pub proof fn lemma_window_zero_width64(reg: u64, offset: u64, value: u64)
    by (bit_vector)
    ensures
        window64(reg, offset, 0) == 0,
        value & mask64(0) == 0,
{
}

/// A one-bit window holds 1 exactly when its bit is set.
pub proof fn lemma_bit_window64(reg: u64, offset: u64)
    by (bit_vector)
    requires
        offset < 64,
    ensures
        bit64(reg, offset) <==> window64(reg, offset, 1) == 1,
        window64(reg, offset, 1) == 0 || window64(reg, offset, 1) == 1,
        1u64 & mask64(1) == 1,
        0u64 & mask64(1) == 0,
{
}

/// Flipping any single bit inside a window changes the window's value, and
/// flipping a bit outside it does not.
pub proof fn lemma_window_flip32(reg: u32, offset: u32, width: u32, k: u32)
    by (bit_vector)
    requires
        offset < 32,
        offset + width <= 32,
        k < 32,
    ensures
        offset <= k < offset + width ==> window32((reg ^ ((1u32 << k) as u32)), offset, width)
            != window32(reg, offset, width),
        !(offset <= k < offset + width) ==> window32((reg ^ ((1u32 << k) as u32)), offset, width)
            == window32(reg, offset, width),
{
}

} // verus!
