//! Bit fields inside 32-bit and 16-bit hardware words.
use vstd::prelude::*;

verus! {

/// The mask of the `len` low bits of a 32-bit word.
pub open spec fn mask32(len: u32) -> u32 {
    if len >= 32 { 0xffff_ffffu32 } else { ((1u32 << len) - 1u32) as u32 }
}

/// The field of `len` bits that starts at bit `start` of `w`.
pub open spec fn bits32(w: u32, start: u32, len: u32) -> u32 {
    (w >> start) & mask32(len)
}

/// `w` with its field of `len` bits at `start` replaced by `v`.
pub open spec fn with_bits32(w: u32, start: u32, len: u32, v: u32) -> u32 {
    (w & !(mask32(len) << start)) | ((v & mask32(len)) << start)
}

/// Bit `i` of `w`.
pub open spec fn bit32(w: u32, i: u32) -> bool {
    bits32(w, i, 1) == 1
}

pub open spec fn with_bit32(w: u32, i: u32, b: bool) -> u32 {
    with_bits32(w, i, 1, if b { 1u32 } else { 0u32 })
}

/// The masks of the field widths that hardware words here use.
pub proof fn lemma_mask32_values()
    ensures
        mask32(1) == 1,
        mask32(2) == 3,
        mask32(4) == 0xf,
        mask32(7) == 0x7f,
        mask32(8) == 0xff,
        mask32(11) == 0x7ff,
        mask32(28) == 0x0fff_ffff,
{
    assert(mask32(1) == 1 && mask32(2) == 3 && mask32(4) == 0xf && mask32(7) == 0x7f && mask32(8)
        == 0xff && mask32(11) == 0x7ff && mask32(28) == 0x0fff_ffff) by (bit_vector);
}

/// A field reads back what was written into it, when it fits.
pub proof fn lemma_bits32_same(w: u32, start: u32, len: u32, v: u32)
    requires
        1 <= len,
        start + len <= 32,
        v <= mask32(len),
    ensures
        bits32(with_bits32(w, start, len, v), start, len) == v,
{
    assert(bits32(with_bits32(w, start, len, v), start, len) == v) by (bit_vector)
        requires
            1 <= len,
            start + len <= 32,
            v <= mask32(len),
    ;
}

/// Writing one field leaves a field that does not overlap it unchanged.
pub proof fn lemma_bits32_other(w: u32, start: u32, len: u32, v: u32, s2: u32, l2: u32)
    requires
        1 <= len,
        start + len <= 32,
        1 <= l2,
        s2 + l2 <= 32,
        s2 + l2 <= start || start + len <= s2,
    ensures
        bits32(with_bits32(w, start, len, v), s2, l2) == bits32(w, s2, l2),
{
    assert(bits32(with_bits32(w, start, len, v), s2, l2) == bits32(w, s2, l2)) by (bit_vector)
        requires
            1 <= len,
            start + len <= 32,
            1 <= l2,
            s2 + l2 <= 32,
            s2 + l2 <= start || start + len <= s2,
    ;
}

/// Every field of a zero word is zero.
pub proof fn lemma_bits32_zero(start: u32, len: u32)
    ensures
        bits32(0, start, len) == 0,
{
    assert(bits32(0, start, len) == 0) by (bit_vector);
}

/// A field is never wider than its mask.
pub proof fn lemma_bits32_bound(w: u32, start: u32, len: u32)
    requires
        1 <= len,
        start + len <= 32,
    ensures
        bits32(w, start, len) <= mask32(len),
{
    assert(bits32(w, start, len) <= mask32(len)) by (bit_vector)
        requires
            1 <= len,
            start + len <= 32,
    ;
}

proof fn lemma_shl_one32(len: u32)
    requires
        len <= 31,
    ensures
        (1u32 << len) >= 1,
        mask32(len) == ((1u32 << len) - 1u32) as u32,
{
    assert((1u32 << len) >= 1) by (bit_vector)
        requires
            len <= 31,
    ;
}

pub fn get_bits32(w: u32, start: u32, len: u32) -> (r: u32)
    requires
        1 <= len <= 31,
        start + len <= 32,
    ensures
        r == bits32(w, start, len),
        r <= mask32(len),
{
    proof {
        lemma_bits32_bound(w, start, len);
        lemma_shl_one32(len);
    }
    (w >> start) & ((1u32 << len) - 1)
}

pub fn set_bits32(w: u32, start: u32, len: u32, v: u32) -> (r: u32)
    requires
        1 <= len <= 31,
        start + len <= 32,
    ensures
        r == with_bits32(w, start, len, v),
{
    proof {
        lemma_shl_one32(len);
    }
    let m: u32 = (1u32 << len) - 1;
    (w & !(m << start)) | ((v & m) << start)
}

/// The mask of the `len` low bits of a 16-bit word.
pub open spec fn mask16(len: u16) -> u16 {
    if len >= 16 { 0xffffu16 } else { ((1u16 << len) - 1u16) as u16 }
}

/// The field of `len` bits that starts at bit `start` of `w`.
pub open spec fn bits16(w: u16, start: u16, len: u16) -> u16 {
    (w >> start) & mask16(len)
}

/// `w` with its field of `len` bits at `start` replaced by `v`.
pub open spec fn with_bits16(w: u16, start: u16, len: u16, v: u16) -> u16 {
    (w & !(mask16(len) << start)) | ((v & mask16(len)) << start)
}

/// Bit `i` of `w`.
pub open spec fn bit16(w: u16, i: u16) -> bool {
    bits16(w, i, 1) == 1
}

pub open spec fn with_bit16(w: u16, i: u16, b: bool) -> u16 {
    with_bits16(w, i, 1, if b { 1u16 } else { 0u16 })
}

pub proof fn lemma_mask16_values()
    ensures
        mask16(1) == 1,
        mask16(2) == 3,
{
    assert(mask16(1) == 1 && mask16(2) == 3) by (bit_vector);
}

/// A field reads back what was written into it, when it fits.
pub proof fn lemma_bits16_same(w: u16, start: u16, len: u16, v: u16)
    requires
        1 <= len,
        start + len <= 16,
        v <= mask16(len),
    ensures
        bits16(with_bits16(w, start, len, v), start, len) == v,
{
    assert(bits16(with_bits16(w, start, len, v), start, len) == v) by (bit_vector)
        requires
            1 <= len,
            start + len <= 16,
            v <= mask16(len),
    ;
}

/// A field is never wider than its mask.
pub proof fn lemma_bits16_bound(w: u16, start: u16, len: u16)
    requires
        1 <= len,
        start + len <= 16,
    ensures
        bits16(w, start, len) <= mask16(len),
{
    assert(bits16(w, start, len) <= mask16(len)) by (bit_vector)
        requires
            1 <= len,
            start + len <= 16,
    ;
}

proof fn lemma_shl_one16(len: u16)
    requires
        len <= 15,
    ensures
        (1u16 << len) >= 1,
        mask16(len) == ((1u16 << len) - 1u16) as u16,
{
    assert((1u16 << len) >= 1) by (bit_vector)
        requires
            len <= 15,
    ;
}

pub fn get_bits16(w: u16, start: u16, len: u16) -> (r: u16)
    requires
        1 <= len <= 15,
        start + len <= 16,
    ensures
        r == bits16(w, start, len),
        r <= mask16(len),
{
    proof {
        lemma_bits16_bound(w, start, len);
        lemma_shl_one16(len);
    }
    (w >> start) & ((1u16 << len) - 1)
}

pub fn set_bits16(w: u16, start: u16, len: u16, v: u16) -> (r: u16)
    requires
        1 <= len <= 15,
        start + len <= 16,
    ensures
        r == with_bits16(w, start, len, v),
{
    proof {
        lemma_shl_one16(len);
    }
    let m: u16 = (1u16 << len) - 1;
    (w & !(m << start)) | ((v & m) << start)
}

} // verus!
