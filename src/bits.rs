//! Big-endian integer reads and bitfield extraction.
use vstd::arithmetic::div_mod::{
    lemma_breakdown, lemma_div_denominator, lemma_fundamental_div_mod_converse, lemma_mod_mod,
    lemma_mod_pos_bound,
};
use vstd::arithmetic::mul::lemma_mul_is_commutative;
use vstd::arithmetic::power2::{
    lemma2_to64, lemma_pow2_adds, lemma_pow2_pos, lemma_pow2_strictly_increases, lemma_pow2_unfold,
    pow2,
};
use vstd::bits::{lemma_u32_low_bits_mask_is_mod, lemma_u32_pow2_no_overflow, lemma_u32_shl_is_mul, lemma_u32_shr_is_div,
    low_bits_mask};
use vstd::prelude::*;
use vstd::slice::slice_subrange;

verus! {

/// The big-endian 16-bit value of the two bytes of `b` starting at `pos`.
pub open spec fn be16(b: Seq<u8>, pos: int) -> nat {
    (b[pos] as nat) * 0x100 + (b[pos + 1] as nat)
}

/// The big-endian 32-bit value of the four bytes of `b` starting at `pos`.
pub open spec fn be32(b: Seq<u8>, pos: int) -> nat {
    (b[pos] as nat) * 0x1000000 + (b[pos + 1] as nat) * 0x10000 + (b[pos + 2] as nat) * 0x100
        + (b[pos + 3] as nat)
}

/// Bits `start ..= end` of `value` (bit 0 is the least significant), moved
/// down to bit 0.
pub open spec fn field(value: u32, start: nat, end: nat) -> nat {
    (value as nat / pow2(start)) % pow2((end - start + 1) as nat)
}

/// Reads the big-endian `u16` at `pos`.
pub fn read_u16(buffer: &[u8], pos: usize) -> (r: u16)
    requires
        pos + 2 <= buffer@.len(),
    ensures
        r as nat == be16(buffer@, pos as int),
{
    let hi = buffer[pos];
    let lo = buffer[pos + 1];
    let r: u16 = ((hi as u16) << 8u16) | (lo as u16);
    assert(((hi as u16) << 8u16) | (lo as u16) == (hi as u16) * 0x100u16 + (lo as u16))
        by (bit_vector);
    r
}

/// Reads the big-endian `u32` at `pos`.
pub fn read_u32(buffer: &[u8], pos: usize) -> (r: u32)
    requires
        pos + 4 <= buffer@.len(),
    ensures
        r as nat == be32(buffer@, pos as int),
{
    let b0 = buffer[pos] as u32;
    let b1 = buffer[pos + 1] as u32;
    let b2 = buffer[pos + 2] as u32;
    let b3 = buffer[pos + 3] as u32;
    let r: u32 = (b0 << 24u32) | (b1 << 16u32) | (b2 << 8u32) | b3;
    assert((b0 << 24u32) | (b1 << 16u32) | (b2 << 8u32) | b3 == b0 * 0x1000000u32 + b1
        * 0x10000u32 + b2 * 0x100u32 + b3) by (bit_vector)
        requires
            b0 < 0x100u32,
            b1 < 0x100u32,
            b2 < 0x100u32,
            b3 < 0x100u32,
    ;
    r
}

/// Splits `buffer` into its first `n` bytes and the rest.
pub fn read_n_byte(buffer: &[u8], n: usize) -> (r: (&[u8], &[u8]))
    requires
        n <= buffer@.len(),
    ensures
        r.0@ == buffer@.subrange(0, n as int),
        r.1@ == buffer@.subrange(n as int, buffer@.len() as int),
{
    (slice_subrange(buffer, 0, n), slice_subrange(buffer, n, buffer.len()))
}

/// Extracts bits `start_bit ..= end_bit` of `value`, right-justified, with no
/// sign extension.
pub fn bitfield(value: u32, start_bit: u32, end_bit: u32) -> (r: u32)
    requires
        start_bit <= end_bit < 32,
    ensures
        r as nat == field(value, start_bit as nat, end_bit as nat),
{
    let shifted = value >> start_bit;
    let width = end_bit - start_bit + 1;
    proof {
        lemma_u32_shr_is_div(value, start_bit);
    }
    if width == 32 {
        proof {
            lemma2_to64();
            assert(value as nat / 1 == value as nat);
            assert(value as nat % 0x1_0000_0000 == value as nat);
        }
        shifted
    } else {
        proof {
            lemma_u32_pow2_no_overflow(width as nat);
            lemma_pow2_pos(width as nat);
            lemma_u32_shl_is_mul(1u32, width);
            lemma_u32_low_bits_mask_is_mod(shifted, width as nat);
        }
        let mask: u32 = (1u32 << width) - 1;
        assert(mask == low_bits_mask(width as nat) as u32);
        shifted & mask
    }
}

/// Bit `i` of `x`.
pub open spec fn bit_of(x: nat, i: nat) -> nat {
    (x / pow2(i)) % 2
}

/// A bitfield of `start ..= end` has exactly `end - start + 1` bits: it is
/// below `2^(end - start + 1)`, bit `i` of it is bit `start + i` of the
/// value for each `i` up to `end - start`, and every bit above is zero, so no
/// sign is extended.
pub proof fn lemma_field_exact_width(value: u32, start: nat, end: nat)
    requires
        start <= end < 32,
    ensures
        field(value, start, end) < pow2((end - start + 1) as nat),
        forall|i: nat|
            i <= end - start ==> #[trigger] bit_of(field(value, start, end), i) == bit_of(
                value as nat,
                start + i,
            ),
        forall|i: nat| i > end - start ==> #[trigger] bit_of(field(value, start, end), i) == 0,
{
    let w = (end - start + 1) as nat;
    let a = value as nat / pow2(start);
    let f = field(value, start, end);
    lemma_pow2_pos(start);
    lemma_pow2_pos(w);
    lemma_mod_pos_bound(a as int, pow2(w) as int);
    assert forall|i: nat| i <= end - start implies #[trigger] bit_of(f, i) == bit_of(
        value as nat,
        start + i,
    ) by {
        let k = (w - i) as nat;
        lemma_pow2_pos(i);
        lemma_pow2_pos(k);
        lemma_pow2_adds(i, k);
        assert(i + k == w);
        let q = (a / pow2(i)) % pow2(k);
        let r = a % pow2(i);
        lemma_breakdown(a as int, pow2(i) as int, pow2(k) as int);
        lemma_mod_pos_bound(a as int, pow2(i) as int);
        lemma_mul_is_commutative(pow2(i) as int, q as int);
        lemma_fundamental_div_mod_converse(f as int, pow2(i) as int, q as int, r as int);
        assert(f / pow2(i) == q);
        lemma_pow2_unfold(k);
        let h = pow2((k - 1) as nat);
        lemma_pow2_pos((k - 1) as nat);
        lemma_mod_mod((a / pow2(i)) as int, 2, h as int);
        lemma_div_denominator(value as int, pow2(start) as int, pow2(i) as int);
        lemma_pow2_adds(start, i);
    }
    assert forall|i: nat| i > end - start implies #[trigger] bit_of(f, i) == 0 by {
        if i > w {
            lemma_pow2_strictly_increases(w, i);
        }
        lemma_fundamental_div_mod_converse(f as int, pow2(i) as int, 0, f as int);
    }
}

} // verus!
