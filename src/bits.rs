//! Bit utilities: field extraction, immediate extension and byte packing.

use vstd::arithmetic::div_mod::lemma_small_mod;
use vstd::arithmetic::power2::{lemma2_to64, lemma_pow2_unfold, pow2};
use vstd::bits::{lemma_u16_pow2_no_overflow, lemma_u16_low_bits_mask_is_mod, lemma_u16_shl_is_mul, lemma_u16_shr_is_div, low_bits_mask};
use vstd::prelude::*;

verus! {

/// Whether a data-memory address may hold a word (it is even).
pub fn is_word_aligned(addr: u16) -> (r: bool)
    ensures
        r == (addr % 2 == 0),
{
    addr % 2 == 0
}

/// The low byte of a word.
pub fn get_lsb(data: u16) -> (r: u8)
    ensures
        r == data % 256,
{
    (data % 256) as u8
}

/// The high byte of a word.
pub fn get_msb(data: u16) -> (r: u8)
    ensures
        r == data / 256,
{
    (data / 256) as u8
}

/// Packs a high and a low byte into a word.
pub fn into_word(msb: u8, lsb: u8) -> (r: u16)
    ensures
        r == msb * 256 + lsb,
{
    (msb as u16) * 256 + (lsb as u16)
}

/// Extends a `len`-bit value to 16 bits: unchanged when `ext_value` is 0,
/// with every bit above the low `len` set when it is 1.
pub fn imm_extend(data: u16, len: u16, ext_value: u16) -> (r: u16)
    requires
        ext_value <= 1,
        ext_value == 1 ==> len < 16,
    ensures
        ext_value == 0 ==> r == data,
        ext_value == 1 ==> r == 0x10000 - pow2(len as nat) + (data as int) % (pow2(len as nat) as int),
{
    if ext_value == 0 {
        data
    } else {
        proof {
            lemma_u16_pow2_no_overflow(len as nat);
            lemma_u16_shl_is_mul(1, len);
        }
        let low: u16 = (1u16 << len) - 1;
        let bitmask: u16 = low ^ u16::MAX;
        proof {
            lemma_or_high_mask(data, len);
            lemma_u16_low_bits_mask_is_mod(data, len as nat);
            assert(low_bits_mask(len as nat) == low);
        }
        data | bitmask
    }
}

/// Sign-extends a `len`-bit two's-complement value to 16 bits.
pub fn sign_extend(data: u16, len: u16) -> (r: u16)
    requires
        1 <= len < 16,
        data < pow2(len as nat),
    ensures
        r == (if data < pow2((len - 1) as nat) {
            data as int
        } else {
            data + 0x10000 - pow2(len as nat)
        }),
{
    proof {
        lemma_u16_shr_is_div(data, (len - 1) as u16);
        lemma_pow2_unfold(len as nat);
    }
    let sign = data >> (len - 1);
    assert(sign <= 1) by (nonlinear_arith)
        requires
            sign == data as nat / pow2((len - 1) as nat),
            data < pow2(len as nat),
            pow2(len as nat) == 2 * pow2((len - 1) as nat),
            pow2((len - 1) as nat) > 0,
    ;
    proof {
        if sign == 1 {
            assert(data >= pow2((len - 1) as nat)) by (nonlinear_arith)
                requires
                    sign == data as nat / pow2((len - 1) as nat),
                    sign == 1,
                    pow2((len - 1) as nat) > 0,
            ;
            lemma_small_mod(data as nat, pow2(len as nat));
        } else {
            assert(data < pow2((len - 1) as nat)) by (nonlinear_arith)
                requires
                    sign == data as nat / pow2((len - 1) as nat),
                    sign == 0,
                    pow2((len - 1) as nat) > 0,
            ;
        }
    }
    imm_extend(data, len, sign)
}

/// Bit `pos` of a word.
pub fn get_bit(data: u16, pos: u16) -> (r: u16)
    requires
        pos < 16,
    ensures
        r == (data as nat / pow2(pos as nat)) % 2,
{
    proof {
        lemma_u16_shr_is_div(data, pos);
        lemma_u16_low_bits_mask_is_mod(data >> pos, 1);
        lemma2_to64();
    }
    (data >> pos) & 1
}

/// Bits `end` down to `start` of a word, as an unsigned number.
pub fn get_bits(data: u16, end: u16, start: u16) -> (r: u16)
    requires
        start <= end < 16,
        end - start < 15,
    ensures
        r == (data as nat / pow2(start as nat)) % pow2((end - start + 1) as nat),
{
    let width: u16 = end - start + 1;
    proof {
        lemma_u16_shr_is_div(data, start);
        lemma_u16_pow2_no_overflow(width as nat);
        lemma_u16_shl_is_mul(1, width);
    }
    let shifted_data: u16 = data >> start;
    let bitmask: u16 = (1u16 << width) - 1;
    proof {
        lemma_u16_low_bits_mask_is_mod(shifted_data, width as nat);
        assert(low_bits_mask(width as nat) == bitmask);
    }
    shifted_data & bitmask
}

proof fn lemma_or_high_mask(data: u16, len: u16)
    by (bit_vector)
    requires
        len < 16,
    ensures
        (data | (((1u16 << len) - 1u16) as u16 ^ 0xffffu16)) as u32 == 0x10000u32 - ((1u16 << len) as u32)
            + ((data & (((1u16 << len) - 1u16) as u16)) as u32),
{
}

} // verus!
