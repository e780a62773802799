//! Windowed bit extraction, arithmetic sign-extension from an arbitrary
//! width, and truncation with an overflow check.
//!
//! Machine words are 16-bit unsigned integers; signed interpretations use
//! two's complement.  All three utilities are specified against the
//! mathematical reading of a word: `bit_range` is a quotient-remainder
//! window, `sext_val` the two's-complement value of a low bit field.

use vstd::prelude::*;
use vstd::arithmetic::power2::{
    pow2, lemma2_to64, lemma_pow2_pos, lemma_pow2_unfold, lemma_pow2_strictly_increases,
};
use vstd::arithmetic::div_mod::lemma_small_mod;

use crate::errors::AsmError;

verus! {

/// The value of the 16-bit word `n` read as a two's-complement integer.
pub open spec fn as_signed(n: u16) -> int {
    if n >= 0x8000 {
        n - 0x10000
    } else {
        n as int
    }
}

/// The bits of `n` from position `start` through `end` inclusive,
/// shifted down to the low end of the word.
pub open spec fn bit_range(n: u16, start: nat, end: nat) -> nat
    recommends
        start <= end <= 15,
{
    ((n as nat) / pow2(start)) % pow2((end - start + 1) as nat)
}

/// The low `w` bits of `v`, read as a `w`-bit two's-complement integer.
pub open spec fn sext_val(v: u16, w: nat) -> int
    recommends
        1 <= w <= 16,
{
    let m = (v as nat) % pow2(w);
    if m >= pow2((w - 1) as nat) {
        m - pow2(w)
    } else {
        m as int
    }
}

/// The 16-bit word that represents `sext_val(v, w)` in two's complement:
/// the low `w` bits of `v` with the sign bit of the field replicated
/// upward.
pub open spec fn sext_word(v: u16, w: nat) -> u16
    recommends
        1 <= w <= 16,
{
    let m = (v as nat) % pow2(w);
    if m >= pow2((w - 1) as nat) {
        (m + 0x10000 - pow2(w)) as u16
    } else {
        m as u16
    }
}

/// The whole word `v` denotes the same integer as its low `w` bits do:
/// sign-extending the `w`-bit field reproduces `v`.  This is the condition
/// under which `v` may be stored in a `w`-bit instruction field.
pub open spec fn fits_signed(v: u16, w: nat) -> bool
    recommends
        1 <= w <= 16,
{
    sext_val(v, w) == as_signed(v)
}

/// Casting a 16-bit word to a signed 16-bit integer reads it in two's
/// complement.
pub proof fn lemma_cast_u16_i16(n: u16)
    ensures
        (n as i16) as int == as_signed(n),
{
    assert(n >= 0x8000 ==> ((n as i16) as i32) == (n as i32) - 0x10000) by (bit_vector);
    assert(n < 0x8000 ==> ((n as i16) as i32) == (n as i32)) by (bit_vector);
}

/// Casting a signed 16-bit integer to a word takes its value modulo 2^16.
pub proof fn lemma_cast_i16_u16(x: i16)
    ensures
        x < 0 ==> (x as u16) as int == x + 0x10000,
        x >= 0 ==> (x as u16) as int == x as int,
        as_signed(x as u16) == x as int,
{
    assert(x < 0 ==> ((x as u16) as i32) == (x as i32) + 0x10000) by (bit_vector);
    assert(x >= 0 ==> ((x as u16) as i32) == (x as i32)) by (bit_vector);
}

/// What [`truncate`] returns: the low `w` bits of `v`, or the error
/// recording that `v` does not denote a `w`-bit two's-complement value.
pub open spec fn trunc_spec(v: u16, w: nat) -> Result<u16, AsmError>
    recommends
        1 <= w <= 16,
{
    if fits_signed(v, w) {
        Ok((((v as nat) % pow2(w)) as u16))
    } else {
        Err(AsmError::DoesNotFit { value: v, width: w as u16 })
    }
}

/// Facts about `pow2` at the word widths used throughout: positivity,
/// the doubling step, and the bounds that place a `w`-bit field inside a
/// 16-bit word.
pub proof fn lemma_pow2_word(w: nat)
    requires
        1 <= w <= 16,
    ensures
        pow2(w) == 2 * pow2((w - 1) as nat),
        1 <= pow2((w - 1) as nat),
        pow2((w - 1) as nat) <= 0x8000,
        2 <= pow2(w),
        pow2(w) <= 0x10000,
{
    lemma_pow2_unfold(w);
    lemma_pow2_pos((w - 1) as nat);
    lemma2_to64();
    if w < 16 {
        lemma_pow2_strictly_increases(w, 16);
    }
    if w - 1 < 15 {
        lemma_pow2_strictly_increases((w - 1) as nat, 15);
    }
}

/// The sign-extended word represents the sign-extended value.
pub proof fn lemma_sext_word_val(v: u16, w: nat)
    requires
        1 <= w <= 16,
    ensures
        as_signed(sext_word(v, w)) == sext_val(v, w),
        sext_val(v, w) < pow2((w - 1) as nat),
        -(pow2((w - 1) as nat) as int) <= sext_val(v, w),
{
    lemma_pow2_word(w);
    lemma_pow2_pos(w);
    lemma2_to64();
}

/// A word is exactly reproduced by sign-extending its low `w` bits if
/// and only if it fits the `w`-bit field.
pub proof fn lemma_sext_fits(v: u16, w: nat)
    requires
        1 <= w <= 16,
    ensures
        fits_signed(v, w) <==> sext_word(v, w) == v,
{
    lemma_sext_word_val(v, w);
}

/// Sign extension reads only the low `w` bits: words with equal low bits
/// sign-extend alike.
pub proof fn lemma_sext_low_bits(a: u16, b: u16, w: nat)
    requires
        1 <= w <= 16,
        (a as nat) % pow2(w) == (b as nat) % pow2(w),
    ensures
        sext_word(a, w) == sext_word(b, w),
{
}

/// 2 to the power `e`, as a 16-bit word, for exponents 0 through 15.
pub fn pow2_u16(e: u16) -> (r: u16)
    requires
        e <= 15,
    ensures
        r as nat == pow2(e as nat),
        1 <= r,
{
    proof {
        lemma2_to64();
    }
    match e {
        0 => 1,
        1 => 2,
        2 => 4,
        3 => 8,
        4 => 16,
        5 => 32,
        6 => 64,
        7 => 128,
        8 => 256,
        9 => 512,
        10 => 1024,
        11 => 2048,
        12 => 4096,
        13 => 8192,
        14 => 16384,
        _ => 32768,
    }
}

/// Returns the bits of `n` from position `START` through `END` inclusive,
/// shifted down to bit 0.
pub fn get_bits<const START: usize, const END: usize>(n: u16) -> (r: u16)
    requires
        START <= END,
        END <= 15,
    ensures
        r as nat == bit_range(n, START as nat, END as nat),
{
    let width: u16 = (END - START + 1) as u16;
    let p: u16 = pow2_u16(START as u16);
    let shifted: u16 = n / p;
    proof {
        lemma2_to64();
    }
    if width == 16 {
        proof {
            assert(START == 0 && END == 15);
            lemma_small_mod(shifted as nat, pow2(16));
            assert(shifted as nat == bit_range(n, START as nat, END as nat));
        }
        shifted
    } else {
        let q: u16 = pow2_u16(width);
        proof {
            assert(((shifted % q) as nat) == bit_range(n, START as nat, END as nat));
        }
        shifted % q
    }
}

/// Replicates bit `w - 1` of `v` upward through bit 15, so that the whole
/// word reads, in two's complement, as the value of the low `w` bits.
pub fn sign_extend_word(v: u16, w: u16) -> (r: u16)
    requires
        1 <= w <= 16,
    ensures
        r == sext_word(v, w as nat),
{
    proof {
        lemma_pow2_word(w as nat);
        lemma2_to64();
    }
    if w == 16 {
        proof {
            lemma_small_mod(v as nat, pow2(16));
            assert(v == sext_word(v, 16));
        }
        v
    } else {
        let pw: u16 = pow2_u16(w);
        let m: u16 = v % pw;
        let half: u16 = pow2_u16(w - 1);
        if m >= half {
            let r: u16 = m + (0xFFFF - pw + 1);
            proof {
                assert(r == sext_word(v, w as nat));
            }
            r
        } else {
            proof {
                assert(m == sext_word(v, w as nat));
            }
            m
        }
    }
}

/// Treats the low `NUM_BITS` bits of `n` as a two's-complement value and
/// returns that value.
pub fn sign_extend<const NUM_BITS: usize>(n: i16) -> (r: i16)
    requires
        1 <= NUM_BITS,
        NUM_BITS <= 16,
    ensures
        r as int == sext_val(n as u16, NUM_BITS as nat),
{
    let v: u16 = n as u16;
    let rw: u16 = sign_extend_word(v, NUM_BITS as u16);
    proof {
        lemma_cast_i16_u16(n);
        lemma_cast_u16_i16(rw);
        lemma_sext_word_val(v, NUM_BITS as nat);
    }
    rw as i16
}

/// Returns `n` with only its low `BIT_WIDTH` bits preserved, or an error
/// if `n` does not denote a `BIT_WIDTH`-bit two's-complement value.  This
/// is how the assembler rejects overlarge immediates and offsets.
pub fn truncate<const BIT_WIDTH: usize>(n: u16) -> (r: Result<u16, AsmError>)
    requires
        1 <= BIT_WIDTH,
        BIT_WIDTH <= 16,
    ensures
        r == trunc_spec(n, BIT_WIDTH as nat),
        r is Ok <==> fits_signed(n, BIT_WIDTH as nat),
        r is Ok ==> r->Ok_0 as nat == (n as nat) % pow2(BIT_WIDTH as nat),
        r is Err ==> r->Err_0 == (AsmError::DoesNotFit { value: n, width: BIT_WIDTH as u16 }),
{
    let w: u16 = BIT_WIDTH as u16;
    let extended: u16 = sign_extend_word(n, w);
    proof {
        lemma_pow2_word(BIT_WIDTH as nat);
        lemma_sext_word_val(n, BIT_WIDTH as nat);
        lemma2_to64();
    }
    if extended != n {
        proof {
            assert(!fits_signed(n, BIT_WIDTH as nat));
        }
        Err(AsmError::DoesNotFit { value: n, width: w })
    } else {
        proof {
            assert(fits_signed(n, BIT_WIDTH as nat));
        }
        if w == 16 {
            proof {
                assert((n as nat) % pow2(16) == n as nat);
            }
            Ok(n)
        } else {
            Ok(n % pow2_u16(w))
        }
    }
}

} // verus!
