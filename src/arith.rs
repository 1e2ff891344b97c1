//! The arithmetic, comparison and bitwise semantics of the machine's
//! opcodes, as functions from words to words.

use crate::word::{
    bit_of, byte_from_low, checked_div, checked_rem, is_neg, lemma_pow2_256, lemma_pow2_word,
    lemma_modulus_facts, lemma_word_bounded, lt, mul_mod, negate, not, sar_val, sdiv_val, shl_small, shl_val, shr_small,
    shr_val, sign_extend_val, signed, smod_val, word_modulus, wrapping_add, wrapping_sub, Word,
};
use vstd::arithmetic::div_mod::{lemma_fundamental_div_mod, lemma_small_mod};
use vstd::arithmetic::power2::pow2;
use vstd::prelude::*;

verus! {

/// The value that BYTE yields: byte `i` counted from the most significant end.
pub open spec fn byte_val(i: nat, x: nat) -> nat {
    if i < 32 {
        (x / pow2(8 * (31 - i) as nat)) % 256
    } else {
        0
    }
}

/// DIV and MOD yield zero for a zero divisor.
pub open spec fn div_val(a: nat, b: nat) -> nat {
    if b == 0 { 0 } else { a / b }
}

pub open spec fn mod_val(a: nat, b: nat) -> nat {
    if b == 0 { 0 } else { a % b }
}

/// ADDMOD: the wrapped sum reduced modulo `n`; zero for a zero modulus.
pub open spec fn addmod_val(a: nat, b: nat, n: nat) -> nat {
    if n == 0 { 0 } else { ((a + b) % word_modulus()) % n }
}

/// MULMOD: the exact product reduced modulo `n`; zero for a zero modulus.
pub open spec fn mulmod_val(a: nat, b: nat, n: nat) -> nat {
    if n == 0 { 0 } else { (a * b) % n }
}

proof fn lemma_not_val(a: Word, r: Word)
    requires
        forall|i: int| 0 <= i < 4 ==> #[trigger] r.limbs[i] == !a.limbs[i],
    ensures
        r.val() == word_modulus() - 1 - a.val(),
{
    let (a0, a1, a2, a3) = (a.limbs[0], a.limbs[1], a.limbs[2], a.limbs[3]);
    assert(r.limbs[0] == !a0 && r.limbs[1] == !a1 && r.limbs[2] == !a2 && r.limbs[3] == !a3);
    assert(!a0 == 0xffff_ffff_ffff_ffffu64 - a0) by (bit_vector);
    assert(!a1 == 0xffff_ffff_ffff_ffffu64 - a1) by (bit_vector);
    assert(!a2 == 0xffff_ffff_ffff_ffffu64 - a2) by (bit_vector);
    assert(!a3 == 0xffff_ffff_ffff_ffffu64 - a3) by (bit_vector);
}

/// Whether a word is negative in two's complement, that is, whether bit 255 is set.
pub fn is_negative(x: Word) -> (r: bool)
    ensures
        r == is_neg(x.val()),
{
    let r = bit_of(x, 255);
    proof {
        lemma_pow2_256();
        lemma_modulus_facts();
        lemma_word_bounded(x);
        let v = x.val() as int;
        let p = pow2(255) as int;
        lemma_fundamental_div_mod(v, p);
        let q = v / p;
        assert(0 <= q < 2 && (q == 1 <==> v >= p)) by (nonlinear_arith)
            requires v == p * q + v % p, 0 <= v % p < p, 0 <= v < 2 * p;
        assert(q % 2 == q);
    }
    r
}

/// Two's complement negation: bitwise NOT, then add one. Zero maps to all
/// ones rather than to zero, which SAR relies on to round a negative value
/// that shifts to nothing to -1.
pub fn convert_twos_compliment(x: Word) -> (r: Word)
    ensures
        r.val() == negate(x.val()),
{
    let n = not(x);
    proof {
        lemma_not_val(x, n);
        lemma_word_bounded(x);
        if x.val() != 0 {
            lemma_small_mod((word_modulus() - x.val()) as nat, word_modulus());
        }
    }
    if x.is_zero() {
        n
    } else {
        wrapping_add(n, Word::one())
    }
}

/// A nonzero word plus its two's complement is zero modulo 2^256.
pub proof fn lemma_twos_complement_cancels(x: Word)
    requires
        x.val() != 0,
    ensures
        (x.val() + negate(x.val())) % word_modulus() == 0,
{
    lemma_word_bounded(x);
    lemma_modulus_facts();
    assert(x.val() + negate(x.val()) == word_modulus());
}

/// NOT: every bit flipped.
pub fn bitwise_not(x: Word) -> (r: Word)
    ensures
        r.val() == word_modulus() - 1 - x.val(),
        forall|i: int| 0 <= i < 4 ==> #[trigger] r.limbs[i] == !x.limbs[i],
{
    let r = not(x);
    proof {
        lemma_not_val(x, r);
    }
    r
}

/// SHL: `value` shifted left by `shift` places.
pub fn shift_left(shift: Word, value: Word) -> (r: Word)
    ensures
        r.val() == shl_val(value.val(), shift.val()),
{
    match shift.to_usize() {
        Some(s) => {
            if s < 256 {
                shl_small(value, s)
            } else {
                Word::zero()
            }
        },
        None => Word::zero(),
    }
}

/// SHR: `value` shifted right by `shift` places, filling with zeros.
pub fn shift_right(shift: Word, value: Word) -> (r: Word)
    ensures
        r.val() == shr_val(value.val(), shift.val()),
{
    match shift.to_usize() {
        Some(s) => {
            if s < 256 {
                shr_small(value, s)
            } else {
                Word::zero()
            }
        },
        None => Word::zero(),
    }
}

/// SAR: a negative value is shifted as a magnitude and negated again.
pub fn shift_arithmetic_right(shift: Word, value: Word) -> (r: Word)
    ensures
        r.val() == sar_val(value.val(), shift.val()),
{
    let negative = is_negative(value);
    if negative {
        let magnitude = convert_twos_compliment(value);
        let shifted = shift_right(shift, magnitude);
        convert_twos_compliment(shifted)
    } else {
        shift_right(shift, value)
    }
}

/// DIV: zero for a zero divisor.
pub fn div(a: Word, b: Word) -> (r: Word)
    ensures
        r.val() == div_val(a.val(), b.val()),
{
    match checked_div(a, b) {
        Some(q) => q,
        None => Word::zero(),
    }
}

/// MOD: zero for a zero divisor.
pub fn modulus(a: Word, b: Word) -> (r: Word)
    ensures
        r.val() == mod_val(a.val(), b.val()),
{
    match checked_rem(a, b) {
        Some(q) => q,
        None => Word::zero(),
    }
}

/// SDIV: divide the magnitudes; the quotient is negative when exactly one
/// operand is.
pub fn signed_div(a: Word, b: Word) -> (r: Word)
    ensures
        r.val() == sdiv_val(a.val(), b.val()),
{
    let a_negative = is_negative(a);
    let b_negative = is_negative(b);
    let ma = if a_negative { convert_twos_compliment(a) } else { a };
    let mb = if b_negative { convert_twos_compliment(b) } else { b };
    match checked_div(ma, mb) {
        Some(q) => {
            if q.is_zero() {
                q
            } else if a_negative != b_negative {
                convert_twos_compliment(q)
            } else {
                q
            }
        },
        None => Word::zero(),
    }
}

/// SMOD: the remainder of the magnitudes, carrying the dividend's sign.
pub fn signed_modulus(a: Word, b: Word) -> (r: Word)
    ensures
        r.val() == smod_val(a.val(), b.val()),
{
    let a_negative = is_negative(a);
    let b_negative = is_negative(b);
    let ma = if a_negative { convert_twos_compliment(a) } else { a };
    let mb = if b_negative { convert_twos_compliment(b) } else { b };
    match checked_rem(ma, mb) {
        Some(q) => {
            if q.is_zero() {
                q
            } else if a_negative {
                convert_twos_compliment(q)
            } else {
                q
            }
        },
        None => Word::zero(),
    }
}

/// ADDMOD: the wrapped sum modulo `n`; zero for a zero modulus.
pub fn add_modulus(a: Word, b: Word, n: Word) -> (r: Word)
    ensures
        r.val() == addmod_val(a.val(), b.val(), n.val()),
{
    match checked_rem(wrapping_add(a, b), n) {
        Some(q) => q,
        None => Word::zero(),
    }
}

/// MULMOD: the full product modulo `n`; zero for a zero modulus.
pub fn mul_modulus(a: Word, b: Word, n: Word) -> (r: Word)
    ensures
        r.val() == mulmod_val(a.val(), b.val(), n.val()),
{
    if n.is_zero() {
        Word::zero()
    } else {
        mul_mod(a, b, n)
    }
}

/// SLT: signed less-than.
pub fn signed_lt(a: Word, b: Word) -> (r: bool)
    ensures
        r == (signed(a.val()) < signed(b.val())),
{
    proof {
        lemma_word_bounded(a);
        lemma_word_bounded(b);
    }
    if a.equals(&b) {
        return false;
    }
    let a_negative = is_negative(a);
    let b_negative = is_negative(b);
    if a_negative && !b_negative {
        return true;
    } else if !a_negative && b_negative {
        return false;
    }
    let ma = if a_negative { convert_twos_compliment(a) } else { a };
    let mb = if b_negative { convert_twos_compliment(b) } else { b };
    let res = lt(ma, mb);
    if a_negative && b_negative {
        !res
    } else {
        res
    }
}

/// SGT: signed greater-than.
pub fn signed_gt(a: Word, b: Word) -> (r: bool)
    ensures
        r == (signed(a.val()) > signed(b.val())),
{
    proof {
        lemma_word_bounded(a);
        lemma_word_bounded(b);
    }
    if a.equals(&b) {
        return false;
    }
    let a_negative = is_negative(a);
    let b_negative = is_negative(b);
    if a_negative && !b_negative {
        return false;
    } else if !a_negative && b_negative {
        return true;
    }
    let ma = if a_negative { convert_twos_compliment(a) } else { a };
    let mb = if b_negative { convert_twos_compliment(b) } else { b };
    let res = lt(mb, ma);
    if a_negative && b_negative {
        !res
    } else {
        res
    }
}

/// SIGNEXTEND: extend the sign of the low `b + 1` bytes of `x` to the whole word.
pub fn sign_extend(b: Word, x: Word) -> (r: Word)
    ensures
        r.val() == sign_extend_val(b.val(), x.val()),
{
    match b.to_usize() {
        Some(n) => {
            if n < 32 {
                let k: usize = 8 * n + 7;
                let p = shl_small(Word::one(), k);
                proof {
                    lemma_pow2_word(k as nat);
                    lemma_small_mod(pow2(k as nat), word_modulus());
                    lemma_word_bounded(x);
                }
                let low = modulus(x, p);
                if bit_of(x, k) {
                    let high = wrapping_sub(Word::zero(), p);
                    proof {
                        let m = word_modulus();
                        let pk = pow2(k as nat);
                        assert(p.val() == pk);
                        assert(low.val() < pk) by {
                            vstd::arithmetic::div_mod::lemma_mod_bound(x.val() as int, pk as int);
                        }
                        lemma_small_mod((m - pk) as nat, m);
                        assert(high.val() == m - pk);
                        lemma_small_mod((m - pk + low.val()) as nat, m);
                    }
                    wrapping_add(high, low)
                } else {
                    low
                }
            } else {
                x
            }
        },
        None => x,
    }
}

/// BYTE: byte `i` of `x`, counted from the most significant end.
pub fn byte(i: Word, x: Word) -> (r: Word)
    ensures
        r.val() == byte_val(i.val(), x.val()),
{
    match i.to_usize() {
        Some(n) => {
            if n < 32 {
                let b = byte_from_low(x, 31 - n);
                Word::from_usize(b as usize)
            } else {
                Word::zero()
            }
        },
        None => Word::zero(),
    }
}

} // verus!
