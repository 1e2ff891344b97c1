//! The 256-bit machine word, its numeric model, and the arithmetic it gets
//! from `primitive_types::U256`.

use primitive_types::U256;
use vstd::arithmetic::div_mod::{
    lemma_fundamental_div_mod, lemma_fundamental_div_mod_converse, lemma_mod_breakdown,
    lemma_small_mod,
};
use vstd::arithmetic::power::pow;
use vstd::arithmetic::power2::{lemma2_to64, lemma2_to64_rest, lemma_pow2_adds, lemma_pow2_pos, lemma_pow2_strictly_increases, pow2};
use vstd::prelude::*;

verus! {

/// 2^64, the radix of a limb.
pub open spec fn limb_base() -> nat {
    0x1_0000_0000_0000_0000
}

/// 2^256, the number of distinct words.
pub open spec fn word_modulus() -> nat {
    limb_base() * limb_base() * limb_base() * limb_base()
}

/// A 256-bit unsigned integer held as four 64-bit limbs, least significant
/// first (the layout of `primitive_types::U256`).
#[derive(Clone, Copy, Debug)]
pub struct Word {
    pub limbs: [u64; 4],
}

/// The number that four limbs, least significant first, stand for.
pub open spec fn limbs_val(l0: u64, l1: u64, l2: u64, l3: u64) -> nat {
    l0 as nat + limb_base() * (l1 as nat + limb_base() * (l2 as nat + limb_base() * l3 as nat))
}

impl Word {
    /// The number this word stands for.
    pub open spec fn val(self) -> nat {
        limbs_val(self.limbs[0], self.limbs[1], self.limbs[2], self.limbs[3])
    }

    pub fn zero() -> (r: Word)
        ensures
            r.val() == 0,
            r == (Word { limbs: [0, 0, 0, 0] }),
    {
        Word { limbs: [0, 0, 0, 0] }
    }

    pub fn one() -> (r: Word)
        ensures
            r.val() == 1,
            r == (Word { limbs: [1, 0, 0, 0] }),
    {
        Word { limbs: [1, 0, 0, 0] }
    }

    /// The largest word, 2^256 - 1.
    pub fn max_value() -> (r: Word)
        ensures
            r.val() == word_modulus() - 1,
    {
        Word { limbs: [u64::MAX, u64::MAX, u64::MAX, u64::MAX] }
    }

    pub fn from_usize(n: usize) -> (r: Word)
        ensures
            r.val() == n,
            r == (Word { limbs: [n as u64, 0, 0, 0] }),
    {
        Word { limbs: [n as u64, 0, 0, 0] }
    }

    pub fn from_bool(b: bool) -> (r: Word)
        ensures
            r.val() == if b { 1nat } else { 0nat },
    {
        if b { Word::one() } else { Word::zero() }
    }

    pub fn is_zero(&self) -> (r: bool)
        ensures
            r == (self.val() == 0),
    {
        proof {
            lemma_limbs_zero(*self);
        }
        self.limbs[0] == 0 && self.limbs[1] == 0 && self.limbs[2] == 0 && self.limbs[3] == 0
    }

    /// The word that at most 32 big-endian bytes stand for; nothing for more.
    pub fn from_bytes(bytes: &[u8]) -> (r: Option<Word>)
        ensures
            bytes@.len() <= 32 ==> r is Some && r.unwrap().val() == be_val(bytes@),
            bytes@.len() > 32 ==> r is None,
    {
        if bytes.len() <= 32 {
            Some(from_big_endian(bytes))
        } else {
            None
        }
    }

    /// Whether two words are equal.
    pub fn equals(&self, other: &Word) -> (r: bool)
        ensures
            r == (*self == *other),
            r == (self.val() == other.val()),
    {
        let r = self.limbs[0] == other.limbs[0] && self.limbs[1] == other.limbs[1]
            && self.limbs[2] == other.limbs[2] && self.limbs[3] == other.limbs[3];
        proof {
            if r {
                assert(self.limbs =~= other.limbs);
            }
            if self.val() == other.val() {
                lemma_word_val_injective(*self, *other);
            }
        }
        r
    }

    /// The word as a `usize`, where it fits.
    pub fn to_usize(&self) -> (r: Option<usize>)
        ensures
            r == (if self.val() <= usize::MAX { Some(self.val() as usize) } else { None::<usize> }),
    {
        proof {
            lemma_word_low_limb(*self);
        }
        if self.limbs[1] == 0 && self.limbs[2] == 0 && self.limbs[3] == 0
            && self.limbs[0] as u128 <= usize::MAX as u128 {
            Some(self.limbs[0] as usize)
        } else {
            None
        }
    }
}

proof fn lemma_limbs_zero(w: Word)
    ensures
        w.val() == 0 <==> (w.limbs[0] == 0 && w.limbs[1] == 0 && w.limbs[2] == 0 && w.limbs[3] == 0),
{
    let (l0, l1, l2, l3) = (w.limbs[0] as int, w.limbs[1] as int, w.limbs[2] as int, w.limbs[3] as int);
    let b = limb_base() as int;
    assert(l0 + b * (l1 + b * (l2 + b * l3)) == 0 ==> l1 == 0 && l2 == 0 && l3 == 0) by (nonlinear_arith)
        requires 0 <= l0, 0 <= l1, 0 <= l2, 0 <= l3, b > 0;
}

/// A word with zero high limbs is its low limb, and one without is at least 2^64.
proof fn lemma_word_low_limb(w: Word)
    ensures
        (w.limbs[1] == 0 && w.limbs[2] == 0 && w.limbs[3] == 0) ==> w.val() == w.limbs[0],
        !(w.limbs[1] == 0 && w.limbs[2] == 0 && w.limbs[3] == 0) ==> w.val() >= limb_base(),
{
    let (l0, l1, l2, l3) = (w.limbs[0] as int, w.limbs[1] as int, w.limbs[2] as int, w.limbs[3] as int);
    let b = limb_base() as int;
    assert(!(l1 == 0 && l2 == 0 && l3 == 0) ==> l0 + b * (l1 + b * (l2 + b * l3)) >= b) by (nonlinear_arith)
        requires 0 <= l0, 0 <= l1, 0 <= l2, 0 <= l3, b > 0;
}

/// The modulus as a product of two 2^128 factors, and twice the sign bound.
pub proof fn lemma_modulus_facts()
    ensures
        word_modulus() == 0x1_0000_0000_0000_0000_0000_0000_0000_0000 * 0x1_0000_0000_0000_0000_0000_0000_0000_0000,
        sign_bound() * 2 == word_modulus(),
        word_modulus() % word_modulus() == 0,
{
}

/// Every word is below 2^256.
pub proof fn lemma_word_bounded(w: Word)
    ensures
        w.val() < word_modulus(),
{
    lemma_limbs_bounded(w.limbs[0], w.limbs[1], w.limbs[2], w.limbs[3]);
}

/// Any four limbs stand for a number below 2^256.
pub proof fn lemma_limbs_bounded(a0: u64, a1: u64, a2: u64, a3: u64)
    ensures
        limbs_val(a0, a1, a2, a3) < word_modulus(),
{
    let (l0, l1, l2, l3) = (a0 as int, a1 as int, a2 as int, a3 as int);
    let b = limb_base() as int;
    assert(l2 + b * l3 <= (b - 1) + b * (b - 1)) by (nonlinear_arith)
        requires 0 <= l2 < b, 0 <= l3 < b;
    assert(l1 + b * (l2 + b * l3) <= (b - 1) + b * (b * b - 1)) by (nonlinear_arith)
        requires 0 <= l1 < b, 0 <= l2 + b * l3 <= b * b - 1;
    assert(l0 + b * (l1 + b * (l2 + b * l3)) < b * b * b * b) by (nonlinear_arith)
        requires 0 <= l0 < b, 0 <= l1 + b * (l2 + b * l3) <= b * b * b - 1;
}

/// Two words with the same value are the same word.
pub proof fn lemma_word_val_injective(a: Word, b: Word)
    requires
        a.val() == b.val(),
    ensures
        a == b,
{
    let base = limb_base() as int;
    let ra2 = a.limbs[2] as int + base * a.limbs[3] as int;
    let rb2 = b.limbs[2] as int + base * b.limbs[3] as int;
    let ra1 = a.limbs[1] as int + base * ra2;
    let rb1 = b.limbs[1] as int + base * rb2;
    lemma_fundamental_div_mod_converse(a.val() as int, base, ra1, a.limbs[0] as int);
    lemma_fundamental_div_mod_converse(b.val() as int, base, rb1, b.limbs[0] as int);
    lemma_fundamental_div_mod_converse(ra1, base, ra2, a.limbs[1] as int);
    lemma_fundamental_div_mod_converse(rb1, base, rb2, b.limbs[1] as int);
    lemma_fundamental_div_mod_converse(ra2, base, a.limbs[3] as int, a.limbs[2] as int);
    lemma_fundamental_div_mod_converse(rb2, base, b.limbs[3] as int, b.limbs[2] as int);
    assert(a.limbs =~= b.limbs);
}

/// 256^n.
pub open spec fn byte_base(n: nat) -> nat
    decreases n,
{
    if n == 0 {
        1
    } else {
        256 * byte_base((n - 1) as nat)
    }
}

/// The number that a big-endian byte string stands for.
pub open spec fn be_val(s: Seq<u8>) -> nat
    decreases s.len(),
{
    if s.len() == 0 {
        0
    } else {
        be_val(s.drop_last()) * 256 + s.last() as nat
    }
}

/// The low `n` bytes of `v`, big-endian.
pub open spec fn be_bytes(v: nat, n: nat) -> Seq<u8>
    decreases n,
{
    if n == 0 {
        Seq::empty()
    } else {
        be_bytes(v / 256, (n - 1) as nat).push((v % 256) as u8)
    }
}

/// 256^32 is the word modulus.
pub proof fn lemma_byte_base_word()
    ensures
        byte_base(32) == word_modulus(),
{
    reveal_with_fuel(byte_base, 33);
}

/// Powers of 256 are positive.
pub proof fn lemma_byte_base_pos(n: nat)
    ensures
        byte_base(n) > 0,
    decreases n,
{
    if n > 0 {
        lemma_byte_base_pos((n - 1) as nat);
    }
}

/// `be_bytes(v, n)` has `n` bytes.
pub proof fn lemma_be_bytes_len(v: nat, n: nat)
    ensures
        be_bytes(v, n).len() == n,
    decreases n,
{
    if n > 0 {
        lemma_be_bytes_len(v / 256, (n - 1) as nat);
    }
}

/// Reading back the low `n` bytes of `v` gives `v` modulo 256^n.
pub proof fn lemma_be_val_bytes(v: nat, n: nat)
    ensures
        be_val(be_bytes(v, n)) == v % byte_base(n),
    decreases n,
{
    if n == 0 {
    } else {
        let m = (n - 1) as nat;
        lemma_be_val_bytes(v / 256, m);
        lemma_be_bytes_len(v / 256, m);
        let s = be_bytes(v, n);
        assert(s.drop_last() =~= be_bytes(v / 256, m));
        lemma_byte_base_pos(m);
        lemma_mod_breakdown(v as int, 256, byte_base(m) as int);
        assert(256 * ((v / 256) % byte_base(m)) == ((v / 256) % byte_base(m)) * 256) by (nonlinear_arith);
    }
}

/// Taking the trailing `m` bytes of the low `n + m` bytes of `v` gives the low `m` bytes.
pub proof fn lemma_be_bytes_suffix(v: nat, n: nat, m: nat)
    ensures
        be_bytes(v, n + m).subrange(n as int, (n + m) as int) =~= be_bytes(v, m),
    decreases m,
{
    lemma_be_bytes_len(v, n + m);
    if m > 0 {
        let k = (m - 1) as nat;
        lemma_be_bytes_suffix(v / 256, n, k);
        lemma_be_bytes_len(v / 256, n + k);
        assert(be_bytes(v, n + m) == be_bytes(v / 256, n + k).push((v % 256) as u8));
    }
}

/// Two's complement: a word is negative when its top bit is set.
pub open spec fn sign_bound() -> nat {
    word_modulus() / 2
}

/// Whether a word's value is negative in two's complement.
pub open spec fn is_neg(v: nat) -> bool {
    v >= sign_bound()
}

/// The negation used by the signed operations; zero maps to all ones.
pub open spec fn negate(v: nat) -> nat {
    if v == 0 {
        (word_modulus() - 1) as nat
    } else {
        (word_modulus() - v) as nat
    }
}

/// The magnitude of a word read as a signed number.
pub open spec fn magnitude(v: nat) -> nat {
    if is_neg(v) {
        negate(v)
    } else {
        v
    }
}

/// The word read as a signed number.
pub open spec fn signed(v: nat) -> int {
    if is_neg(v) {
        v - word_modulus()
    } else {
        v as int
    }
}

/// Logical right shift; 256 places or more leave nothing.
pub open spec fn shr_val(v: nat, s: nat) -> nat {
    if s < 256 {
        v / pow2(s)
    } else {
        0
    }
}

/// Left shift modulo 2^256; 256 places or more leave nothing.
pub open spec fn shl_val(v: nat, s: nat) -> nat {
    if s < 256 {
        (v * pow2(s)) % word_modulus()
    } else {
        0
    }
}

/// The difference modulo 2^256.
pub open spec fn sub_val(a: nat, b: nat) -> nat {
    ((a + word_modulus() - b) % (word_modulus() as int)) as nat
}

/// SDIV: the quotient of the magnitudes, negated when exactly one operand is
/// negative; zero for a zero divisor.
pub open spec fn sdiv_val(a: nat, b: nat) -> nat {
    if magnitude(b) == 0 {
        0
    } else {
        let q = magnitude(a) / magnitude(b);
        if q == 0 {
            0
        } else if is_neg(a) != is_neg(b) {
            negate(q)
        } else {
            q
        }
    }
}

/// SMOD: the remainder of the magnitudes, negated when the dividend is
/// negative; zero for a zero divisor.
pub open spec fn smod_val(a: nat, b: nat) -> nat {
    if magnitude(b) == 0 {
        0
    } else {
        let r = magnitude(a) % magnitude(b);
        if r == 0 {
            0
        } else if is_neg(a) {
            negate(r)
        } else {
            r
        }
    }
}

/// Arithmetic right shift as this machine defines it: shift the magnitude
/// of a negative value, then negate again.
pub open spec fn sar_val(v: nat, s: nat) -> nat {
    if is_neg(v) {
        negate(shr_val(magnitude(v), s))
    } else {
        shr_val(v, s)
    }
}

/// Sign extension of `x` from its low `b + 1` bytes.
pub open spec fn sign_extend_val(b: nat, x: nat) -> nat {
    if b >= 32 {
        x
    } else {
        let k = 8 * b + 7;
        if (x / pow2(k)) % 2 == 1 {
            (word_modulus() - pow2(k) + x % pow2(k)) as nat
        } else {
            x % pow2(k)
        }
    }
}

/// 2^256 is the word modulus and 2^255 the sign bound.
pub proof fn lemma_pow2_256()
    ensures
        pow2(256) == word_modulus(),
        pow2(255) == sign_bound(),
{
    lemma2_to64();
    lemma2_to64_rest();
    lemma_pow2_adds(64, 64);
    lemma_pow2_adds(128, 64);
    lemma_pow2_adds(192, 64);
    lemma_pow2_adds(192, 63);
}

/// Every power of two below 2^256 is a nonzero word value.
pub proof fn lemma_pow2_word(k: nat)
    requires
        k < 256,
    ensures
        0 < pow2(k) < word_modulus(),
{
    lemma_pow2_256();
    lemma_pow2_pos(k);
    lemma_pow2_strictly_increases(k, 256);
}

/// Relies on `U256::overflowing_add`: the sum modulo 2^256.
#[verifier::external_body]
pub(crate) fn wrapping_add(a: Word, b: Word) -> (r: Word)
    ensures
        r.val() == (a.val() + b.val()) % word_modulus(),
{
    Word { limbs: U256(a.limbs).overflowing_add(U256(b.limbs)).0 .0 }
}

/// Relies on `U256::overflowing_sub`: the difference modulo 2^256.
#[verifier::external_body]
pub(crate) fn wrapping_sub(a: Word, b: Word) -> (r: Word)
    ensures
        r.val() == sub_val(a.val(), b.val()),
{
    Word { limbs: U256(a.limbs).overflowing_sub(U256(b.limbs)).0 .0 }
}

/// Relies on `U256::overflowing_mul`: the product modulo 2^256.
#[verifier::external_body]
pub(crate) fn wrapping_mul(a: Word, b: Word) -> (r: Word)
    ensures
        r.val() == (a.val() * b.val()) % word_modulus(),
{
    Word { limbs: U256(a.limbs).overflowing_mul(U256(b.limbs)).0 .0 }
}

/// Relies on `U256::checked_div`: the quotient, or nothing for a zero divisor.
#[verifier::external_body]
pub(crate) fn checked_div(a: Word, b: Word) -> (r: Option<Word>)
    ensures
        b.val() == 0 ==> r.is_none(),
        b.val() != 0 ==> r.is_some() && r.unwrap().val() == a.val() / b.val(),
{
    U256(a.limbs).checked_div(U256(b.limbs)).map(|q| Word { limbs: q.0 })
}

/// Relies on `U256::checked_rem`: the remainder, or nothing for a zero divisor.
#[verifier::external_body]
pub(crate) fn checked_rem(a: Word, b: Word) -> (r: Option<Word>)
    ensures
        b.val() == 0 ==> r.is_none(),
        b.val() != 0 ==> r.is_some() && r.unwrap().val() == a.val() % b.val(),
{
    U256(a.limbs).checked_rem(U256(b.limbs)).map(|q| Word { limbs: q.0 })
}

/// Relies on `U256::overflowing_pow`: the power modulo 2^256.
#[verifier::external_body]
pub(crate) fn exp(a: Word, b: Word) -> (r: Word)
    ensures
        r.val() == pow(a.val() as int, b.val()) % (word_modulus() as int),
{
    Word { limbs: U256(a.limbs).overflowing_pow(U256(b.limbs)).0 .0 }
}

/// Relies on `U256::full_mul` and the remainder on `U512`: the full 512-bit
/// product reduced modulo `n`.
#[verifier::external_body]
pub(crate) fn mul_mod(a: Word, b: Word, n: Word) -> (r: Word)
    requires
        n.val() != 0,
    ensures
        r.val() == (a.val() * b.val()) % n.val(),
{
    let rem = U256(a.limbs).full_mul(U256(b.limbs)) % primitive_types::U512::from(U256(n.limbs));
    Word { limbs: U256::try_from(rem).unwrap().0 }
}

/// Relies on `Not for U256`: each limb is complemented.
#[verifier::external_body]
pub(crate) fn not(a: Word) -> (r: Word)
    ensures
        forall|i: int| 0 <= i < 4 ==> #[trigger] r.limbs[i] == !a.limbs[i],
{
    Word { limbs: (!U256(a.limbs)).0 }
}

/// Relies on `BitAnd for U256`: limb by limb.
#[verifier::external_body]
pub(crate) fn and(a: Word, b: Word) -> (r: Word)
    ensures
        forall|i: int| 0 <= i < 4 ==> #[trigger] r.limbs[i] == a.limbs[i] & b.limbs[i],
{
    Word { limbs: (U256(a.limbs) & U256(b.limbs)).0 }
}

/// Relies on `BitOr for U256`: limb by limb.
#[verifier::external_body]
pub(crate) fn or(a: Word, b: Word) -> (r: Word)
    ensures
        forall|i: int| 0 <= i < 4 ==> #[trigger] r.limbs[i] == a.limbs[i] | b.limbs[i],
{
    Word { limbs: (U256(a.limbs) | U256(b.limbs)).0 }
}

/// Relies on `BitXor for U256`: limb by limb.
#[verifier::external_body]
pub(crate) fn xor(a: Word, b: Word) -> (r: Word)
    ensures
        forall|i: int| 0 <= i < 4 ==> #[trigger] r.limbs[i] == a.limbs[i] ^ b.limbs[i],
{
    Word { limbs: (U256(a.limbs) ^ U256(b.limbs)).0 }
}

/// Relies on `Shl for U256`: bits shifted past the top are dropped.
#[verifier::external_body]
pub(crate) fn shl_small(a: Word, s: usize) -> (r: Word)
    requires
        s < 256,
    ensures
        r.val() == (a.val() * pow2(s as nat)) % word_modulus(),
{
    Word { limbs: (U256(a.limbs) << s).0 }
}

/// Relies on `Shr for U256`: the quotient by 2^s.
#[verifier::external_body]
pub(crate) fn shr_small(a: Word, s: usize) -> (r: Word)
    requires
        s < 256,
    ensures
        r.val() == a.val() / pow2(s as nat),
{
    Word { limbs: (U256(a.limbs) >> s).0 }
}

/// Relies on `U256::byte`: byte `i` counted from the least significant end.
#[verifier::external_body]
pub(crate) fn byte_from_low(a: Word, i: usize) -> (r: u8)
    requires
        i < 32,
    ensures
        r as nat == (a.val() / pow2(8 * i as nat)) % 256,
{
    U256(a.limbs).byte(i)
}

/// Relies on `U256::bit`: bit `i` counted from the least significant end.
#[verifier::external_body]
pub(crate) fn bit_of(a: Word, i: usize) -> (r: bool)
    requires
        i < 256,
    ensures
        r == ((a.val() / pow2(i as nat)) % 2 == 1),
{
    U256(a.limbs).bit(i)
}

/// Relies on `Ord for U256`: numeric order.
#[verifier::external_body]
pub(crate) fn lt(a: Word, b: Word) -> (r: bool)
    ensures
        r == (a.val() < b.val()),
{
    U256(a.limbs) < U256(b.limbs)
}

/// Relies on `U256::from_big_endian`: the value of at most 32 big-endian bytes.
#[verifier::external_body]
pub(crate) fn from_big_endian(bytes: &[u8]) -> (r: Word)
    requires
        bytes@.len() <= 32,
    ensures
        r.val() == be_val(bytes@),
{
    Word { limbs: U256::from_big_endian(bytes).0 }
}

/// Relies on `U256::to_big_endian`: the 32 big-endian bytes of the value.
#[verifier::external_body]
pub(crate) fn to_big_endian(a: Word) -> (r: Vec<u8>)
    ensures
        r@ == be_bytes(a.val(), 32),
{
    let mut bytes = vec![0u8; 32];
    U256(a.limbs).to_big_endian(&mut bytes);
    bytes
}

} // verus!
