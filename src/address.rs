//! 160-bit account addresses, their conversion to and from words, and the
//! derivation of the address of a created contract.

use crate::helpers::leading_zeros;
use crate::word::{
    be_bytes, be_val, byte_base, from_big_endian, lemma_be_bytes_len, lemma_be_bytes_suffix,
    lemma_be_val_bytes, lemma_byte_base_word, to_big_endian, Word,
};
use primitive_types::{H160, U256};
use sha3::{Digest, Keccak256};
use vstd::prelude::*;

verus! {

/// The Keccak-256 digest of a byte string.
pub uninterp spec fn keccak256_of(data: Seq<u8>) -> Seq<u8>;

/// The big-endian bytes of `v` without leading zero bytes (none for zero).
pub open spec fn minimal_be(v: nat) -> Seq<u8> {
    let b = be_bytes(v, 32);
    b.subrange(leading_zeros(b) as int, 32)
}

/// The RLP encoding of a byte string shorter than 56 bytes: a single byte
/// below 0x80 stands for itself; otherwise 0x80 plus the length comes first.
pub open spec fn rlp_short_string(s: Seq<u8>) -> Seq<u8> {
    if s.len() == 1 && s[0] < 0x80 {
        s
    } else {
        seq![(0x80 + s.len()) as u8] + s
    }
}

/// The RLP encoding of the two-item list of a 20-byte address and a nonce
/// below 2^256: its payload is under 56 bytes, so 0xc0 plus the payload's
/// length comes first.
pub open spec fn rlp_address_nonce(address: Seq<u8>, nonce: nat) -> Seq<u8> {
    let payload = rlp_short_string(address) + rlp_short_string(minimal_be(nonce));
    seq![(0xc0 + payload.len()) as u8] + payload
}

/// Relies on `sha3::Keccak256::digest`: the 32-byte Keccak-256 digest.
#[verifier::external_body]
pub(crate) fn keccak256(data: &[u8]) -> (r: Vec<u8>)
    ensures
        r@ == keccak256_of(data@),
        r@.len() == 32,
{
    Keccak256::digest(data).to_vec()
}

/// Relies on `rlp::RlpStream` with the `Encodable` impls of `H160` (its 20
/// bytes as a string) and `U256` (its big-endian bytes without leading
/// zeros as a string): the encoding of the list `[address, nonce]`.
#[verifier::external_body]
fn rlp_encode_address_nonce(address: &Address, nonce: Word) -> (r: Vec<u8>)
    ensures
        r@ == rlp_address_nonce(address.bytes@, nonce.val()),
{
    let mut stream = rlp::RlpStream::new_list(2);
    stream.append(&H160(address.bytes));
    stream.append(&U256(nonce.limbs));
    stream.out().to_vec()
}

/// A 20-byte account address.
#[derive(Clone, Copy, Debug, PartialEq, Eq)]
pub struct Address {
    pub bytes: [u8; 20],
}

impl Address {
    /// The number this address stands for, big-endian.
    pub open spec fn val(self) -> nat {
        be_val(self.bytes@)
    }

    pub fn zero() -> (r: Address)
        ensures
            r.bytes@ == Seq::new(20, |i: int| 0u8),
    {
        let r = Address { bytes: [0u8; 20] };
        assert(r.bytes@ =~= Seq::new(20, |i: int| 0u8));
        r
    }

    pub fn from_bytes(bytes: [u8; 20]) -> (r: Address)
        ensures
            r.bytes == bytes,
    {
        Address { bytes }
    }

    /// The address as a word: twelve zero bytes, then the address.
    pub fn to_word(&self) -> (r: Word)
        ensures
            r.val() == self.val(),
    {
        from_big_endian(self.bytes.as_slice())
    }

    /// The low 160 bits of a word, as an address.
    pub fn from_word(w: Word) -> (r: Address)
        ensures
            r.bytes@ == be_bytes(w.val(), 20),
            r.val() == w.val() % byte_base(20),
    {
        let full = to_big_endian(w);
        proof {
            lemma_be_bytes_len(w.val(), 32);
            lemma_be_bytes_suffix(w.val(), 12, 20);
        }
        let mut bytes = [0u8; 20];
        let mut i: usize = 0;
        while i < 20
            invariant
                i <= 20,
                full@ == be_bytes(w.val(), 32),
                full@.len() == 32,
                forall|j: int| 0 <= j < i ==> bytes@[j] == full@[12 + j],
            decreases 20 - i,
        {
            bytes[i] = full[12 + i];
            i = i + 1;
        }
        assert(bytes@ =~= full@.subrange(12, 32));
        proof {
            lemma_be_val_bytes(w.val(), 20);
            lemma_byte_base_word();
        }
        Address { bytes }
    }

    pub fn equals(&self, other: &Address) -> (r: bool)
        ensures
            r == (*self == *other),
    {
        let mut i: usize = 0;
        while i < 20
            invariant
                i <= 20,
                forall|j: int| 0 <= j < i ==> self.bytes@[j] == other.bytes@[j],
            decreases 20 - i,
        {
            if self.bytes[i] != other.bytes[i] {
                return false;
            }
            i = i + 1;
        }
        assert(self.bytes =~= other.bytes);
        true
    }
}

/// The address of a contract created by `caller` with `nonce`: the last 20
/// bytes of the Keccak-256 digest of the RLP list `[caller, nonce]`.
pub fn create_address(caller: &Address, nonce: Word) -> (r: Address)
    ensures
        r.bytes@ == keccak256_of(rlp_address_nonce(caller.bytes@, nonce.val())).subrange(12, 32),
{
    let encoded = rlp_encode_address_nonce(caller, nonce);
    let digest = keccak256(encoded.as_slice());
    let mut bytes = [0u8; 20];
    let mut i: usize = 0;
    while i < 20
        invariant
            i <= 20,
            digest@.len() == 32,
            forall|j: int| 0 <= j < i ==> bytes@[j] == digest@[12 + j],
        decreases 20 - i,
    {
        bytes[i] = digest[12 + i];
        i = i + 1;
    }
    assert(bytes@ =~= digest@.subrange(12, 32));
    Address { bytes }
}

} // verus!
