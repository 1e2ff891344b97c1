//! Byte-addressed memory that grows in 32-byte words.

use crate::helpers::ceil_divide;
use crate::machine::EvmError;
use vstd::prelude::*;

verus! {

/// Bytes in a word.
pub const WORD_BYTES: usize = 32;

/// The most memory a frame may use, in bytes (a multiple of 32).
pub const MEMORY_LIMIT: usize = 0x0100_0000;

/// `n` rounded up to a multiple of 32.
pub open spec fn ceil32(n: nat) -> nat {
    ((n + 31) / 32) * 32
}

/// The length of memory of length `cur` once bytes below `end` have been touched.
pub open spec fn expanded_len(cur: nat, end: nat) -> nat {
    if ceil32(end) > cur {
        ceil32(end)
    } else {
        cur
    }
}

/// Memory `m` grown, with zeros, to cover bytes below `end`.
pub open spec fn grown(m: Seq<u8>, end: nat) -> Seq<u8> {
    Seq::new(expanded_len(m.len(), end), |i: int| if i < m.len() { m[i] } else { 0u8 })
}

/// Memory `m` with `b` written at `off`.
pub open spec fn written(m: Seq<u8>, off: nat, b: Seq<u8>) -> Seq<u8> {
    let g = grown(m, off + b.len());
    Seq::new(g.len(), |i: int| if off <= i < off + b.len() { b[i - off] } else { g[i] })
}

/// A frame's memory: bytes, zero until written, grown in whole words.
pub struct Memory {
    data: Vec<u8>,
}

impl View for Memory {
    type V = Seq<u8>;

    closed spec fn view(&self) -> Seq<u8> {
        self.data@
    }
}

impl Memory {
    /// Its length is a whole number of words, within the limit.
    pub open spec fn wf(&self) -> bool {
        self@.len() % 32 == 0 && self@.len() <= MEMORY_LIMIT
    }

    pub fn new() -> (r: Memory)
        ensures
            r@ == Seq::<u8>::empty(),
            r.wf(),
    {
        Memory { data: Vec::new() }
    }

    /// The length in bytes.
    pub fn size(&self) -> (r: usize)
        requires
            self.wf(),
        ensures
            r == self@.len(),
            r % 32 == 0,
    {
        self.data.len()
    }

    /// Grow, with zeros, to cover the bytes below `length`; never shrink.
    pub fn resize(&mut self, length: usize)
        requires
            old(self).wf(),
            length <= MEMORY_LIMIT,
        ensures
            final(self).wf(),
            final(self)@ == grown(old(self)@, length as nat),
    {
        let words = ceil_divide(length, WORD_BYTES);
        let target = words * WORD_BYTES;
        assert(target == ceil32(length as nat));
        if target > self.data.len() {
            let ghost before = self.data@;
            while self.data.len() < target
                invariant
                    before.len() <= self.data@.len() <= target,
                    forall|i: int| 0 <= i < before.len() ==> self.data@[i] == before[i],
                    forall|i: int| before.len() <= i < self.data@.len() ==> self.data@[i] == 0u8,
                decreases target - self.data.len(),
            {
                self.data.push(0u8);
            }
            assert(self.data@ =~= grown(before, length as nat));
        } else {
            assert(self.data@ =~= grown(self.data@, length as nat));
        }
    }

    /// The `size` bytes at `offset`, after growing to cover them.
    pub fn get(&mut self, offset: usize, size: usize) -> (r: Vec<u8>)
        requires
            old(self).wf(),
            offset + size <= MEMORY_LIMIT,
        ensures
            final(self).wf(),
            final(self)@ == grown(old(self)@, (offset + size) as nat),
            final(self)@.len() == expanded_len(old(self)@.len(), (offset + size) as nat),
            r@ == final(self)@.subrange(offset as int, (offset + size) as int),
    {
        self.resize(offset + size);
        let mut out: Vec<u8> = Vec::new();
        let mut i: usize = 0;
        while i < size
            invariant
                i <= size,
                offset + size <= self.data@.len(),
                offset + size <= MEMORY_LIMIT,
                out@ =~= self.data@.subrange(offset as int, (offset + i) as int),
            decreases size - i,
        {
            out.push(self.data[offset + i]);
            i = i + 1;
        }
        out
    }

    /// Write `bytes` at `offset`, after growing to cover them.
    pub fn set(&mut self, offset: usize, bytes: &[u8])
        requires
            old(self).wf(),
            offset + bytes@.len() <= MEMORY_LIMIT,
        ensures
            final(self).wf(),
            final(self)@ == written(old(self)@, offset as nat, bytes@),
            final(self)@.len() == expanded_len(old(self)@.len(), (offset + bytes@.len()) as nat),
    {
        let ghost before = self.data@;
        self.resize(offset + bytes.len());
        let ghost g = self.data@;
        let mut i: usize = 0;
        while i < bytes.len()
            invariant
                i <= bytes@.len(),
                offset + bytes@.len() <= MEMORY_LIMIT,
                g == grown(before, (offset + bytes@.len()) as nat),
                offset + bytes@.len() <= g.len(),
                self.data@.len() == g.len(),
                forall|j: int| 0 <= j < g.len() ==> #[trigger] self.data@[j] == if offset <= j < offset + i {
                    bytes@[j - offset]
                } else {
                    g[j]
                },
            decreases bytes@.len() - i,
        {
            self.data.set(offset + i, bytes[i]);
            i = i + 1;
        }
        assert(self.data@ =~= written(before, offset as nat, bytes@));
    }
}

/// The range of `size` bytes at `offset` as indices, if it lies within the
/// memory limit.
pub fn memory_range(offset: crate::word::Word, size: crate::word::Word) -> (r: Result<(usize, usize), EvmError>)
    ensures
        offset.val() + size.val() <= MEMORY_LIMIT ==> r == Ok::<(usize, usize), EvmError>(
            (offset.val() as usize, size.val() as usize),
        ),
        offset.val() + size.val() > MEMORY_LIMIT ==> r == Err::<(usize, usize), EvmError>(
            EvmError::ResourceLimit,
        ),
{
    match (offset.to_usize(), size.to_usize()) {
        (Some(o), Some(s)) => {
            if o <= MEMORY_LIMIT && s <= MEMORY_LIMIT - o {
                Ok((o, s))
            } else {
                Err(EvmError::ResourceLimit)
            }
        },
        _ => Err(EvmError::ResourceLimit),
    }
}

/// Storing a word's 32 bytes and loading them back gives the word.
pub proof fn lemma_store_then_load(m: Seq<u8>, off: nat, v: crate::word::Word)
    ensures
        crate::word::be_val(
            grown(written(m, off, crate::word::be_bytes(v.val(), 32)), off + 32).subrange(
                off as int,
                off + 32 as int,
            ),
        ) == v.val(),
{
    crate::word::lemma_be_bytes_len(v.val(), 32);
    let b = crate::word::be_bytes(v.val(), 32);
    let w = written(m, off, b);
    assert(grown(w, off + 32).subrange(off as int, off + 32 as int) =~= b);
    crate::word::lemma_be_val_bytes(v.val(), 32);
    crate::word::lemma_byte_base_word();
    crate::word::lemma_word_bounded(v);
    vstd::arithmetic::div_mod::lemma_small_mod(v.val(), crate::word::word_modulus());
}

} // verus!
