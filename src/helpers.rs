//! Small helpers shared by the interpreter: rounding, padding and slicing
//! of byte strings.

use crate::machine::{ControlFlow, EvmError, ExitReason, ExitSuccess};
use crate::word::{be_bytes, lemma_be_bytes_len, to_big_endian, Word};
use vstd::prelude::*;

verus! {

/// `a / b` rounded up.
pub fn ceil_divide(a: usize, b: usize) -> (r: usize)
    requires
        b > 0,
        a + b - 1 <= usize::MAX,
    ensures
        r == (a + b - 1) / b as int,
{
    (a + (b - 1)) / b
}

/// Integers with a zero and a one.
pub trait Int: Sized {
    fn zero() -> Self;

    fn one() -> Self;
}

impl Int for usize {
    fn zero() -> usize {
        0
    }

    fn one() -> usize {
        1
    }
}

impl Int for u32 {
    fn zero() -> u32 {
        0
    }

    fn one() -> u32 {
        1
    }
}

/// The number of leading zero bytes of `s`.
pub open spec fn leading_zeros(s: Seq<u8>) -> nat
    decreases s.len(),
{
    if s.len() > 0 && s[0] == 0 {
        1 + leading_zeros(s.subrange(1, s.len() as int))
    } else {
        0
    }
}

/// The leading zeros are zeros, and the byte after them is not.
pub proof fn lemma_leading_zeros(s: Seq<u8>)
    ensures
        leading_zeros(s) <= s.len(),
        forall|i: int| 0 <= i < leading_zeros(s) ==> s[i] == 0,
        leading_zeros(s) < s.len() ==> s[leading_zeros(s) as int] != 0,
    decreases s.len(),
{
    if s.len() > 0 && s[0] == 0 {
        let t = s.subrange(1, s.len() as int);
        lemma_leading_zeros(t);
        assert forall|i: int| 0 <= i < leading_zeros(s) implies s[i] == 0 by {
            if i > 0 {
                assert(s[i] == t[i - 1]);
            }
        }
    }
}

/// `list` without its leading zero bytes.
pub fn remove_padding(list: &[u8]) -> (r: Vec<u8>)
    ensures
        r@ == list@.subrange(leading_zeros(list@) as int, list@.len() as int),
{
    proof {
        lemma_leading_zeros(list@);
    }
    let mut start: usize = 0;
    while start < list.len() && list[start] == 0
        invariant
            start <= leading_zeros(list@),
            leading_zeros(list@) <= list@.len(),
            forall|i: int| 0 <= i < leading_zeros(list@) ==> list@[i] == 0,
            leading_zeros(list@) < list@.len() ==> list@[leading_zeros(list@) as int] != 0,
        decreases list@.len() - start,
    {
        start = start + 1;
    }
    let mut out: Vec<u8> = Vec::new();
    let mut i: usize = start;
    while i < list.len()
        invariant
            start <= i <= list@.len(),
            start == leading_zeros(list@),
            out@ =~= list@.subrange(start as int, i as int),
        decreases list@.len() - i,
    {
        out.push(list[i]);
        i = i + 1;
    }
    out
}

/// `arr` left-padded with zeros to `size` bytes; left alone if it is that long already.
pub fn add_padding(arr: &[u8], size: usize) -> (r: Vec<u8>)
    ensures
        arr@.len() >= size ==> r@ == arr@,
        arr@.len() < size ==> r@ == Seq::new((size - arr@.len()) as nat, |i: int| 0u8) + arr@,
{
    let mut out: Vec<u8> = Vec::new();
    if arr.len() < size {
        let pad = size - arr.len();
        while out.len() < pad
            invariant
                out@.len() <= pad,
                forall|i: int| 0 <= i < out@.len() ==> out@[i] == 0u8,
            decreases pad - out@.len(),
        {
            out.push(0u8);
        }
    }
    let ghost zeros = out@;
    let mut i: usize = 0;
    while i < arr.len()
        invariant
            i <= arr@.len(),
            out@ =~= zeros + arr@.subrange(0, i as int),
        decreases arr@.len() - i,
    {
        out.push(arr[i]);
        i = i + 1;
    }
    assert(arr@.subrange(0, arr@.len() as int) =~= arr@);
    assert(arr@.len() >= size ==> zeros =~= Seq::<u8>::empty());
    assert(arr@.len() < size ==> zeros =~= Seq::new((size - arr@.len()) as nat, |i: int| 0u8));
    out
}

/// The `size` bytes of `src` from `offset`, with zeros past its end.
pub open spec fn slice_padded(src: Seq<u8>, offset: nat, size: nat) -> Seq<u8> {
    Seq::new(size, |i: int| if offset + i < src.len() { src[offset + i] } else { 0u8 })
}

/// The `size` bytes of `arr` starting at `offset`, zero-filled past its end.
pub fn arr_slice_extend(arr: &[u8], offset: usize, size: usize) -> (r: Vec<u8>)
    ensures
        r@ == slice_padded(arr@, offset as nat, size as nat),
{
    let mut out: Vec<u8> = Vec::new();
    let mut i: usize = 0;
    while i < size
        invariant
            i <= size,
            out@ =~= slice_padded(arr@, offset as nat, i as nat),
        decreases size - i,
    {
        if offset <= arr.len() && i < arr.len() - offset {
            out.push(arr[offset + i]);
        } else {
            out.push(0u8);
        }
        i = i + 1;
    }
    out
}

/// The `size` bytes of `src` from a word-sized `offset`, with zeros past its end.
pub fn slice_from(src: &[u8], offset: crate::word::Word, size: usize) -> (r: Vec<u8>)
    ensures
        r@ == slice_padded(src@, offset.val(), size as nat),
{
    let len = src.len();
    match offset.to_usize() {
        Some(o) => arr_slice_extend(src, o, size),
        None => {
            let r = arr_slice_extend(src, len, size);
            assert(r@ =~= slice_padded(src@, offset.val(), size as nat));
            r
        },
    }
}

/// The big-endian bytes of a word without leading zeros.
pub fn u256_to_vec_u8_without_padding(value: &Word) -> (r: Vec<u8>)
    ensures
        r@ == be_bytes(value.val(), 32).subrange(
            leading_zeros(be_bytes(value.val(), 32)) as int,
            32,
        ),
{
    let bytes = to_big_endian(*value);
    proof {
        lemma_be_bytes_len(value.val(), 32);
    }
    remove_padding(bytes.as_slice())
}

/// End the frame with an error.
pub fn exit_error(err: EvmError) -> (r: ControlFlow)
    ensures
        r == ControlFlow::Exit(ExitReason::Error(err)),
{
    ControlFlow::Exit(ExitReason::Error(err))
}

/// End the frame successfully.
pub fn exit_success(success: ExitSuccess) -> (r: ControlFlow)
    ensures
        r == ControlFlow::Exit(ExitReason::Success(success)),
{
    ControlFlow::Exit(ExitReason::Success(success))
}

} // verus!
