//! The operand stack: a bounded LIFO of words.

use crate::machine::EvmError;
use crate::word::Word;
use vstd::prelude::*;

verus! {

/// The deepest the stack may grow.
pub const STACK_LIMIT: usize = 1024;

/// `s` with `v` on top.
pub open spec fn spec_push(s: Seq<Word>, v: Word) -> Seq<Word> {
    s.push(v)
}

/// `s` without its top.
pub open spec fn spec_pop(s: Seq<Word>) -> Seq<Word> {
    s.drop_last()
}

/// The item `i` places below the top (0 is the top).
pub open spec fn spec_peek(s: Seq<Word>, i: int) -> Word {
    s[s.len() - 1 - i]
}

/// DUPn: a copy of the item `n - 1` places below the top, pushed.
pub open spec fn spec_dup(s: Seq<Word>, n: int) -> Seq<Word> {
    s.push(spec_peek(s, n - 1))
}

/// SWAPn: the top exchanged with the item `n` places below it.
pub open spec fn spec_swap(s: Seq<Word>, n: int) -> Seq<Word> {
    s.update(s.len() - 1, spec_peek(s, n)).update(s.len() - 1 - n, spec_peek(s, 0))
}

/// A frame's operand stack.
pub struct Stack {
    data: Vec<Word>,
}

impl View for Stack {
    type V = Seq<Word>;

    /// Bottom first: the top is the last item.
    closed spec fn view(&self) -> Seq<Word> {
        self.data@
    }
}

impl Stack {
    /// The stack holds at most `STACK_LIMIT` words.
    pub open spec fn wf(&self) -> bool {
        self@.len() <= STACK_LIMIT
    }

    pub fn new() -> (r: Stack)
        ensures
            r@ == Seq::<Word>::empty(),
            r.wf(),
    {
        Stack { data: Vec::new() }
    }

    pub fn depth(&self) -> (r: usize)
        ensures
            r == self@.len(),
    {
        self.data.len()
    }

    /// Push `value`; a full stack refuses it.
    pub fn push(&mut self, value: Word) -> (r: Result<(), EvmError>)
        requires
            old(self).wf(),
        ensures
            final(self).wf(),
            old(self)@.len() < STACK_LIMIT ==> r is Ok && final(self)@ == spec_push(old(self)@, value),
            old(self)@.len() >= STACK_LIMIT ==> r == Err::<(), EvmError>(EvmError::StackOverflow)
                && final(self)@ == old(self)@,
    {
        if self.data.len() >= STACK_LIMIT {
            Err(EvmError::StackOverflow)
        } else {
            self.data.push(value);
            Ok(())
        }
    }

    /// Take the top off; nothing comes from an empty stack.
    pub fn pop(&mut self) -> (r: Option<Word>)
        requires
            old(self).wf(),
        ensures
            final(self).wf(),
            old(self)@.len() > 0 ==> r == Some(old(self)@.last()) && final(self)@ == spec_pop(old(self)@),
            old(self)@.len() == 0 ==> r is None && final(self)@ == old(self)@,
    {
        self.data.pop()
    }

    /// Overwrite the item `i` places below the top.
    pub fn set(&mut self, value: Word, i: usize) -> (r: Result<(), EvmError>)
        requires
            old(self).wf(),
        ensures
            final(self).wf(),
            i < old(self)@.len() ==> r is Ok
                && final(self)@ == old(self)@.update(old(self)@.len() - 1 - i, value),
            i >= old(self)@.len() ==> r == Err::<(), EvmError>(EvmError::StackUnderflow)
                && final(self)@ == old(self)@,
    {
        let len = self.data.len();
        if len > i {
            self.data.set(len - i - 1, value);
            Ok(())
        } else {
            Err(EvmError::StackUnderflow)
        }
    }

    /// The item `i` places below the top.
    pub fn peek(&self, i: usize) -> (r: Result<Word, EvmError>)
        ensures
            i < self@.len() ==> r == Ok::<Word, EvmError>(spec_peek(self@, i as int)),
            i >= self@.len() ==> r == Err::<Word, EvmError>(EvmError::StackUnderflow),
    {
        if self.data.len() > i {
            Ok(self.data[self.data.len() - i - 1])
        } else {
            Err(EvmError::StackUnderflow)
        }
    }

    /// The items, top first.
    pub fn data(&self) -> (r: Vec<Word>)
        ensures
            r@ == self@.reverse(),
    {
        let mut out: Vec<Word> = Vec::new();
        let mut i: usize = self.data.len();
        while i > 0
            invariant
                i <= self.data@.len(),
                out@ =~= self.data@.subrange(i as int, self.data@.len() as int).reverse(),
            decreases i,
        {
            i = i - 1;
            out.push(self.data[i]);
            assert(self.data@.subrange(i as int, self.data@.len() as int).reverse() =~=
                self.data@.subrange(i + 1, self.data@.len() as int).reverse().push(self.data@[i as int]));
        }
        assert(self.data@.subrange(0, self.data@.len() as int) =~= self.data@);
        out
    }
}

/// PUSHn immediately followed by POP leaves the stack as it was.
pub proof fn lemma_push_then_pop(s: Seq<Word>, v: Word)
    ensures
        spec_pop(spec_push(s, v)) == s,
{
    assert(spec_pop(spec_push(s, v)) =~= s);
}

/// DUPn followed by POP leaves the stack as it was.
pub proof fn lemma_dup_then_pop(s: Seq<Word>, n: int)
    requires
        1 <= n <= s.len(),
    ensures
        spec_pop(spec_dup(s, n)) == s,
{
    assert(spec_pop(spec_dup(s, n)) =~= s);
}

/// SWAPn applied twice gives back the stack.
pub proof fn lemma_swap_twice(s: Seq<Word>, n: int)
    requires
        1 <= n < s.len(),
    ensures
        spec_swap(spec_swap(s, n), n) == s,
        spec_swap(s, n).len() == s.len(),
{
    assert(spec_swap(spec_swap(s, n), n) =~= s);
}

} // verus!
