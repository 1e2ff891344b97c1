//! The valid jump destinations of a piece of code.

use crate::word::Word;
use vstd::prelude::*;

verus! {

/// PUSH1 through PUSH32.
pub open spec fn is_push(op: u8) -> bool {
    0x60 <= op <= 0x7f
}

/// The number of immediate bytes that follow a PUSH opcode.
pub open spec fn push_len(op: u8) -> nat {
    (op - 0x5f) as nat
}

/// The immediate bytes still to skip after reading the first `n` bytes of `code`.
pub open spec fn skip_after(code: Seq<u8>, n: nat) -> nat
    decreases n,
{
    if n == 0 {
        0
    } else {
        let s = skip_after(code, (n - 1) as nat);
        let op = code[n - 1];
        if s > 0 {
            (s - 1) as nat
        } else if is_push(op) {
            push_len(op)
        } else {
            0
        }
    }
}

/// Position `i` starts an instruction: it is not immediate data of a PUSH.
pub open spec fn is_instruction_start(code: Seq<u8>, i: nat) -> bool {
    skip_after(code, i) == 0
}

/// Position `i` may be jumped to: a JUMPDEST that starts an instruction.
pub open spec fn is_jump_dest(code: Seq<u8>, i: nat) -> bool {
    i < code.len() && is_instruction_start(code, i) && code[i as int] == 0x5b
}

/// For each position of a code, whether a jump may land there.
pub struct JumpMap {
    vals: Vec<bool>,
}

impl View for JumpMap {
    type V = Seq<bool>;

    closed spec fn view(&self) -> Seq<bool> {
        self.vals@
    }
}

impl JumpMap {
    /// The jump map of `code`.
    pub open spec fn of_code(code: Seq<u8>) -> Seq<bool> {
        Seq::new(code.len(), |i: int| is_jump_dest(code, i as nat))
    }

    pub fn new(code: &[u8]) -> (r: JumpMap)
        ensures
            r@ == Self::of_code(code@),
    {
        JumpMap { vals: Self::generate_map(code) }
    }

    fn generate_map(code: &[u8]) -> (r: Vec<bool>)
        ensures
            r@ == Self::of_code(code@),
    {
        let mut map: Vec<bool> = Vec::new();
        let mut skip: usize = 0;
        let mut i: usize = 0;
        while i < code.len()
            invariant
                i <= code@.len(),
                skip == skip_after(code@, i as nat),
                skip <= 32,
                map@ =~= Self::of_code(code@).subrange(0, i as int),
            decreases code@.len() - i,
        {
            let opcode = code[i];
            if skip > 0 {
                skip = skip - 1;
                map.push(false);
            } else if 0x60 <= opcode && opcode <= 0x7f {
                skip = (opcode - 0x5f) as usize;
                map.push(false);
            } else {
                map.push(opcode == 0x5b);
            }
            i = i + 1;
        }
        assert(Self::of_code(code@).subrange(0, code@.len() as int) =~= Self::of_code(code@));
        map
    }

    /// Whether `index` is a valid jump destination.
    pub fn is_valid(&self, index: Word) -> (r: bool)
        ensures
            r == (index.val() < self@.len() && self@[index.val() as int]),
    {
        let len = self.vals.len();
        match index.to_usize() {
            Some(i) => {
                if i < len {
                    self.vals[i]
                } else {
                    false
                }
            },
            None => false,
        }
    }
}

/// Within the immediate bytes of a PUSH that starts an instruction, there is
/// always something left to skip.
proof fn lemma_skip_within_push(code: Seq<u8>, j: nat, i: nat)
    requires
        j < code.len(),
        is_instruction_start(code, j),
        is_push(code[j as int]),
        j < i <= j + push_len(code[j as int]),
    ensures
        skip_after(code, i) == j + push_len(code[j as int]) + 1 - i,
    decreases i,
{
    if i > j + 1 {
        lemma_skip_within_push(code, j, (i - 1) as nat);
    }
}

/// A valid jump destination holds JUMPDEST and does not lie within the
/// immediate bytes of any PUSH instruction before it.
pub proof fn lemma_jump_dest_sound(code: Seq<u8>, i: nat)
    requires
        JumpMap::of_code(code).len() > i,
        JumpMap::of_code(code)[i as int],
    ensures
        code[i as int] == 0x5b,
        forall|j: nat|
            j < i && is_instruction_start(code, j) && is_push(#[trigger] code[j as int]) ==> i > j
                + push_len(code[j as int]),
{
    assert forall|j: nat|
        j < i && is_instruction_start(code, j) && is_push(#[trigger] code[j as int]) implies i > j
        + push_len(code[j as int]) by {
        if i <= j + push_len(code[j as int]) {
            lemma_skip_within_push(code, j, i);
        }
    }
}

} // verus!
