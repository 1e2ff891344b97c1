//! The opcode handlers and the dispatch from opcode byte to handler.

use crate::arith::{
    add_modulus, addmod_val, bitwise_not, byte, byte_val, div, div_val, mod_val, modulus,
    mul_modulus, mulmod_val, shift_arithmetic_right, shift_left, shift_right, sign_extend,
    signed_div, signed_gt, signed_lt, signed_modulus,
};
use crate::address::{create_address, keccak256, keccak256_of, rlp_address_nonce, Address};
use crate::block::Block;
use crate::context::Context;
use crate::helpers::{arr_slice_extend, exit_error, exit_success, slice_from, slice_padded};
use crate::machine::{
    run_frame, ControlFlow, EvmError, EvmResult, ExitReason, ExitSuccess, Log, Machine, MAX_CALL_DEPTH,
};
use crate::memory::{grown, memory_range, written, Memory, MEMORY_LIMIT};
use crate::opcode::Opcode;
use crate::stack::{
    lemma_dup_then_pop, lemma_push_then_pop, lemma_swap_twice, spec_dup, spec_peek, spec_pop, spec_push,
    spec_swap, STACK_LIMIT,
};
use crate::state::{balance_of, code_of};
use crate::storage::Storage;
use crate::word::{
    and, be_bytes, be_val, exp, from_big_endian, lemma_limbs_bounded, lemma_pow2_word,
    lemma_word_bounded, limbs_val, lt, magnitude, or, sar_val, sdiv_val, shl_val, shr_val,
    sign_extend_val, signed, smod_val, sub_val, to_big_endian, word_modulus, wrapping_add,
    wrapping_mul, wrapping_sub, xor, Word,
};
use vstd::arithmetic::div_mod::{lemma_div_nonincreasing, lemma_mod_pos_bound};
use vstd::arithmetic::power::pow;
use vstd::arithmetic::power2::pow2;
use vstd::prelude::*;

verus! {

/// The frame fails: too few words on the stack.
pub open spec fn underflow() -> ControlFlow {
    ControlFlow::Exit(ExitReason::Error(EvmError::StackUnderflow))
}

/// The frame fails: no room left on the stack.
pub open spec fn overflow() -> ControlFlow {
    ControlFlow::Exit(ExitReason::Error(EvmError::StackOverflow))
}

/// The frame fails: memory beyond the limit.
pub open spec fn resource_limit() -> ControlFlow {
    ControlFlow::Exit(ExitReason::Error(EvmError::ResourceLimit))
}

/// The item `i` places below the top of the frame's stack.
pub open spec fn arg(m: Machine, i: int) -> Word {
    spec_peek(m.stack@, i)
}

/// The frame's stack without its top `k` items.
pub open spec fn popped(m: Machine, k: int) -> Seq<Word> {
    m.stack@.subrange(0, m.stack@.len() - k)
}

/// Everything but the stack is as it was.
pub open spec fn same_but_stack(a: Machine, b: Machine) -> bool {
    &&& a.memory == b.memory
    &&& a.return_data_buffer == b.return_data_buffer
    &&& a.context == b.context
    &&& a.jump_map == b.jump_map
    &&& a.code == b.code
    &&& a.logs == b.logs
    &&& a.pc == b.pc
    &&& a.depth == b.depth
}

/// Everything but the stack and memory is as it was.
pub open spec fn same_but_stack_memory(a: Machine, b: Machine) -> bool {
    &&& a.return_data_buffer == b.return_data_buffer
    &&& a.context == b.context
    &&& a.jump_map == b.jump_map
    &&& a.code == b.code
    &&& a.logs == b.logs
    &&& a.pc == b.pc
    &&& a.depth == b.depth
}

/// The handler took `k` arguments and pushed a word of value `v`.
pub open spec fn replaces(old: Machine, new: Machine, r: ControlFlow, k: int, v: nat) -> bool {
    if old.stack@.len() < k {
        r == underflow() && new == old
    } else {
        &&& r == ControlFlow::Continue(1)
        &&& new.stack@.len() == old.stack@.len() - k + 1
        &&& new.stack@.drop_last() == popped(old, k)
        &&& new.stack@.last().val() == v
    }
}

/// The handler pushed a word of value `v`, if there was room.
pub open spec fn pushes(old: Machine, new: Machine, r: ControlFlow, v: nat) -> bool {
    if old.stack@.len() >= STACK_LIMIT {
        r == overflow() && new == old
    } else {
        &&& r == ControlFlow::Continue(1)
        &&& new.stack@.len() == old.stack@.len() + 1
        &&& new.stack@.drop_last() == old.stack@
        &&& new.stack@.last().val() == v
        &&& same_but_stack(new, old)
    }
}

/// The opcodes that pop two words and push one.
pub open spec fn is_binary(op: u8) -> bool {
    (0x01 <= op <= 0x07) || op == 0x0a || op == 0x0b || (0x10 <= op <= 0x14) || (0x16 <= op <= 0x18)
        || (0x1a <= op <= 0x1d)
}

/// The value a two-argument opcode computes from its first argument `a`
/// (the top of the stack) and its second `b`.
pub open spec fn binary_val(op: u8, a: Word, b: Word) -> nat {
    let (x, y) = (a.val(), b.val());
    if op == Opcode::ADD {
        (x + y) % word_modulus()
    } else if op == Opcode::MUL {
        (x * y) % word_modulus()
    } else if op == Opcode::SUB {
        sub_val(x, y)
    } else if op == Opcode::DIV {
        div_val(x, y)
    } else if op == Opcode::SDIV {
        sdiv_val(x, y)
    } else if op == Opcode::MOD {
        mod_val(x, y)
    } else if op == Opcode::SMOD {
        smod_val(x, y)
    } else if op == Opcode::EXP {
        (pow(x as int, y) % (word_modulus() as int)) as nat
    } else if op == Opcode::SIGNEXTEND {
        sign_extend_val(x, y)
    } else if op == Opcode::LT {
        if x < y { 1 } else { 0 }
    } else if op == Opcode::GT {
        if x > y { 1 } else { 0 }
    } else if op == Opcode::SLT {
        if signed(x) < signed(y) { 1 } else { 0 }
    } else if op == Opcode::SGT {
        if signed(x) > signed(y) { 1 } else { 0 }
    } else if op == Opcode::EQ {
        if x == y { 1 } else { 0 }
    } else if op == Opcode::AND {
        limbs_val(a.limbs[0] & b.limbs[0], a.limbs[1] & b.limbs[1], a.limbs[2] & b.limbs[2], a.limbs[3] & b.limbs[3])
    } else if op == Opcode::OR {
        limbs_val(a.limbs[0] | b.limbs[0], a.limbs[1] | b.limbs[1], a.limbs[2] | b.limbs[2], a.limbs[3] | b.limbs[3])
    } else if op == Opcode::XOR {
        limbs_val(a.limbs[0] ^ b.limbs[0], a.limbs[1] ^ b.limbs[1], a.limbs[2] ^ b.limbs[2], a.limbs[3] ^ b.limbs[3])
    } else if op == Opcode::BYTE {
        byte_val(x, y)
    } else if op == Opcode::SHL {
        shl_val(y, x)
    } else if op == Opcode::SHR {
        shr_val(y, x)
    } else {
        sar_val(y, x)
    }
}

/// The value of a two-argument opcode.
pub fn binary_value(op: u8, a: Word, b: Word) -> (r: Word)
    requires
        is_binary(op),
    ensures
        r.val() == binary_val(op, a, b),
{
    if op == Opcode::ADD {
        wrapping_add(a, b)
    } else if op == Opcode::MUL {
        wrapping_mul(a, b)
    } else if op == Opcode::SUB {
        wrapping_sub(a, b)
    } else if op == Opcode::DIV {
        div(a, b)
    } else if op == Opcode::SDIV {
        signed_div(a, b)
    } else if op == Opcode::MOD {
        modulus(a, b)
    } else if op == Opcode::SMOD {
        signed_modulus(a, b)
    } else if op == Opcode::EXP {
        exp(a, b)
    } else if op == Opcode::SIGNEXTEND {
        sign_extend(a, b)
    } else if op == Opcode::LT {
        Word::from_bool(lt(a, b))
    } else if op == Opcode::GT {
        Word::from_bool(lt(b, a))
    } else if op == Opcode::SLT {
        Word::from_bool(signed_lt(a, b))
    } else if op == Opcode::SGT {
        Word::from_bool(signed_gt(a, b))
    } else if op == Opcode::EQ {
        Word::from_bool(a.equals(&b))
    } else if op == Opcode::AND {
        and(a, b)
    } else if op == Opcode::OR {
        or(a, b)
    } else if op == Opcode::XOR {
        xor(a, b)
    } else if op == Opcode::BYTE {
        byte(a, b)
    } else if op == Opcode::SHL {
        shift_left(a, b)
    } else if op == Opcode::SHR {
        shift_right(a, b)
    } else {
        shift_arithmetic_right(a, b)
    }
}

/// Every two-argument opcode yields a value below 2^256.
pub proof fn lemma_binary_val_bounded(op: u8, a: Word, b: Word)
    requires
        is_binary(op),
    ensures
        binary_val(op, a, b) < word_modulus(),
{
    let (x, y) = (a.val(), b.val());
    let m = word_modulus();
    lemma_word_bounded(a);
    lemma_word_bounded(b);
    if op == Opcode::ADD {
        lemma_mod_pos_bound((x + y) as int, m as int);
    } else if op == Opcode::MUL {
        lemma_mod_pos_bound((x * y) as int, m as int);
    } else if op == Opcode::SUB {
        lemma_mod_pos_bound((x + m - y) as int, m as int);
    } else if op == Opcode::DIV {
        if y != 0 {
            lemma_div_nonincreasing(x as int, y as int);
        }
    } else if op == Opcode::SDIV {
        if magnitude(y) != 0 {
            lemma_div_nonincreasing(magnitude(x) as int, magnitude(y) as int);
        }
    } else if op == Opcode::MOD {
        if y != 0 {
            lemma_mod_pos_bound(x as int, y as int);
        }
    } else if op == Opcode::SMOD {
        if magnitude(y) != 0 {
            lemma_mod_pos_bound(magnitude(x) as int, magnitude(y) as int);
        }
    } else if op == Opcode::EXP {
        lemma_mod_pos_bound_int(pow(x as int, y), m as int);
    } else if op == Opcode::SIGNEXTEND {
        if x < 32 {
            let k = (8 * x + 7) as nat;
            lemma_pow2_word(k);
            lemma_mod_pos_bound(y as int, pow2(k) as int);
        }
    } else if op == Opcode::AND {
        lemma_limbs_bounded(a.limbs[0] & b.limbs[0], a.limbs[1] & b.limbs[1], a.limbs[2] & b.limbs[2], a.limbs[3] & b.limbs[3]);
    } else if op == Opcode::OR {
        lemma_limbs_bounded(a.limbs[0] | b.limbs[0], a.limbs[1] | b.limbs[1], a.limbs[2] | b.limbs[2], a.limbs[3] | b.limbs[3]);
    } else if op == Opcode::XOR {
        lemma_limbs_bounded(a.limbs[0] ^ b.limbs[0], a.limbs[1] ^ b.limbs[1], a.limbs[2] ^ b.limbs[2], a.limbs[3] ^ b.limbs[3]);
    } else if op == Opcode::BYTE {
        if x < 32 {
            lemma_mod_pos_bound_int((y / pow2(8 * (31 - x) as nat)) as int, 256);
        }
    } else if op == Opcode::SHL {
        if x < 256 {
            lemma_mod_pos_bound((y * pow2(x)) as int, m as int);
        }
    } else if op == Opcode::SHR {
        if x < 256 {
            lemma_pow2_word(x);
            lemma_div_nonincreasing(y as int, pow2(x) as int);
        }
    } else if op == Opcode::SAR {
        if x < 256 {
            lemma_pow2_word(x);
            lemma_div_nonincreasing(y as int, pow2(x) as int);
            lemma_div_nonincreasing(magnitude(y) as int, pow2(x) as int);
        }
    }
}

/// A remainder by a positive modulus is below it, for any integer.
proof fn lemma_mod_pos_bound_int(x: int, m: int)
    requires
        m > 0,
    ensures
        0 <= x % m < m,
{
    vstd::arithmetic::div_mod::lemma_mod_bound(x, m);
}

/// Pop one word; the caller has checked that there is one.
fn pop_word(m: &mut Machine) -> (r: Word)
    requires
        old(m).wf(),
        old(m).stack@.len() >= 1,
    ensures
        final(m).wf(),
        r == arg(*old(m), 0),
        final(m).stack@ == popped(*old(m), 1),
        same_but_stack(*final(m), *old(m)),
{
    let r = m.stack.pop();
    proof {
        assert(popped(*old(m), 1) =~= old(m).stack@.drop_last());
    }
    r.unwrap()
}

/// Push a word after popping at least one; there is room for it.
fn push_word(m: &mut Machine, v: Word)
    requires
        old(m).wf(),
        old(m).stack@.len() < STACK_LIMIT,
    ensures
        final(m).wf(),
        final(m).stack@ == old(m).stack@.push(v),
        final(m).stack@.drop_last() == old(m).stack@,
        final(m).stack@.last() == v,
        final(m).stack@.len() == old(m).stack@.len() + 1,
        same_but_stack(*final(m), *old(m)),
{
    let pushed = m.stack.push(v);
    proof {
        assert(pushed is Ok);
        assert(old(m).stack@.push(v).drop_last() =~= old(m).stack@);
    }
}

proof fn lemma_popped_more(m0: Machine, m1: Machine, k: int)
    requires
        m0.stack@.len() >= k + 1,
        k >= 0,
        m1.stack@ == popped(m0, k),
    ensures
        arg(m1, 0) == arg(m0, k),
        popped(m1, 1) == popped(m0, k + 1),
{
    assert(popped(m1, 1) =~= popped(m0, k + 1));
}

fn eval_binary(m: &mut Machine, op: u8) -> (r: ControlFlow)
    requires
        old(m).wf(),
        is_binary(op),
    ensures
        final(m).wf(),
        binary_effect(*old(m), *final(m), r, op),
{
    if m.stack.depth() < 2 {
        return exit_error(EvmError::StackUnderflow);
    }
    let ghost m0 = *m;
    let a = pop_word(m);
    let ghost m1 = *m;
    let b = pop_word(m);
    proof {
        lemma_popped_more(m0, m1, 1);
    }
    push_word(m, binary_value(op, a, b));
    ControlFlow::Continue(1)
}

/// ADDMOD, MULMOD, ISZERO, NOT, and BLOCKHASH (which reads as 0, no block
/// hashes being known).
pub open spec fn other_arith_val(op: u8, m: Machine) -> nat {
    if op == Opcode::ADDMOD {
        addmod_val(arg(m, 0).val(), arg(m, 1).val(), arg(m, 2).val())
    } else if op == Opcode::MULMOD {
        mulmod_val(arg(m, 0).val(), arg(m, 1).val(), arg(m, 2).val())
    } else if op == Opcode::ISZERO {
        if arg(m, 0).val() == 0 { 1 } else { 0 }
    } else if op == Opcode::BLOCKHASH {
        0
    } else {
        (word_modulus() - 1 - arg(m, 0).val()) as nat
    }
}

/// The number of words ADDMOD, MULMOD, ISZERO, NOT and BLOCKHASH pop.
pub open spec fn arity(op: u8) -> int {
    if op == Opcode::ADDMOD || op == Opcode::MULMOD { 3 } else { 1 }
}

/// ADDMOD, MULMOD, ISZERO, NOT and BLOCKHASH yield values below 2^256.
pub proof fn lemma_other_arith_val_bounded(op: u8, m: Machine)
    requires
        op == Opcode::ADDMOD || op == Opcode::MULMOD || op == Opcode::ISZERO || op == Opcode::NOT
            || op == Opcode::BLOCKHASH,
    ensures
        other_arith_val(op, m) < word_modulus(),
{
    let (x, y, n) = (arg(m, 0).val(), arg(m, 1).val(), arg(m, 2).val());
    lemma_word_bounded(arg(m, 2));
    if op == Opcode::ADDMOD && n != 0 {
        lemma_mod_pos_bound(((x + y) % word_modulus()) as int, n as int);
    } else if op == Opcode::MULMOD && n != 0 {
        lemma_mod_pos_bound((x * y) as int, n as int);
    }
}

fn eval_other_arith(m: &mut Machine, op: u8) -> (r: ControlFlow)
    requires
        old(m).wf(),
        op == Opcode::ADDMOD || op == Opcode::MULMOD || op == Opcode::ISZERO || op == Opcode::NOT
            || op == Opcode::BLOCKHASH,
    ensures
        final(m).wf(),
        other_arith_effect(*old(m), *final(m), r, op),
{
    let ghost m0 = *m;
    if op == Opcode::ADDMOD || op == Opcode::MULMOD {
        if m.stack.depth() < 3 {
            return exit_error(EvmError::StackUnderflow);
        }
        let a = pop_word(m);
        let ghost m1 = *m;
        let b = pop_word(m);
        proof { lemma_popped_more(m0, m1, 1); }
        let ghost m2 = *m;
        let n = pop_word(m);
        proof { lemma_popped_more(m0, m2, 2); }
        let v = if op == Opcode::ADDMOD { add_modulus(a, b, n) } else { mul_modulus(a, b, n) };
        push_word(m, v);
    } else {
        if m.stack.depth() < 1 {
            return exit_error(EvmError::StackUnderflow);
        }
        let a = pop_word(m);
        let v = if op == Opcode::ISZERO {
            Word::from_bool(a.is_zero())
        } else if op == Opcode::BLOCKHASH {
            Word::zero()
        } else {
            bitwise_not(a)
        };
        push_word(m, v);
    }
    ControlFlow::Continue(1)
}

/// Push a word computed by an opcode that takes no arguments.
fn push_result(m: &mut Machine, v: Word) -> (r: ControlFlow)
    requires
        old(m).wf(),
    ensures
        final(m).wf(),
        pushes(*old(m), *final(m), r, v.val()),
{
    if m.stack.depth() >= STACK_LIMIT {
        return exit_error(EvmError::StackOverflow);
    }
    push_word(m, v);
    ControlFlow::Continue(1)
}

fn eval_pop(m: &mut Machine) -> (r: ControlFlow)
    requires
        old(m).wf(),
    ensures
        final(m).wf(),
        pop_effect(*old(m), *final(m), r),
{
    if m.stack.depth() < 1 {
        return exit_error(EvmError::StackUnderflow);
    }
    pop_word(m);
    ControlFlow::Continue(1)
}

/// PUSHn: the `n` bytes after the opcode, read big-endian (zeros past the end of the code).
pub open spec fn push_data(code: Seq<u8>, pc: nat, n: nat) -> Seq<u8> {
    crate::helpers::slice_padded(code, pc + 1, n)
}

fn eval_push(m: &mut Machine) -> (r: ControlFlow)
    requires
        old(m).wf(),
        old(m).pc < old(m).code@.len(),
        Opcode::PUSH1 <= old(m).code@[old(m).pc as int] <= Opcode::PUSH32,
    ensures
        final(m).wf(),
        push_effect(*old(m), *final(m), r),
{
    let n = (m.opcode() - 0x5f) as usize;
    if m.stack.depth() >= STACK_LIMIT {
        return exit_error(EvmError::StackOverflow);
    }
    let code_len = m.code.len();
    proof {
        assert(m.pc < code_len);
    }
    let bytes = arr_slice_extend(m.code.as_slice(), m.pc + 1, n);
    let v = from_big_endian(bytes.as_slice());
    push_word(m, v);
    ControlFlow::Continue(n + 1)
}

fn eval_dup(m: &mut Machine) -> (r: ControlFlow)
    requires
        old(m).wf(),
        old(m).pc < old(m).code@.len(),
        Opcode::DUP1 <= old(m).code@[old(m).pc as int] <= Opcode::DUP16,
    ensures
        final(m).wf(),
        dup_effect(*old(m), *final(m), r),
{
    let n = (m.opcode() - 0x7f) as usize;
    match m.stack.peek(n - 1) {
        Ok(v) => {
            if m.stack.depth() >= STACK_LIMIT {
                return exit_error(EvmError::StackOverflow);
            }
            push_word(m, v);
            ControlFlow::Continue(1)
        },
        Err(e) => exit_error(e),
    }
}

fn eval_swap(m: &mut Machine) -> (r: ControlFlow)
    requires
        old(m).wf(),
        old(m).pc < old(m).code@.len(),
        Opcode::SWAP1 <= old(m).code@[old(m).pc as int] <= Opcode::SWAP16,
    ensures
        final(m).wf(),
        swap_effect(*old(m), *final(m), r),
{
    let n = (m.opcode() - 0x8f) as usize;
    let a = match m.stack.peek(0) {
        Ok(v) => v,
        Err(e) => return exit_error(e),
    };
    let b = match m.stack.peek(n) {
        Ok(v) => v,
        Err(e) => return exit_error(e),
    };
    let set_deep = m.stack.set(a, n);
    let set_top = m.stack.set(b, 0);
    proof {
        assert(set_deep is Ok && set_top is Ok);
        assert(m.stack@ =~= spec_swap(old(m).stack@, n as int));
    }
    ControlFlow::Continue(1)
}

fn eval_jump(m: &mut Machine, conditional: bool) -> (r: ControlFlow)
    requires
        old(m).wf(),
    ensures
        final(m).wf(),
        jump_effect(*old(m), *final(m), r, conditional),
{
    let ghost m0 = *m;
    let need: usize = if conditional { 2 } else { 1 };
    if m.stack.depth() < need {
        return exit_error(EvmError::StackUnderflow);
    }
    let dst = pop_word(m);
    if conditional {
        let ghost m1 = *m;
        let cond = pop_word(m);
        proof { lemma_popped_more(m0, m1, 1); }
        if cond.is_zero() {
            return ControlFlow::Continue(1);
        }
    }
    let code_len = m.code.len();
    proof {
        assert(m.jump_map@.len() == code_len);
    }
    if m.jump_map.is_valid(dst) {
        ControlFlow::Jump(dst.to_usize().unwrap())
    } else {
        exit_error(EvmError::InvalidJump)
    }
}

/// The value of a block constant: its last 32 bytes, big-endian.
pub open spec fn tail32(s: Seq<u8>) -> Seq<u8> {
    if s.len() > 32 {
        s.subrange(s.len() - 32, s.len() as int)
    } else {
        s
    }
}

/// A block constant as a word.
pub fn block_word(b: &[u8]) -> (r: Word)
    ensures
        r.val() == be_val(tail32(b@)),
{
    if b.len() > 32 {
        let tail = arr_slice_extend(b, b.len() - 32, 32);
        assert(tail@ =~= tail32(b@));
        from_big_endian(tail.as_slice())
    } else {
        from_big_endian(b)
    }
}

/// Write the `size` bytes of `src` from `offset`, zero-filled past its end,
/// at `dest` in memory.
pub fn copy_into_memory(memory: &mut Memory, src: &[u8], dest: Word, offset: Word, size: Word) -> (r: Result<(), EvmError>)
    requires
        old(memory).wf(),
    ensures
        final(memory).wf(),
        dest.val() + size.val() <= MEMORY_LIMIT ==> r is Ok
            && final(memory)@ == written(old(memory)@, dest.val(), slice_padded(src@, offset.val(), size.val())),
        dest.val() + size.val() > MEMORY_LIMIT ==> r == Err::<(), EvmError>(EvmError::ResourceLimit)
            && *final(memory) == *old(memory),
{
    match memory_range(dest, size) {
        Ok((d, n)) => {
            let bytes = slice_from(src, offset, n);
            memory.set(d, bytes.as_slice());
            Ok(())
        },
        Err(e) => Err(e),
    }
}

/// The bytes that a copy of `size` bytes of `src` from `offset` to `dest`
/// leaves in memory: the source bytes, then zeros past its end.
pub proof fn lemma_copy_contents(m: Seq<u8>, dest: nat, src: Seq<u8>, offset: nat, size: nat)
    ensures
        forall|i: int| 0 <= i < size ==> #[trigger] written(m, dest, slice_padded(src, offset, size))[dest + i]
            == if offset + i < src.len() { src[offset + i] } else { 0u8 },
        written(m, dest, slice_padded(src, offset, size)).len() >= dest + size,
{
}

/// The handler took `k` arguments, then needed memory up to `end`, beyond
/// the limit.
pub open spec fn over_limit(old: Machine, new: Machine, r: ControlFlow, k: int) -> bool {
    r == resource_limit() && new.stack@ == popped(old, k) && new.memory == old.memory
}

fn eval_mload(m: &mut Machine) -> (r: ControlFlow)
    requires
        old(m).wf(),
    ensures
        final(m).wf(),
        mload_effect(*old(m), *final(m), r),
{
    if m.stack.depth() < 1 {
        return exit_error(EvmError::StackUnderflow);
    }
    let off = pop_word(m);
    match memory_range(off, Word::from_usize(32)) {
        Ok((o, n)) => {
            let bytes = m.memory.get(o, n);
            push_word(m, from_big_endian(bytes.as_slice()));
            ControlFlow::Continue(1)
        },
        Err(e) => exit_error(e),
    }
}

fn eval_mstore(m: &mut Machine, single_byte: bool) -> (r: ControlFlow)
    requires
        old(m).wf(),
    ensures
        final(m).wf(),
        mstore_effect(*old(m), *final(m), r, single_byte),
{
    if m.stack.depth() < 2 {
        return exit_error(EvmError::StackUnderflow);
    }
    let ghost m0 = *m;
    let off = pop_word(m);
    let ghost m1 = *m;
    let v = pop_word(m);
    proof { lemma_popped_more(m0, m1, 1); }
    let full = to_big_endian(v);
    proof { crate::word::lemma_be_bytes_len(v.val(), 32); }
    let bytes = if single_byte {
        let b = vec![full[31]];
        proof {
            assert(b@ =~= seq![(v.val() % 256) as u8]);
        }
        b
    } else {
        full
    };
    match memory_range(off, Word::from_usize(bytes.len())) {
        Ok((o, n)) => {
            m.memory.set(o, bytes.as_slice());
            ControlFlow::Continue(1)
        },
        Err(e) => exit_error(e),
    }
}

fn eval_sload(m: &mut Machine, storage: &Storage) -> (r: ControlFlow)
    requires
        old(m).wf(),
        storage.wf(),
    ensures
        final(m).wf(),
        sload_effect(*old(m), *final(m), r, storage@),
{
    if m.stack.depth() < 1 {
        return exit_error(EvmError::StackUnderflow);
    }
    let key = pop_word(m);
    push_word(m, storage.get(&key));
    ControlFlow::Continue(1)
}

fn eval_sstore(m: &mut Machine, storage: &mut Storage) -> (r: ControlFlow)
    requires
        old(m).wf(),
        old(storage).wf(),
    ensures
        final(m).wf(),
        final(storage).wf(),
        sstore_effect(*old(m), *final(m), r, old(storage)@, final(storage)@),
{
    if m.stack.depth() < 2 {
        return exit_error(EvmError::StackUnderflow);
    }
    let ghost m0 = *m;
    let key = pop_word(m);
    let ghost m1 = *m;
    let value = pop_word(m);
    proof { lemma_popped_more(m0, m1, 1); }
    storage.put(key, value);
    ControlFlow::Continue(1)
}

/// RETURN and REVERT: the `size` bytes of memory at `offset`.
fn eval_return(m: &mut Machine, revert: bool) -> (r: ControlFlow)
    requires
        old(m).wf(),
    ensures
        final(m).wf(),
        return_effect(*old(m), *final(m), r, revert),
{
    if m.stack.depth() < 2 {
        return exit_error(EvmError::StackUnderflow);
    }
    let ghost m0 = *m;
    let off = pop_word(m);
    let ghost m1 = *m;
    let size = pop_word(m);
    proof { lemma_popped_more(m0, m1, 1); }
    match memory_range(off, size) {
        Ok((o, n)) => {
            let data = m.memory.get(o, n);
            if revert {
                exit_error(EvmError::Revert(data))
            } else {
                exit_success(ExitSuccess::Return(data))
            }
        },
        Err(e) => exit_error(e),
    }
}

fn eval_keccak256(m: &mut Machine) -> (r: ControlFlow)
    requires
        old(m).wf(),
    ensures
        final(m).wf(),
        keccak256_effect(*old(m), *final(m), r),
{
    if m.stack.depth() < 2 {
        return exit_error(EvmError::StackUnderflow);
    }
    let ghost m0 = *m;
    let off = pop_word(m);
    let ghost m1 = *m;
    let size = pop_word(m);
    proof { lemma_popped_more(m0, m1, 1); }
    match memory_range(off, size) {
        Ok((o, n)) => {
            let data = m.memory.get(o, n);
            let digest = keccak256(data.as_slice());
            push_word(m, from_big_endian(digest.as_slice()));
            ControlFlow::Continue(1)
        },
        Err(e) => exit_error(e),
    }
}

/// The words an opcode that reads the call context or the block pushes.
pub open spec fn environment_val(op: u8, m: Machine, block: Block) -> nat {
    if op == Opcode::ADDRESS {
        m.context.address.val()
    } else if op == Opcode::ORIGIN {
        m.context.origin.val()
    } else if op == Opcode::CALLER {
        m.context.caller.val()
    } else if op == Opcode::CALLVALUE {
        m.context.value.val()
    } else if op == Opcode::GASPRICE {
        m.context.gasprice.val()
    } else if op == Opcode::CALLDATASIZE {
        m.context.call_data@.len()
    } else if op == Opcode::CODESIZE {
        m.code@.len()
    } else if op == Opcode::RETURNDATASIZE {
        m.return_data_buffer@.len()
    } else if op == Opcode::SELFBALANCE {
        balance_of(m.context.state@, m.context.address)
    } else if op == Opcode::COINBASE {
        be_val(tail32(block.coinbase@))
    } else if op == Opcode::TIMESTAMP {
        be_val(tail32(block.timestamp@))
    } else if op == Opcode::NUMBER {
        be_val(tail32(block.number@))
    } else if op == Opcode::DIFFICULTY {
        be_val(tail32(block.difficulty@))
    } else if op == Opcode::GASLIMIT {
        be_val(tail32(block.gaslimit@))
    } else if op == Opcode::CHAINID {
        be_val(tail32(block.chainid@))
    } else if op == Opcode::BASEFEE {
        be_val(tail32(block.basefee@))
    } else if op == Opcode::PC {
        m.pc as nat
    } else if op == Opcode::MSIZE {
        m.memory@.len()
    } else {
        (word_modulus() - 1) as nat
    }
}

/// The opcodes that push a word read from the frame, its context or the block.
pub open spec fn is_environment_op(op: u8) -> bool {
    op == Opcode::ADDRESS || op == Opcode::ORIGIN || op == Opcode::CALLER || op == Opcode::CALLVALUE
        || op == Opcode::GASPRICE || op == Opcode::CALLDATASIZE || op == Opcode::CODESIZE
        || op == Opcode::RETURNDATASIZE || op == Opcode::SELFBALANCE || (Opcode::COINBASE <= op
        && op <= Opcode::BASEFEE && op != Opcode::SELFBALANCE) || op == Opcode::PC || op == Opcode::MSIZE
        || op == Opcode::GAS
}

/// ADDRESS, ORIGIN, CALLER, CALLVALUE, GASPRICE, CALLDATASIZE, CODESIZE,
/// RETURNDATASIZE, SELFBALANCE, the block constants, PC, MSIZE and GAS
/// (which always reads as the largest word).
fn eval_environment(m: &mut Machine, block: &Block, op: u8) -> (r: ControlFlow)
    requires
        old(m).wf(),
        is_environment_op(op),
    ensures
        final(m).wf(),
        pushes(*old(m), *final(m), r, environment_val(op, *old(m), *block)),
{
    let v = if op == Opcode::ADDRESS {
        m.context.address.to_word()
    } else if op == Opcode::ORIGIN {
        m.context.origin.to_word()
    } else if op == Opcode::CALLER {
        m.context.caller.to_word()
    } else if op == Opcode::CALLVALUE {
        m.context.value
    } else if op == Opcode::GASPRICE {
        m.context.gasprice
    } else if op == Opcode::CALLDATASIZE {
        m.context.calldata_size()
    } else if op == Opcode::CODESIZE {
        Word::from_usize(m.code.len())
    } else if op == Opcode::RETURNDATASIZE {
        Word::from_usize(m.return_data_buffer.len())
    } else if op == Opcode::SELFBALANCE {
        m.context.state.get_account_balance(&m.context.address)
    } else if op == Opcode::COINBASE {
        block_word(block.coinbase.as_slice())
    } else if op == Opcode::TIMESTAMP {
        block_word(block.timestamp.as_slice())
    } else if op == Opcode::NUMBER {
        block_word(block.number.as_slice())
    } else if op == Opcode::DIFFICULTY {
        block_word(block.difficulty.as_slice())
    } else if op == Opcode::GASLIMIT {
        block_word(block.gaslimit.as_slice())
    } else if op == Opcode::CHAINID {
        block_word(block.chainid.as_slice())
    } else if op == Opcode::BASEFEE {
        block_word(block.basefee.as_slice())
    } else if op == Opcode::PC {
        Word::from_usize(m.pc)
    } else if op == Opcode::MSIZE {
        Word::from_usize(m.memory.size())
    } else {
        Word::max_value()
    };
    push_result(m, v)
}

/// The address whose bytes are the low 160 bits of `w`.
pub open spec fn addresses(a: Address, w: Word) -> bool {
    a.bytes@ == be_bytes(w.val(), 20)
}

/// BALANCE, EXTCODESIZE, EXTCODEHASH and CALLDATALOAD: one argument in, one word out.
pub open spec fn lookup_val(op: u8, m: Machine, a: Address) -> nat {
    let s = m.context.state@;
    if op == Opcode::BALANCE {
        balance_of(s, a)
    } else if op == Opcode::EXTCODESIZE {
        code_of(s, a).len()
    } else if op == Opcode::EXTCODEHASH {
        if code_of(s, a).len() == 0 { 0 } else { be_val(keccak256_of(code_of(s, a))) }
    } else {
        be_val(slice_padded(m.context.call_data@, arg(m, 0).val(), 32))
    }
}

fn eval_lookup(m: &mut Machine, op: u8) -> (r: ControlFlow)
    requires
        old(m).wf(),
        op == Opcode::BALANCE || op == Opcode::EXTCODESIZE || op == Opcode::EXTCODEHASH || op == Opcode::CALLDATALOAD,
    ensures
        final(m).wf(),
        lookup_effect(*old(m), *final(m), r, op),
{
    if m.stack.depth() < 1 {
        return exit_error(EvmError::StackUnderflow);
    }
    let w = pop_word(m);
    let a = Address::from_word(w);
    let v = if op == Opcode::BALANCE {
        m.context.state.get_account_balance(&a)
    } else if op == Opcode::EXTCODESIZE {
        Word::from_usize(m.context.state.get_account_code(&a).len())
    } else if op == Opcode::EXTCODEHASH {
        let code = m.context.state.get_account_code(&a);
        if code.len() == 0 {
            Word::zero()
        } else {
            let digest = keccak256(code.as_slice());
            from_big_endian(digest.as_slice())
        }
    } else {
        m.context.load_calldata(w)
    };
    push_word(m, v);
    proof {
        assert forall|b: Address| addresses(b, arg(*old(m), 0)) implies b == a by {
            assert(b.bytes =~= a.bytes);
        }
    }
    ControlFlow::Continue(1)
}

/// CALLDATACOPY, CODECOPY, RETURNDATACOPY: the source of the copy.
pub open spec fn copy_source(op: u8, m: Machine) -> Seq<u8> {
    if op == Opcode::CALLDATACOPY {
        m.context.call_data@
    } else if op == Opcode::CODECOPY {
        m.code@
    } else {
        m.return_data_buffer@
    }
}

/// CALLDATACOPY, CODECOPY and RETURNDATACOPY: `(dest, offset, size)`; the
/// source bytes from `offset`, zero-filled past its end, land at `dest`.
fn eval_copy(m: &mut Machine, op: u8) -> (r: ControlFlow)
    requires
        old(m).wf(),
        op == Opcode::CALLDATACOPY || op == Opcode::CODECOPY || op == Opcode::RETURNDATACOPY,
    ensures
        final(m).wf(),
        copy_effect(*old(m), *final(m), r, op),
{
    if m.stack.depth() < 3 {
        return exit_error(EvmError::StackUnderflow);
    }
    let ghost m0 = *m;
    let dest = pop_word(m);
    let ghost m1 = *m;
    let offset = pop_word(m);
    proof { lemma_popped_more(m0, m1, 1); }
    let ghost m2 = *m;
    let size = pop_word(m);
    proof { lemma_popped_more(m0, m2, 2); }
    let res = if op == Opcode::CALLDATACOPY {
        copy_into_memory(&mut m.memory, m.context.call_data.as_slice(), dest, offset, size)
    } else if op == Opcode::CODECOPY {
        copy_into_memory(&mut m.memory, m.code.as_slice(), dest, offset, size)
    } else {
        copy_into_memory(&mut m.memory, m.return_data_buffer.as_slice(), dest, offset, size)
    };
    match res {
        Ok(()) => ControlFlow::Continue(1),
        Err(e) => exit_error(e),
    }
}

/// EXTCODECOPY: `(address, dest, offset, size)`; the account's code from
/// `offset`, zero-filled past its end, lands at `dest`.
fn eval_extcodecopy(m: &mut Machine) -> (r: ControlFlow)
    requires
        old(m).wf(),
    ensures
        final(m).wf(),
        extcodecopy_effect(*old(m), *final(m), r),
{
    if m.stack.depth() < 4 {
        return exit_error(EvmError::StackUnderflow);
    }
    let ghost m0 = *m;
    let w = pop_word(m);
    let ghost m1 = *m;
    let dest = pop_word(m);
    proof { lemma_popped_more(m0, m1, 1); }
    let ghost m2 = *m;
    let offset = pop_word(m);
    proof { lemma_popped_more(m0, m2, 2); }
    let ghost m3 = *m;
    let size = pop_word(m);
    proof { lemma_popped_more(m0, m3, 3); }
    let a = Address::from_word(w);
    let code = m.context.state.get_account_code(&a);
    proof {
        assert forall|b: Address| addresses(b, arg(*old(m), 0)) implies b == a by {
            assert(b.bytes =~= a.bytes);
        }
    }
    match copy_into_memory(&mut m.memory, code.as_slice(), dest, offset, size) {
        Ok(()) => ControlFlow::Continue(1),
        Err(e) => exit_error(e),
    }
}

/// LOGn: `(offset, size, topic1 .. topicn)`; a log of the memory slice and
/// the topics in the order popped.
fn eval_log(m: &mut Machine) -> (r: ControlFlow)
    requires
        old(m).wf(),
        old(m).pc < old(m).code@.len(),
        Opcode::LOG0 <= old(m).code@[old(m).pc as int] <= Opcode::LOG4,
    ensures
        final(m).wf(),
        log_effect(*old(m), *final(m), r),
{
    let n = (m.opcode() - 0xa0) as usize;
    if m.stack.depth() < 2 + n {
        return exit_error(EvmError::StackUnderflow);
    }
    let ghost m0 = *m;
    let off = pop_word(m);
    let ghost m1 = *m;
    let size = pop_word(m);
    proof { lemma_popped_more(m0, m1, 1); }
    match memory_range(off, size) {
        Ok((o, s)) => {
            let data = m.memory.get(o, s);
            let mut log = Log::new(m.context.address, data);
            let ghost mg = *m;
            let mut i: usize = 0;
            while i < n
                invariant
                    m.wf(),
                    i <= n,
                    n <= 4,
                    m0.stack@.len() >= 2 + n,
                    m.stack@ == popped(m0, 2 + i as int),
                    same_but_stack(*m, mg),
                    mg.logs == m0.logs,
                    mg.memory@ == grown(m0.memory@, (o + s) as nat),
                    log.address == m0.context.address,
                    log.data@ == m.memory@.subrange(o as int, o + s),
                    log.topics@.len() == i,
                    forall|j: int| 0 <= j < i ==> #[trigger] log.topics@[j] == arg(m0, 2 + j),
                decreases n - i,
            {
                let ghost mi = *m;
                let t = pop_word(m);
                proof {
                    lemma_popped_more(m0, mi, 2 + i as int);
                }
                log.add_topic(t);
                i = i + 1;
            }
            m.logs.push(log);
            proof {
                assert(m.logs@.drop_last() =~= m0.logs@);
            }
            ControlFlow::Continue(1)
        },
        Err(e) => exit_error(e),
    }
}

/// Hand back what a sub-frame returned: it becomes the return-data buffer,
/// and its first `ret_size` bytes (zero-filled) land at `ret_offset`.
fn take_return_data(m: &mut Machine, returned: Option<Vec<u8>>, ret_offset: usize, ret_size: usize)
    requires
        old(m).wf(),
        ret_offset + ret_size <= MEMORY_LIMIT,
    ensures
        final(m).wf(),
        final(m).stack == old(m).stack,
        final(m).context == old(m).context,
        final(m).logs == old(m).logs,
        final(m).code == old(m).code,
        final(m).jump_map == old(m).jump_map,
        final(m).pc == old(m).pc,
        final(m).depth == old(m).depth,
        returned matches Some(d) ==> final(m).return_data_buffer@ == d@
            && final(m).memory@ == written(old(m).memory@, ret_offset as nat, slice_padded(d@, 0, ret_size as nat)),
        returned is None ==> final(m).return_data_buffer@ == Seq::<u8>::empty() && final(m).memory == old(m).memory,
{
    match returned {
        Some(data) => {
            let region = arr_slice_extend(data.as_slice(), 0, ret_size);
            m.memory.set(ret_offset, region.as_slice());
            m.return_data_buffer = data;
        },
        None => {
            m.return_data_buffer = Vec::new();
        },
    }
}

/// CALL, DELEGATECALL and STATICCALL: run the code at the address in a new
/// frame on a copy of the state, and push whether it succeeded.
fn eval_call(m: &mut Machine, block: &Block, storage: &mut Storage, op: u8) -> (r: ControlFlow)
    requires
        old(m).wf(),
        old(storage).wf(),
        op == Opcode::CALL || op == Opcode::DELEGATECALL || op == Opcode::STATICCALL,
    ensures
        final(m).wf(),
        final(storage).wf(),
        call_effect(
            (MAX_CALL_DEPTH - old(m).depth) as nat,
            *old(m),
            *final(m),
            r,
            op,
            *block,
            old(storage)@,
            final(storage)@,
        ),
    decreases MAX_CALL_DEPTH - m.depth, 0nat,
{
    // A static frame refuses a CALL that carries value before anything else.
    if op == Opcode::CALL && m.context.is_static && m.stack.depth() >= 3 {
        match m.stack.peek(2) {
            Ok(v) => {
                if !v.is_zero() {
                    return exit_error(EvmError::OpcodeNotStatic(Opcode::CALL));
                }
            },
            Err(e) => return exit_error(e),
        }
    }
    let arity: usize = if op == Opcode::CALL { 7 } else { 6 };
    if m.stack.depth() < arity {
        return exit_error(EvmError::StackUnderflow);
    }
    let ghost m0 = *m;
    // The gas argument is taken and not used: gas is not metered.
    pop_word(m);
    let ghost m1 = *m;
    let target = pop_word(m);
    proof { lemma_popped_more(m0, m1, 1); }
    let value = if op == Opcode::CALL {
        let ghost m2 = *m;
        let v = pop_word(m);
        proof { lemma_popped_more(m0, m2, 2); }
        v
    } else if op == Opcode::DELEGATECALL {
        m.context.value
    } else {
        Word::zero()
    };
    let ghost base: int = call_base(op);
    let ghost m3 = *m;
    let args_offset = pop_word(m);
    proof { lemma_popped_more(m0, m3, base); }
    let ghost m4 = *m;
    let args_size = pop_word(m);
    proof { lemma_popped_more(m0, m4, base + 1); }
    let ghost m5 = *m;
    let ret_offset = pop_word(m);
    proof { lemma_popped_more(m0, m5, base + 2); }
    let ghost m6 = *m;
    let ret_size = pop_word(m);
    proof { lemma_popped_more(m0, m6, base + 3); }
    let (ao, asz) = match memory_range(args_offset, args_size) {
        Ok(range) => range,
        Err(e) => return exit_error(e),
    };
    let (ro, rsz) = match memory_range(ret_offset, ret_size) {
        Ok(range) => range,
        Err(e) => return exit_error(e),
    };
    let data = m.memory.get(ao, asz);
    let address = Address::from_word(target);
    let code = m.context.state.get_account_code(&address);
    if m.depth >= MAX_CALL_DEPTH {
        take_return_data(m, None, ro, rsz);
        push_word(m, Word::zero());
        return ControlFlow::Continue(1);
    }
    let context = if op == Opcode::CALL {
        Context::new(address, m.context.address, m.context.origin, m.context.gasprice, value, data, m.context.state.copy(), false)
    } else if op == Opcode::DELEGATECALL {
        Context::new(m.context.address, m.context.caller, m.context.origin, m.context.gasprice, value, data, m.context.state.copy(), false)
    } else {
        Context::new(address, m.context.address, m.context.origin, m.context.gasprice, value, data, m.context.state.copy(), true)
    };
    let ghost ctx = context;
    proof {
        assert(callee_context(op, *old(m), ctx, address));
    }
    let ghost s_in;
    let ghost s_out;
    let mut result = if op == Opcode::DELEGATECALL {
        let mut shared = storage.copy();
        proof { s_in = shared@; }
        let res = run_frame(code.as_slice(), context, block, &mut shared, m.depth + 1);
        proof { s_out = shared@; }
        if res.success {
            *storage = shared;
        }
        res
    } else {
        let mut fresh = Storage::new();
        proof { s_in = fresh@; }
        let res = run_frame(code.as_slice(), context, block, &mut fresh, m.depth + 1);
        proof { s_out = fresh@; }
        res
    };
    let ghost rr = result;
    let returned = result.return_val;
    take_return_data(m, returned, ro, rsz);
    if result.success {
        m.context.state = result.state;
        m.logs.append(&mut result.logs);
        push_word(m, Word::one());
    } else {
        push_word(m, Word::zero());
    }
    proof {
        assert(call_outcome(op, *old(m), *m, ControlFlow::Continue(1), old(storage)@, storage@, rr, s_in, s_out));
        assert(frame_result(
            (MAX_CALL_DEPTH - old(m).depth) as nat,
            code_of(old(m).context.state@, address),
            ctx,
            *block,
            s_in,
            rr,
            s_out,
            (old(m).depth + 1) as usize,
        ));
    }
    ControlFlow::Continue(1)
}

/// CREATE: run the memory slice as init code in a new frame at the derived
/// address; on success adopt its state, credit the value, install the
/// returned code and push the address; on failure push 0.
fn eval_create(m: &mut Machine, block: &Block) -> (r: ControlFlow)
    requires
        old(m).wf(),
    ensures
        final(m).wf(),
        create_effect((MAX_CALL_DEPTH - old(m).depth) as nat, *old(m), *final(m), r, *block),
    decreases MAX_CALL_DEPTH - m.depth, 0nat,
{
    if m.stack.depth() < 3 {
        return exit_error(EvmError::StackUnderflow);
    }
    let ghost m0 = *m;
    let value = pop_word(m);
    let ghost m1 = *m;
    let offset = pop_word(m);
    proof { lemma_popped_more(m0, m1, 1); }
    let ghost m2 = *m;
    let size = pop_word(m);
    proof { lemma_popped_more(m0, m2, 2); }
    let (o, n) = match memory_range(offset, size) {
        Ok(range) => range,
        Err(e) => return exit_error(e),
    };
    let init_code = m.memory.get(o, n);
    let address = create_address(&m.context.address, Word::zero());
    if m.depth >= MAX_CALL_DEPTH {
        push_word(m, Word::zero());
        return ControlFlow::Continue(1);
    }
    let context = Context::new(address, m.context.address, m.context.origin, m.context.gasprice, value, Vec::new(), m.context.state.copy(), false);
    let ghost ctx = context;
    proof {
        assert(create_context(*old(m), ctx, address));
    }
    let mut fresh = Storage::new();
    let ghost s_in = fresh@;
    let mut result = run_frame(init_code.as_slice(), context, block, &mut fresh, m.depth + 1);
    let ghost rr = result;
    let ghost w = (rr, fresh@);
    if !result.success {
        push_word(m, Word::zero());
        proof {
            assert(create_outcome(*old(m), *m, w.0, address));
            assert(s_in == Map::<Word, Word>::empty());
        }
        return ControlFlow::Continue(1);
    }
    m.context.state = result.state;
    let code = match result.return_val {
        Some(code) => code,
        None => Vec::new(),
    };
    m.context.state.add_or_update_account(address, value, code);
    m.logs.append(&mut result.logs);
    push_word(m, address.to_word());
    proof {
        assert(create_outcome(*old(m), *m, w.0, address));
        assert(s_in == Map::<Word, Word>::empty());
    }
    ControlFlow::Continue(1)
}

/// SELFDESTRUCT `(beneficiary)`: remove the executing account and credit
/// its balance, plus the frame's value, to the beneficiary.
fn eval_selfdestruct(m: &mut Machine) -> (r: ControlFlow)
    requires
        old(m).wf(),
    ensures
        final(m).wf(),
        selfdestruct_effect(*old(m), *final(m), r),
{
    if m.stack.depth() < 1 {
        return exit_error(EvmError::StackUnderflow);
    }
    let target = pop_word(m);
    let here = m.context.address;
    let balance = m.context.state.destruct_account(&here);
    let beneficiary = Address::from_word(target);
    m.context.state.increment_balance(beneficiary, wrapping_add(balance, m.context.value));
    proof {
        assert forall|a: Address| #[trigger] addresses(a, arg(*old(m), 0)) implies a == beneficiary by {
            assert(a.bytes =~= beneficiary.bytes);
        }
    }
    ControlFlow::Continue(1)
}

/// The effect of a two-argument opcode: two words popped, the result pushed.
pub open spec fn binary_effect(old: Machine, new: Machine, r: ControlFlow, op: u8) -> bool {
    &&& replaces(old, new, r, 2, binary_val(op, arg(old, 0), arg(old, 1)))
    &&& same_but_stack(new, old)
}

/// The effect of ADDMOD, MULMOD, ISZERO, NOT, BLOCKHASH.
pub open spec fn other_arith_effect(old: Machine, new: Machine, r: ControlFlow, op: u8) -> bool {
    &&& replaces(old, new, r, arity(op), other_arith_val(op, old))
    &&& same_but_stack(new, old)
}

/// The effect of POP.
pub open spec fn pop_effect(old: Machine, new: Machine, r: ControlFlow) -> bool {
    &&& (old.stack@.len() == 0 ==> r == underflow() && new == old)
    &&& (old.stack@.len() > 0 ==> r == ControlFlow::Continue(1) && new.stack@ == spec_pop(old.stack@))
    &&& same_but_stack(new, old)
}

/// The effect of PUSHn.
pub open spec fn push_effect(old: Machine, new: Machine, r: ControlFlow) -> bool {
    &&& same_but_stack(new, old)
    &&& ({
            let n = (old.code@[old.pc as int] - 0x5f) as nat;
            if old.stack@.len() >= STACK_LIMIT {
                r == overflow() && new == old
            } else {
                r == ControlFlow::Continue((n + 1) as usize)
                    && new.stack@ == spec_push(old.stack@, new.stack@.last())
                    && new.stack@.last().val() == be_val(push_data(old.code@, old.pc as nat, n))
            }
        })
}

/// The effect of DUPn.
pub open spec fn dup_effect(old: Machine, new: Machine, r: ControlFlow) -> bool {
    &&& same_but_stack(new, old)
    &&& ({
            let n = (old.code@[old.pc as int] - 0x7f) as int;
            if old.stack@.len() < n {
                r == underflow() && new == old
            } else if old.stack@.len() >= STACK_LIMIT {
                r == overflow() && new == old
            } else {
                r == ControlFlow::Continue(1) && new.stack@ == spec_dup(old.stack@, n)
            }
        })
}

/// The effect of SWAPn.
pub open spec fn swap_effect(old: Machine, new: Machine, r: ControlFlow) -> bool {
    &&& same_but_stack(new, old)
    &&& ({
            let n = (old.code@[old.pc as int] - 0x8f) as int;
            if old.stack@.len() <= n {
                r == underflow() && new == old
            } else {
                r == ControlFlow::Continue(1) && new.stack@ == spec_swap(old.stack@, n)
            }
        })
}

/// The effect of JUMP, and JUMPI when `conditional`.
pub open spec fn jump_effect(old: Machine, new: Machine, r: ControlFlow, conditional: bool) -> bool {
    &&& same_but_stack(new, old)
    &&& ({
            let k: int = if conditional { 2 } else { 1 };
            let dst = arg(old, 0);
            if old.stack@.len() < k {
                r == underflow() && new == old
            } else {
                &&& new.stack@ == popped(old, k)
                &&& if conditional && arg(old, 1).val() == 0 {
                    r == ControlFlow::Continue(1)
                } else if dst.val() < old.jump_map@.len() && old.jump_map@[dst.val() as int] {
                    r == ControlFlow::Jump(dst.val() as usize)
                } else {
                    r == ControlFlow::Exit(ExitReason::Error(EvmError::InvalidJump))
                }
            }
        })
}

/// The effect of MLOAD.
pub open spec fn mload_effect(old: Machine, new: Machine, r: ControlFlow) -> bool {
    &&& same_but_stack_memory(new, old)
    &&& (old.stack@.len() < 1 ==> r == underflow() && new == old)
    &&& (old.stack@.len() >= 1 ==> ({
            let off = arg(old, 0).val();
            if off + 32 > MEMORY_LIMIT {
                over_limit(old, new, r, 1)
            } else {
                &&& r == ControlFlow::Continue(1)
                &&& new.memory@ == grown(old.memory@, off + 32)
                &&& new.stack@.drop_last() == popped(old, 1)
                &&& new.stack@.last().val() == be_val(new.memory@.subrange(off as int, (off + 32) as int))
            }
        }))
}

/// The effect of MSTORE, and MSTORE8 when `single_byte`.
pub open spec fn mstore_effect(old: Machine, new: Machine, r: ControlFlow, single_byte: bool) -> bool {
    &&& same_but_stack_memory(new, old)
    &&& (old.stack@.len() < 2 ==> r == underflow() && new == old)
    &&& (old.stack@.len() >= 2 ==> ({
            let off = arg(old, 0).val();
            let v = arg(old, 1).val();
            let bytes = if single_byte { seq![(v % 256) as u8] } else { be_bytes(v, 32) };
            if off + bytes.len() > MEMORY_LIMIT {
                over_limit(old, new, r, 2)
            } else {
                &&& r == ControlFlow::Continue(1)
                &&& new.memory@ == written(old.memory@, off, bytes)
                &&& new.stack@ == popped(old, 2)
            }
        }))
}

/// The effect of SLOAD, reading storage `s0`.
pub open spec fn sload_effect(old: Machine, new: Machine, r: ControlFlow, s0: Map<Word, Word>) -> bool {
    &&& same_but_stack(new, old)
    &&& replaces(old, new, r, 1,
            if s0.contains_key(arg(old, 0)) { s0[arg(old, 0)].val() } else { 0 })
}

/// The effect of SSTORE, taking storage `s0` to `s1`.
pub open spec fn sstore_effect(old: Machine, new: Machine, r: ControlFlow, s0: Map<Word, Word>, s1: Map<Word, Word>) -> bool {
    &&& same_but_stack(new, old)
    &&& (old.stack@.len() < 2 ==> r == underflow() && new == old && s1 == s0)
    &&& (old.stack@.len() >= 2 ==> r == ControlFlow::Continue(1) && new.stack@ == popped(old, 2)
            && s1 == s0.insert(arg(old, 0), arg(old, 1)))
}

/// The effect of RETURN, and REVERT when `revert`.
pub open spec fn return_effect(old: Machine, new: Machine, r: ControlFlow, revert: bool) -> bool {
    &&& same_but_stack_memory(new, old)
    &&& (old.stack@.len() < 2 ==> r == underflow() && new == old)
    &&& (old.stack@.len() >= 2 ==> ({
            let off = arg(old, 0).val();
            let size = arg(old, 1).val();
            if off + size > MEMORY_LIMIT {
                over_limit(old, new, r, 2)
            } else {
                &&& new.memory@ == grown(old.memory@, off + size)
                &&& new.stack@ == popped(old, 2)
                &&& if revert {
                    r matches ControlFlow::Exit(ExitReason::Error(EvmError::Revert(d)))
                        && d@ == new.memory@.subrange(off as int, (off + size) as int)
                } else {
                    r matches ControlFlow::Exit(ExitReason::Success(ExitSuccess::Return(d)))
                        && d@ == new.memory@.subrange(off as int, (off + size) as int)
                }
            }
        }))
}

/// The effect of KECCAK256.
pub open spec fn keccak256_effect(old: Machine, new: Machine, r: ControlFlow) -> bool {
    &&& same_but_stack_memory(new, old)
    &&& (old.stack@.len() < 2 ==> r == underflow() && new == old)
    &&& (old.stack@.len() >= 2 ==> ({
            let off = arg(old, 0).val();
            let size = arg(old, 1).val();
            if off + size > MEMORY_LIMIT {
                over_limit(old, new, r, 2)
            } else {
                &&& r == ControlFlow::Continue(1)
                &&& new.memory@ == grown(old.memory@, off + size)
                &&& new.stack@.drop_last() == popped(old, 2)
                &&& new.stack@.last().val() == be_val(
                    keccak256_of(new.memory@.subrange(off as int, (off + size) as int)),
                )
            }
        }))
}

/// The effect of BALANCE, EXTCODESIZE, EXTCODEHASH, CALLDATALOAD.
pub open spec fn lookup_effect(old: Machine, new: Machine, r: ControlFlow, op: u8) -> bool {
    &&& same_but_stack(new, old)
    &&& (forall|a: Address| addresses(a, arg(old, 0))
            ==> replaces(old, new, r, 1, #[trigger] lookup_val(op, old, a)))
    &&& (old.stack@.len() < 1 ==> r == underflow() && new == old)
}

/// The effect of CALLDATACOPY, CODECOPY, RETURNDATACOPY.
pub open spec fn copy_effect(old: Machine, new: Machine, r: ControlFlow, op: u8) -> bool {
    &&& same_but_stack_memory(new, old)
    &&& (old.stack@.len() < 3 ==> r == underflow() && new == old)
    &&& (old.stack@.len() >= 3 ==> ({
            let dest = arg(old, 0).val();
            let offset = arg(old, 1).val();
            let size = arg(old, 2).val();
            if dest + size > MEMORY_LIMIT {
                over_limit(old, new, r, 3)
            } else {
                &&& r == ControlFlow::Continue(1)
                &&& new.stack@ == popped(old, 3)
                &&& new.memory@ == written(old.memory@, dest, slice_padded(copy_source(op, old), offset, size))
            }
        }))
}

/// The effect of EXTCODECOPY.
pub open spec fn extcodecopy_effect(old: Machine, new: Machine, r: ControlFlow) -> bool {
    &&& same_but_stack_memory(new, old)
    &&& (old.stack@.len() < 4 ==> r == underflow() && new == old)
    &&& (old.stack@.len() >= 4 ==> ({
            let dest = arg(old, 1).val();
            let offset = arg(old, 2).val();
            let size = arg(old, 3).val();
            if dest + size > MEMORY_LIMIT {
                over_limit(old, new, r, 4)
            } else {
                &&& r == ControlFlow::Continue(1)
                &&& new.stack@ == popped(old, 4)
                &&& forall|a: Address| addresses(a, arg(old, 0)) ==> new.memory@ == written(
                    old.memory@,
                    dest,
                    slice_padded(#[trigger] code_of(old.context.state@, a), offset, size),
                )
            }
        }))
}

/// The effect of LOGn.
pub open spec fn log_effect(old: Machine, new: Machine, r: ControlFlow) -> bool {
    &&& new.return_data_buffer == old.return_data_buffer
    &&& new.context == old.context
    &&& new.code == old.code
    &&& new.jump_map == old.jump_map
    &&& new.pc == old.pc
    &&& new.depth == old.depth
    &&& (({
            let n = (old.code@[old.pc as int] - 0xa0) as int;
            let off = arg(old, 0).val();
            let size = arg(old, 1).val();
            if old.stack@.len() < 2 + n {
                r == underflow() && new == old
            } else if off + size > MEMORY_LIMIT {
                over_limit(old, new, r, 2) && new.logs == old.logs
            } else {
                &&& r == ControlFlow::Continue(1)
                &&& new.stack@ == popped(old, 2 + n)
                &&& new.memory@ == grown(old.memory@, off + size)
                &&& new.logs@.len() == old.logs@.len() + 1
                &&& new.logs@.drop_last() == old.logs@
                &&& new.logs@.last().address == old.context.address
                &&& new.logs@.last().data@ == new.memory@.subrange(off as int, (off + size) as int)
                &&& new.logs@.last().topics@.len() == n
                &&& forall|i: int| 0 <= i < n ==> #[trigger] new.logs@.last().topics@[i] == arg(old, 2 + i)
            }
        }))
}

/// A sub-call that failed, and so pushed 0, leaves the caller's state, logs
/// and storage as they were, and its stack as it was but for the arguments
/// taken and the 0 pushed.
pub proof fn lemma_failed_call_rolls_back(
    k: nat,
    op: u8,
    old: Machine,
    new: Machine,
    r: ControlFlow,
    block: Block,
    s0: Map<Word, Word>,
    s1: Map<Word, Word>,
)
    requires
        op == Opcode::CALL || op == Opcode::DELEGATECALL || op == Opcode::STATICCALL,
        call_effect(k, old, new, r, op, block, s0, s1),
        r is Continue,
        new.stack@.last().val() == 0,
    ensures
        new.context.state@ == old.context.state@,
        new.logs@ == old.logs@,
        s1 == s0,
        new.stack@.drop_last() == popped(old, call_arity(op)),
{
}

/// A PUSHn that went on, then a POP on the stack it left, gives back the
/// stack as it was before the PUSHn.
pub proof fn lemma_push_then_pop_frames(
    m0: Machine,
    m1: Machine,
    r1: ControlFlow,
    m2: Machine,
    m3: Machine,
    r2: ControlFlow,
)
    requires
        push_effect(m0, m1, r1),
        r1 is Continue,
        m2.stack@ == m1.stack@,
        pop_effect(m2, m3, r2),
    ensures
        r2 == ControlFlow::Continue(1),
        m3.stack@ == m0.stack@,
{
    lemma_push_then_pop(m0.stack@, m1.stack@.last());
}

/// A DUPn that went on, then a POP on the stack it left, gives back the
/// stack as it was before the DUPn.
pub proof fn lemma_dup_then_pop_frames(
    m0: Machine,
    m1: Machine,
    r1: ControlFlow,
    m2: Machine,
    m3: Machine,
    r2: ControlFlow,
)
    requires
        m0.pc < m0.code@.len(),
        Opcode::DUP1 <= m0.code@[m0.pc as int] <= Opcode::DUP16,
        dup_effect(m0, m1, r1),
        r1 is Continue,
        m2.stack@ == m1.stack@,
        pop_effect(m2, m3, r2),
    ensures
        r2 == ControlFlow::Continue(1),
        m3.stack@ == m0.stack@,
{
    lemma_dup_then_pop(m0.stack@, (m0.code@[m0.pc as int] - 0x7f) as int);
}

/// The same SWAPn twice, each going on, gives back the stack.
pub proof fn lemma_swap_twice_frames(
    m0: Machine,
    m1: Machine,
    r1: ControlFlow,
    m2: Machine,
    m3: Machine,
    r2: ControlFlow,
)
    requires
        m0.pc < m0.code@.len(),
        m2.pc < m2.code@.len(),
        Opcode::SWAP1 <= m0.code@[m0.pc as int] <= Opcode::SWAP16,
        m2.code@[m2.pc as int] == m0.code@[m0.pc as int],
        swap_effect(m0, m1, r1),
        r1 is Continue,
        m2.stack@ == m1.stack@,
        swap_effect(m2, m3, r2),
    ensures
        r2 == ControlFlow::Continue(1),
        m3.stack@ == m0.stack@,
{
    lemma_swap_twice(m0.stack@, (m0.code@[m0.pc as int] - 0x8f) as int);
}

/// An MSTORE of `v` at `off` that went on, then an MLOAD of `off` on the
/// memory it left, pushes `v`.
pub proof fn lemma_mstore_then_mload_frames(
    m0: Machine,
    m1: Machine,
    r1: ControlFlow,
    m2: Machine,
    m3: Machine,
    r2: ControlFlow,
)
    requires
        mstore_effect(m0, m1, r1, false),
        r1 is Continue,
        m2.memory@ == m1.memory@,
        m2.stack@.len() >= 1,
        arg(m2, 0) == arg(m0, 0),
        mload_effect(m2, m3, r2),
    ensures
        r2 == ControlFlow::Continue(1),
        m3.stack@.last() == arg(m0, 1),
{
    let off = arg(m0, 0).val();
    let v = arg(m0, 1);
    crate::word::lemma_be_bytes_len(v.val(), 32);
    crate::memory::lemma_store_then_load(m0.memory@, off, v);
    crate::word::lemma_word_val_injective(m3.stack@.last(), v);
}

/// Where the program counter goes after an instruction with outcome `r`.
pub open spec fn next_pc(pc: usize, r: ControlFlow) -> usize {
    match r {
        ControlFlow::Continue(n) => if n <= usize::MAX - pc { (pc + n) as usize } else { usize::MAX },
        ControlFlow::Jump(p) => p,
        ControlFlow::Exit(_) => pc,
    }
}

/// Frame `b` is frame `c` with its program counter moved as `r` says.
pub open spec fn moved(c: Machine, b: Machine, r: ControlFlow) -> bool {
    &&& b.stack == c.stack
    &&& b.memory == c.memory
    &&& b.return_data_buffer == c.return_data_buffer
    &&& b.context == c.context
    &&& b.jump_map == c.jump_map
    &&& b.code == c.code
    &&& b.logs == c.logs
    &&& b.depth == c.depth
    &&& b.pc == next_pc(c.pc, r)
}

/// Result `r` reports frame `f`: its stack top first, its logs and its state.
pub open spec fn reports(r: EvmResult, f: Machine) -> bool {
    &&& r.stack@ == f.stack@.reverse()
    &&& r.logs@ == f.logs@
    &&& r.state@ == f.context.state@
}

/// The result of a frame that ended with `reason`.
pub open spec fn exit_result(reason: ExitReason, r: EvmResult) -> bool {
    match reason {
        ExitReason::Success(ExitSuccess::Stop) => r.success && r.return_val is None,
        ExitReason::Success(ExitSuccess::Return(d)) => r.success && r.return_val == Some(d),
        ExitReason::Error(e) => !r.success && r.error == Some(e),
    }
}

/// A frame as it starts: `code` in `context` at `depth`, with nothing on
/// its stack, in its memory, its logs or its return-data buffer.
pub open spec fn is_initial(m: Machine, code: Seq<u8>, context: Context, depth: usize) -> bool {
    &&& m.wf()
    &&& m.code@ == code
    &&& m.pc == 0
    &&& m.depth == depth
    &&& m.stack@ == Seq::<Word>::empty()
    &&& m.memory@ == Seq::<u8>::empty()
    &&& m.logs@ == Seq::<Log>::empty()
    &&& m.return_data_buffer@ == Seq::<u8>::empty()
    &&& m.context == context
}

/// The payload a frame result carries, or nothing.
pub open spec fn payload(r: EvmResult) -> Seq<u8> {
    match r.return_val {
        Some(d) => d@,
        None => Seq::empty(),
    }
}

/// The instruction at the program counter of frame `a`, with storage `sa`,
/// has outcome `r` and leaves frame `c` (before the program counter moves)
/// and storage `sc`. Sub-calls may nest `k - 1` frames deeper.
pub open spec fn instruction(
    k: nat,
    a: Machine,
    sa: Map<Word, Word>,
    c: Machine,
    sc: Map<Word, Word>,
    r: ControlFlow,
    block: Block,
) -> bool
    decreases k, 0nat, 3nat,
{
    let op = a.code@[a.pc as int];
    &&& a.pc < a.code@.len()
    &&& if a.context.is_static && !Opcode::spec_is_static(op) {
        r == ControlFlow::Exit(ExitReason::Error(EvmError::OpcodeNotStatic(op))) && c == a && sc == sa
    } else {
        opcode_effect(k, op, a, c, r, block, sa, sc)
    }
}

/// Frame `b` with storage `sb` follows from frame `a` with storage `sa` by
/// `n` instructions, none of which ended the frame.
pub open spec fn runs(
    k: nat,
    a: Machine,
    sa: Map<Word, Word>,
    b: Machine,
    sb: Map<Word, Word>,
    block: Block,
    n: nat,
) -> bool
    decreases k, n, 4nat,
{
    if n == 0 {
        b == a && sb == sa
    } else {
        exists|w: (Machine, Map<Word, Word>, Machine, ControlFlow)|
            #[trigger] moved(w.2, b, w.3) && runs(k, a, sa, w.0, w.1, block, (n - 1) as nat) && w.0.pc
                < w.0.code@.len() && instruction(k, w.0, w.1, w.2, sb, w.3, block) && !(w.3 is Exit)
    }
}

/// How a run of `n` instructions that reached frame `last` with storage
/// `sl` ended, with result `r` and storage `s`: it ran off the end of its
/// code, spent the whole step budget, or its next instruction stopped,
/// returned or failed.
pub open spec fn ends(
    k: nat,
    last: Machine,
    sl: Map<Word, Word>,
    r: EvmResult,
    s: Map<Word, Word>,
    block: Block,
    n: nat,
) -> bool
    decreases k, 0nat, 4nat,
{
    ||| last.pc >= last.code@.len() && s == sl && reports(r, last) && r.success && r.return_val is None
    ||| n == usize::MAX && last.pc < last.code@.len() && s == sl && reports(r, last) && !r.success && r.error == Some(EvmError::ResourceLimit)
        && r.return_val is None
    ||| exists|w: (Machine, ExitReason)|
        #[trigger] reports(r, w.0) && instruction(k, last, sl, w.0, s, ControlFlow::Exit(w.1), block)
            && exit_result(w.1, r)
}

/// Result `r` and storage `s_out` are what a frame gives that runs `code`
/// in `ctx` at `depth` from storage `s_in`: a run from its initial frame,
/// and how that run ended. Its own sub-calls may nest `k - 2` frames deeper.
pub open spec fn frame_result(
    k: nat,
    code: Seq<u8>,
    ctx: Context,
    block: Block,
    s_in: Map<Word, Word>,
    r: EvmResult,
    s_out: Map<Word, Word>,
    depth: usize,
) -> bool
    decreases k, 0nat, 0nat,
{
    k > 0 && exists|w: (Machine, nat, Machine, Map<Word, Word>)|
        #[trigger] is_initial(w.0, code, ctx, depth) && runs((k - 1) as nat, w.0, s_in, w.2, w.3, block, w.1)
            && ends((k - 1) as nat, w.2, w.3, r, s_out, block, w.1)
}

/// A run followed by one more instruction that does not end the frame is a run.
pub proof fn lemma_runs_extend(
    k: nat,
    a: Machine,
    sa: Map<Word, Word>,
    mid: Machine,
    sm: Map<Word, Word>,
    c: Machine,
    b: Machine,
    sb: Map<Word, Word>,
    r: ControlFlow,
    block: Block,
    n: nat,
)
    requires
        runs(k, a, sa, mid, sm, block, n),
        mid.pc < mid.code@.len(),
        instruction(k, mid, sm, c, sb, r, block),
        !(r is Exit),
        moved(c, b, r),
    ensures
        runs(k, a, sa, b, sb, block, n + 1),
{
    let w = (mid, sm, c, r);
    assert(moved(w.2, b, w.3));
    assert(runs(k, a, sa, w.0, w.1, block, ((n + 1) - 1) as nat));
}

/// Everything in a context but the state is as it was.
pub open spec fn same_context_but_state(a: Context, b: Context) -> bool {
    &&& a.address == b.address
    &&& a.caller == b.caller
    &&& a.origin == b.origin
    &&& a.gasprice == b.gasprice
    &&& a.value == b.value
    &&& a.call_data == b.call_data
    &&& a.is_static == b.is_static
}

/// The number of arguments a call opcode takes.
pub open spec fn call_arity(op: u8) -> int {
    if op == Opcode::CALL { 7 } else { 6 }
}

/// The position of `argsOffset` among a call opcode's arguments.
pub open spec fn call_base(op: u8) -> int {
    if op == Opcode::CALL { 3 } else { 2 }
}

/// The value a call opcode passes to its callee.
pub open spec fn call_value(op: u8, old: Machine) -> Word {
    if op == Opcode::CALL {
        arg(old, 2)
    } else if op == Opcode::DELEGATECALL {
        old.context.value
    } else {
        Word { limbs: [0, 0, 0, 0] }
    }
}

/// Memory once a call opcode has read its arguments.
pub open spec fn call_memory(op: u8, old: Machine) -> Seq<u8> {
    let b = call_base(op);
    grown(old.memory@, arg(old, b).val() + arg(old, b + 1).val())
}

/// The call data a call opcode passes: its argument slice of memory.
pub open spec fn call_data(op: u8, old: Machine) -> Seq<u8> {
    let b = call_base(op);
    call_memory(op, old).subrange(arg(old, b).val() as int, (arg(old, b).val() + arg(old, b + 1).val()) as int)
}

/// The context a call opcode gives its callee, where `target` is the
/// address it names.
pub open spec fn callee_context(op: u8, old: Machine, ctx: Context, target: Address) -> bool {
    &&& addresses(target, arg(old, 1))
    &&& ctx.origin == old.context.origin
    &&& ctx.gasprice == old.context.gasprice
    &&& ctx.value == call_value(op, old)
    &&& ctx.call_data@ == call_data(op, old)
    &&& ctx.state@ == old.context.state@
    &&& ctx.state.wf()
    &&& if op == Opcode::DELEGATECALL {
        ctx.address == old.context.address && ctx.caller == old.context.caller && !ctx.is_static
    } else {
        ctx.address == target && ctx.caller == old.context.address && ctx.is_static == (op == Opcode::STATICCALL)
    }
}

/// What a call opcode leaves once its callee gave result `rr` and storage
/// `s_out`, having started from storage `s_in`: 1 pushed on success and 0
/// on failure; the payload as the return-data buffer and, zero-filled to
/// `retSize`, in memory at `retOffset`; on success the callee's state, its
/// logs appended and (for DELEGATECALL) its storage; on failure the state,
/// logs and storage as they were.
pub open spec fn call_outcome(
    op: u8,
    old: Machine,
    new: Machine,
    r: ControlFlow,
    s0: Map<Word, Word>,
    s1: Map<Word, Word>,
    rr: EvmResult,
    s_in: Map<Word, Word>,
    s_out: Map<Word, Word>,
) -> bool {
    let b = call_base(op);
    let ret_offset = arg(old, b + 2).val();
    let ret_size = arg(old, b + 3).val();
    &&& s_in == (if op == Opcode::DELEGATECALL { s0 } else { Map::<Word, Word>::empty() })
    &&& r == ControlFlow::Continue(1)
    &&& new.stack@.len() == old.stack@.len() - call_arity(op) + 1
    &&& new.stack@.drop_last() == popped(old, call_arity(op))
    &&& new.stack@.last().val() == (if rr.success { 1nat } else { 0nat })
    &&& new.return_data_buffer@ == payload(rr)
    &&& new.memory@ == (if rr.return_val is Some {
        written(call_memory(op, old), ret_offset, slice_padded(payload(rr), 0, ret_size))
    } else {
        call_memory(op, old)
    })
    &&& same_context_but_state(new.context, old.context)
    &&& new.code == old.code && new.pc == old.pc && new.depth == old.depth && new.jump_map == old.jump_map
    &&& if rr.success {
        &&& new.context.state@ == rr.state@
        &&& new.logs@ == old.logs@ + rr.logs@
        &&& s1 == (if op == Opcode::DELEGATECALL { s_out } else { s0 })
    } else {
        new.context.state@ == old.context.state@ && new.logs@ == old.logs@ && s1 == s0
    }
}

/// The effect of CALL `(gas, address, value, argsOffset, argsSize,
/// retOffset, retSize)`, and of DELEGATECALL and STATICCALL (the same
/// without the value), taking storage `s0` to `s1`. The callee runs the
/// code at the address on a copy of the state; `k` bounds the nesting.
pub open spec fn call_effect(
    k: nat,
    old: Machine,
    new: Machine,
    r: ControlFlow,
    op: u8,
    block: Block,
    s0: Map<Word, Word>,
    s1: Map<Word, Word>,
) -> bool
    decreases k, 0nat, 1nat,
{
    let b = call_base(op);
    let args_end = arg(old, b).val() + arg(old, b + 1).val();
    let ret_end = arg(old, b + 2).val() + arg(old, b + 3).val();
    if op == Opcode::CALL && old.context.is_static && old.stack@.len() >= 3 && arg(old, 2).val() != 0 {
        r == ControlFlow::Exit(ExitReason::Error(EvmError::OpcodeNotStatic(Opcode::CALL))) && new == old && s1 == s0
    } else if old.stack@.len() < call_arity(op) {
        r == underflow() && new == old && s1 == s0
    } else if args_end > MEMORY_LIMIT || ret_end > MEMORY_LIMIT {
        r == resource_limit() && new.stack@ == popped(old, call_arity(op)) && new.memory == old.memory
            && same_but_stack_memory(new, old) && s1 == s0
    } else if old.depth >= MAX_CALL_DEPTH {
        &&& r == ControlFlow::Continue(1)
        &&& new.stack@.len() == old.stack@.len() - call_arity(op) + 1
        &&& new.stack@.drop_last() == popped(old, call_arity(op))
        &&& new.stack@.last().val() == 0
        &&& new.return_data_buffer@ == Seq::<u8>::empty()
        &&& new.memory@ == call_memory(op, old)
        &&& new.context == old.context && new.logs == old.logs && new.code == old.code && new.pc == old.pc
        &&& new.depth == old.depth && new.jump_map == old.jump_map && s1 == s0
    } else {
        exists|rr: EvmResult, ctx: Context, target: Address, s_in: Map<Word, Word>, s_out: Map<Word, Word>|
            #![trigger callee_context(op, old, ctx, target), call_outcome(op, old, new, r, s0, s1, rr, s_in, s_out)]
            callee_context(op, old, ctx, target) && call_outcome(op, old, new, r, s0, s1, rr, s_in, s_out)
                && frame_result(k, code_of(old.context.state@, target), ctx, block, s_in, rr, s_out, (old.depth + 1) as usize)
    }
}

/// The address CREATE derives for frame `old`, and the context it gives
/// the init code.
pub open spec fn create_context(old: Machine, ctx: Context, a: Address) -> bool {
    &&& a.bytes@ == keccak256_of(rlp_address_nonce(old.context.address.bytes@, 0)).subrange(12, 32)
    &&& ctx.address == a
    &&& ctx.caller == old.context.address
    &&& ctx.origin == old.context.origin
    &&& ctx.gasprice == old.context.gasprice
    &&& ctx.value == arg(old, 0)
    &&& ctx.call_data@ == Seq::<u8>::empty()
    &&& ctx.state@ == old.context.state@
    &&& ctx.state.wf()
    &&& !ctx.is_static
}

/// What CREATE leaves once its init code gave result `rr`: on success the
/// address pushed, the init code's state with the account at the address
/// credited with the value and holding the payload as code, and its logs
/// appended; on failure 0 pushed and state and logs as they were.
pub open spec fn create_outcome(old: Machine, new: Machine, rr: EvmResult, a: Address) -> bool {
    if rr.success {
        &&& new.stack@.last().val() == a.val()
        &&& new.context.state@.dom() == rr.state@.dom().insert(a)
        &&& new.context.state@[a].0.val() == (arg(old, 0).val() + balance_of(rr.state@, a)) % word_modulus()
        &&& new.context.state@[a].1 == payload(rr)
        &&& forall|b: Address| b != a ==> #[trigger] new.context.state@.get(b) == rr.state@.get(b)
        &&& new.logs@ == old.logs@ + rr.logs@
    } else {
        new.stack@.last().val() == 0 && new.context.state@ == old.context.state@ && new.logs@ == old.logs@
    }
}

/// The effect of CREATE `(value, offset, size)`: the memory slice runs as
/// init code in a new frame with fresh storage; `k` bounds the nesting.
pub open spec fn create_effect(k: nat, old: Machine, new: Machine, r: ControlFlow, block: Block) -> bool
    decreases k, 0nat, 1nat,
{
    let off = arg(old, 1).val();
    let size = arg(old, 2).val();
    if old.stack@.len() < 3 {
        r == underflow() && new == old
    } else if off + size > MEMORY_LIMIT {
        r == resource_limit() && new.stack@ == popped(old, 3) && new.memory == old.memory && same_but_stack_memory(new, old)
    } else {
        &&& r == ControlFlow::Continue(1)
        &&& new.stack@.len() == old.stack@.len() - 2
        &&& new.stack@.drop_last() == popped(old, 3)
        &&& new.memory@ == grown(old.memory@, off + size)
        &&& new.return_data_buffer == old.return_data_buffer
        &&& same_context_but_state(new.context, old.context)
        &&& new.code == old.code && new.pc == old.pc && new.depth == old.depth && new.jump_map == old.jump_map
        &&& if old.depth >= MAX_CALL_DEPTH {
            new.stack@.last().val() == 0 && new.context.state@ == old.context.state@ && new.logs@ == old.logs@
        } else {
            exists|ctx: Context, a: Address, w: (EvmResult, Map<Word, Word>)|
                #![trigger create_context(old, ctx, a), create_outcome(old, new, w.0, a)]
                create_context(old, ctx, a) && create_outcome(old, new, w.0, a) && frame_result(
                    k,
                    grown(old.memory@, off + size).subrange(off as int, (off + size) as int),
                    ctx,
                    block,
                    Map::<Word, Word>::empty(),
                    w.0,
                    w.1,
                    (old.depth + 1) as usize,
                )
        }
    }
}

/// The effect of SELFDESTRUCT `(beneficiary)`: the executing account is
/// removed and its balance, plus the frame's value, credited to the
/// beneficiary (which is created if absent, and may be the executing
/// account itself).
pub open spec fn selfdestruct_effect(old: Machine, new: Machine, r: ControlFlow) -> bool {
    if old.stack@.len() < 1 {
        r == underflow() && new == old
    } else {
        let here = old.context.address;
        let s0 = old.context.state@;
        let removed = s0.remove(here);
        let s1 = new.context.state@;
        &&& r == ControlFlow::Continue(1)
        &&& new.stack@ == popped(old, 1)
        &&& new.memory == old.memory && new.logs == old.logs && new.return_data_buffer == old.return_data_buffer
        &&& new.code == old.code && new.pc == old.pc && new.depth == old.depth && new.jump_map == old.jump_map
        &&& same_context_but_state(new.context, old.context)
        &&& forall|a: Address| #[trigger] addresses(a, arg(old, 0)) ==> {
            &&& s1.dom() == removed.dom().insert(a)
            &&& s1[a].0.val() == (balance_of(removed, a) + (balance_of(s0, here) + old.context.value.val())
                % word_modulus()) % word_modulus()
            &&& s1[a].1 == code_of(removed, a)
            &&& forall|b: Address| b != a ==> #[trigger] s1.get(b) == removed.get(b)
        }
    }
}

/// What running opcode `op` does, from frame `old` and storage `s0` to
/// frame `new` and storage `s1`, with outcome `r`.
pub open spec fn opcode_effect(
    k: nat,
    op: u8,
    old: Machine,
    new: Machine,
    r: ControlFlow,
    block: Block,
    s0: Map<Word, Word>,
    s1: Map<Word, Word>,
) -> bool
    decreases k, 0nat, 2nat,
{
    &&& (op != Opcode::SSTORE && op != Opcode::DELEGATECALL ==> s1 == s0)
    &&& if is_binary(op) {
        binary_effect(old, new, r, op)
    } else if op == Opcode::ADDMOD || op == Opcode::MULMOD || op == Opcode::ISZERO || op == Opcode::NOT
        || op == Opcode::BLOCKHASH {
        other_arith_effect(old, new, r, op)
    } else if op == Opcode::STOP {
        r == ControlFlow::Exit(ExitReason::Success(ExitSuccess::Stop)) && new == old
    } else if op == Opcode::POP {
        pop_effect(old, new, r)
    } else if op == Opcode::JUMP {
        jump_effect(old, new, r, false)
    } else if op == Opcode::JUMPI {
        jump_effect(old, new, r, true)
    } else if is_environment_op(op) {
        pushes(old, new, r, environment_val(op, old, block))
    } else if op == Opcode::BALANCE || op == Opcode::EXTCODESIZE || op == Opcode::EXTCODEHASH
        || op == Opcode::CALLDATALOAD {
        lookup_effect(old, new, r, op)
    } else if op == Opcode::CALLDATACOPY || op == Opcode::CODECOPY || op == Opcode::RETURNDATACOPY {
        copy_effect(old, new, r, op)
    } else if op == Opcode::EXTCODECOPY {
        extcodecopy_effect(old, new, r)
    } else if op == Opcode::KECCAK256 {
        keccak256_effect(old, new, r)
    } else if op == Opcode::MLOAD {
        mload_effect(old, new, r)
    } else if op == Opcode::MSTORE {
        mstore_effect(old, new, r, false)
    } else if op == Opcode::MSTORE8 {
        mstore_effect(old, new, r, true)
    } else if op == Opcode::SLOAD {
        sload_effect(old, new, r, s0)
    } else if op == Opcode::SSTORE {
        sstore_effect(old, new, r, s0, s1)
    } else if op == Opcode::RETURN {
        return_effect(old, new, r, false)
    } else if op == Opcode::REVERT {
        return_effect(old, new, r, true)
    } else if Opcode::LOG0 <= op <= Opcode::LOG4 {
        log_effect(old, new, r)
    } else if op == Opcode::CALL || op == Opcode::DELEGATECALL || op == Opcode::STATICCALL {
        call_effect(k, old, new, r, op, block, s0, s1)
    } else if op == Opcode::CREATE {
        create_effect(k, old, new, r, block)
    } else if op == Opcode::SELFDESTRUCT {
        selfdestruct_effect(old, new, r)
    } else if op == Opcode::JUMPDEST {
        r == ControlFlow::Continue(1) && new == old
    } else if Opcode::PUSH1 <= op <= Opcode::PUSH32 {
        push_effect(old, new, r)
    } else if Opcode::DUP1 <= op <= Opcode::DUP16 {
        dup_effect(old, new, r)
    } else if Opcode::SWAP1 <= op <= Opcode::SWAP16 {
        swap_effect(old, new, r)
    } else {
        r == ControlFlow::Exit(ExitReason::Error(EvmError::InvalidInstruction)) && new == old
    }
}

/// Run the instruction at the program counter.
pub fn eval(m: &mut Machine, block: &Block, storage: &mut Storage) -> (r: ControlFlow)
    requires
        old(m).wf(),
        old(storage).wf(),
        old(m).pc < old(m).code@.len(),
    ensures
        final(m).wf(),
        final(storage).wf(),
        final(m).depth == old(m).depth,
        final(m).code == old(m).code,
        final(m).pc == old(m).pc,
        instruction(
            (MAX_CALL_DEPTH - old(m).depth) as nat,
            *old(m),
            old(storage)@,
            *final(m),
            final(storage)@,
            r,
            *block,
        ),
    decreases MAX_CALL_DEPTH - m.depth, 1nat,
{
    let op = m.opcode();
    if m.context.is_static && !Opcode::is_static(op) {
        return exit_error(EvmError::OpcodeNotStatic(op));
    }
    if (0x01 <= op && op <= 0x07) || op == 0x0a || op == 0x0b || (0x10 <= op && op <= 0x14) || (0x16 <= op && op <= 0x18)
        || (0x1a <= op && op <= 0x1d) {
        eval_binary(m, op)
    } else if op == Opcode::ADDMOD || op == Opcode::MULMOD || op == Opcode::ISZERO || op == Opcode::NOT
        || op == Opcode::BLOCKHASH {
        eval_other_arith(m, op)
    } else if op == Opcode::STOP {
        exit_success(ExitSuccess::Stop)
    } else if op == Opcode::POP {
        eval_pop(m)
    } else if op == Opcode::JUMP {
        eval_jump(m, false)
    } else if op == Opcode::JUMPI {
        eval_jump(m, true)
    } else if op == Opcode::ADDRESS || op == Opcode::ORIGIN || op == Opcode::CALLER || op == Opcode::CALLVALUE
        || op == Opcode::GASPRICE || op == Opcode::CALLDATASIZE || op == Opcode::CODESIZE
        || op == Opcode::RETURNDATASIZE || op == Opcode::SELFBALANCE || (Opcode::COINBASE <= op
        && op <= Opcode::BASEFEE) || op == Opcode::PC || op == Opcode::MSIZE || op == Opcode::GAS {
        eval_environment(m, block, op)
    } else if op == Opcode::BALANCE || op == Opcode::EXTCODESIZE || op == Opcode::EXTCODEHASH
        || op == Opcode::CALLDATALOAD {
        eval_lookup(m, op)
    } else if op == Opcode::CALLDATACOPY || op == Opcode::CODECOPY || op == Opcode::RETURNDATACOPY {
        eval_copy(m, op)
    } else if op == Opcode::EXTCODECOPY {
        eval_extcodecopy(m)
    } else if op == Opcode::KECCAK256 {
        eval_keccak256(m)
    } else if op == Opcode::MLOAD {
        eval_mload(m)
    } else if op == Opcode::MSTORE {
        eval_mstore(m, false)
    } else if op == Opcode::MSTORE8 {
        eval_mstore(m, true)
    } else if op == Opcode::SLOAD {
        eval_sload(m, storage)
    } else if op == Opcode::SSTORE {
        eval_sstore(m, storage)
    } else if op == Opcode::RETURN {
        eval_return(m, false)
    } else if op == Opcode::REVERT {
        eval_return(m, true)
    } else if Opcode::LOG0 <= op && op <= Opcode::LOG4 {
        eval_log(m)
    } else if op == Opcode::CALL || op == Opcode::DELEGATECALL || op == Opcode::STATICCALL {
        eval_call(m, block, storage, op)
    } else if op == Opcode::CREATE {
        eval_create(m, block)
    } else if op == Opcode::SELFDESTRUCT {
        eval_selfdestruct(m)
    } else if op == Opcode::JUMPDEST {
        ControlFlow::Continue(1)
    } else if Opcode::PUSH1 <= op && op <= Opcode::PUSH32 {
        eval_push(m)
    } else if Opcode::DUP1 <= op && op <= Opcode::DUP16 {
        eval_dup(m)
    } else if Opcode::SWAP1 <= op && op <= Opcode::SWAP16 {
        eval_swap(m)
    } else {
        exit_error(EvmError::InvalidInstruction)
    }
}

} // verus!
