use evm::address::{create_address, Address};
use evm::block::Block;
use evm::context::Context;
use evm::evm;
use evm::machine::{EvmError, EvmResult};
use evm::state::State;
use evm::storage::Storage;
use evm::word::Word;

fn word(v: u64) -> Word {
    Word { limbs: [v, 0, 0, 0] }
}

fn empty_block() -> Block {
    Block::new(vec![], vec![], vec![], vec![], vec![], vec![], vec![])
}

fn context_with(state: State, is_static: bool) -> Context {
    Context::new(Address::zero(), Address::zero(), Address::zero(), word(0), word(0), vec![], state, is_static)
}

fn run(code: &[u8]) -> EvmResult {
    let mut storage = Storage::new();
    evm(code, context_with(State::new(), false), &empty_block(), &mut storage)
}

fn hex(s: &str) -> Vec<u8> {
    (0..s.len()).step_by(2).map(|i| u8::from_str_radix(&s[i..i + 2], 16).unwrap()).collect()
}

fn stack_limbs(r: &EvmResult) -> Vec<[u64; 4]> {
    r.stack.iter().map(|w| w.limbs).collect()
}

#[test]
fn push_push_add() {
    let r = run(&hex("6001600101"));
    assert!(r.success);
    assert!(r.error.is_none());
    assert_eq!(stack_limbs(&r), vec![[2, 0, 0, 0]]);
}

#[test]
fn return_of_untouched_memory() {
    let r = run(&hex("60ff6000f3"));
    assert!(r.success);
    assert_eq!(r.return_val, Some(vec![0u8; 0xff]));
}

#[test]
fn revert_with_payload() {
    let r = run(&hex("60016000fd"));
    assert!(!r.success);
    assert_eq!(r.error, Some(EvmError::Revert(vec![0u8])));
    assert_eq!(r.return_val, Some(vec![0u8]));
}

#[test]
fn jump_on_empty_stack() {
    let r = run(&hex("5b56"));
    assert!(!r.success);
    assert_eq!(r.error, Some(EvmError::StackUnderflow));
}

#[test]
fn jump_to_push_is_invalid() {
    let r = run(&hex("600056"));
    assert!(!r.success);
    assert_eq!(r.error, Some(EvmError::InvalidJump));
}

#[test]
fn mstore_then_return_word() {
    let r = run(&hex("600160005260206000f3"));
    assert!(r.success);
    let mut expected = vec![0u8; 32];
    expected[31] = 1;
    assert_eq!(r.return_val, Some(expected));
}

#[test]
fn jump_to_jumpdest() {
    // PUSH1 4, JUMP, INVALID, JUMPDEST, PUSH1 7
    let r = run(&hex("600456fe5b6007"));
    assert!(r.success);
    assert_eq!(stack_limbs(&r), vec![[7, 0, 0, 0]]);
}

#[test]
fn jumpi_not_taken_on_zero() {
    // PUSH1 0, PUSH1 0xff, JUMPI, PUSH1 1
    let r = run(&hex("600060ff576001"));
    assert!(r.success);
    assert_eq!(stack_limbs(&r), vec![[1, 0, 0, 0]]);
}

#[test]
fn memory_size_is_word_multiple() {
    // MSTORE8 at 0, MSIZE, then MLOAD at 33, POP, MSIZE
    let r = run(&hex("6001600053596021515059"));
    assert!(r.success);
    assert_eq!(stack_limbs(&r), vec![[96, 0, 0, 0], [32, 0, 0, 0]]);
}

#[test]
fn stack_overflow_past_limit() {
    let mut code = Vec::new();
    for _ in 0..1025 {
        code.extend_from_slice(&[0x60, 0x00]);
    }
    let r = run(&code);
    assert!(!r.success);
    assert_eq!(r.error, Some(EvmError::StackOverflow));
    assert_eq!(r.stack.len(), 1024);
}

#[test]
fn push_then_pop() {
    let r = run(&hex("6001600250"));
    assert_eq!(stack_limbs(&r), vec![[1, 0, 0, 0]]);
}

#[test]
fn dup_then_pop() {
    let r = run(&hex("600160028150"));
    assert_eq!(stack_limbs(&r), vec![[2, 0, 0, 0], [1, 0, 0, 0]]);
}

#[test]
fn swap_twice() {
    let r = run(&hex("6001600260039191"));
    assert_eq!(stack_limbs(&r), vec![[3, 0, 0, 0], [2, 0, 0, 0], [1, 0, 0, 0]]);
}

#[test]
fn swap_once() {
    let r = run(&hex("600160026003915050"));
    assert_eq!(stack_limbs(&r), vec![[3, 0, 0, 0]]);
}

#[test]
fn mstore_then_mload() {
    let r = run(&hex("602a60055260055160"));
    assert!(r.success);
    assert_eq!(r.stack[0].limbs, [0, 0, 0, 0]);
    assert_eq!(r.stack[1].limbs, [42, 0, 0, 0]);
}

#[test]
fn sstore_then_sload() {
    let mut storage = Storage::new();
    let r = evm(&hex("602a600155600154"), context_with(State::new(), false), &empty_block(), &mut storage);
    assert_eq!(stack_limbs(&r), vec![[42, 0, 0, 0]]);
    assert_eq!(storage.get(&word(1)).limbs, [42, 0, 0, 0]);
    assert_eq!(storage.get(&word(2)).limbs, [0, 0, 0, 0]);
}

#[test]
fn pop_on_empty_stack() {
    let r = run(&hex("50"));
    assert_eq!(r.error, Some(EvmError::StackUnderflow));
}

#[test]
fn invalid_opcode() {
    let r = run(&hex("fe"));
    assert_eq!(r.error, Some(EvmError::InvalidInstruction));
    let r = run(&hex("0c"));
    assert_eq!(r.error, Some(EvmError::InvalidInstruction));
}

#[test]
fn sstore_in_static_frame() {
    let mut storage = Storage::new();
    let r = evm(&hex("6001600155"), context_with(State::new(), true), &empty_block(), &mut storage);
    assert!(!r.success);
    assert_eq!(r.error, Some(EvmError::OpcodeNotStatic(0x55)));
}

#[test]
fn memory_beyond_limit() {
    // MLOAD at 2^32
    let r = run(&hex("640100000000").into_iter().chain(hex("51")).collect::<Vec<u8>>());
    assert_eq!(r.error, Some(EvmError::ResourceLimit));
}

#[test]
fn stop_ends_frame() {
    let r = run(&hex("6001006002"));
    assert!(r.success);
    assert_eq!(r.return_val, None);
    assert_eq!(stack_limbs(&r), vec![[1, 0, 0, 0]]);
}

#[test]
fn keccak_of_empty_memory() {
    let r = run(&hex("600060002060"));
    let digest = hex("c5d2460186f7233c927e7db2dcc703c0e500b653ca82273b7bfad8045d85a470");
    let expected = Word::from_bytes(&digest).unwrap();
    assert_eq!(r.stack[1].limbs, expected.limbs);
}

#[test]
fn log_with_topic() {
    // MSTORE8 0xab at 0; LOG1(offset 0, size 1, topic 7)
    let r = run(&hex("60ab6000536007600160").into_iter().chain(hex("00a1")).collect::<Vec<u8>>());
    assert!(r.success);
    assert_eq!(r.logs.len(), 1);
    assert_eq!(r.logs[0].data, vec![0xab]);
    assert_eq!(r.logs[0].topics.len(), 1);
    assert_eq!(r.logs[0].topics[0].limbs, [7, 0, 0, 0]);
}

#[test]
fn calldata_load_and_size() {
    let mut storage = Storage::new();
    let ctx = Context::new(Address::zero(), Address::zero(), Address::zero(), word(0), word(0), vec![0x11, 0x22], State::new(), false);
    // CALLDATASIZE; PUSH1 1; CALLDATALOAD
    let r = evm(&hex("36600135"), ctx, &empty_block(), &mut storage);
    assert_eq!(r.stack[0].limbs, [0, 0, 0, 0x2200_0000_0000_0000]);
    assert_eq!(r.stack[1].limbs, [2, 0, 0, 0]);
}

#[test]
fn codecopy_pads_with_zeros() {
    // CODECOPY(dest 0, offset 0, size 64); MLOAD 0; MLOAD 32
    let code = hex("60406000600039600051602051");
    let r = run(&code);
    assert!(r.success);
    let mut expected = code.clone();
    expected.resize(32, 0);
    assert_eq!(r.stack[1].limbs, Word::from_bytes(&expected).unwrap().limbs);
    assert_eq!(r.stack[0].limbs, [0, 0, 0, 0]);
}

#[test]
fn block_and_context_values() {
    let block = Block::new(vec![0xc0], vec![0x10], vec![0x20], vec![0x30], vec![0x40], vec![0x01], vec![0x07]);
    let mut storage = Storage::new();
    let ctx = Context::new(Address::zero(), Address::zero(), Address::zero(), word(9), word(5), vec![], State::new(), false);
    // COINBASE CHAINID BASEFEE GASPRICE CALLVALUE
    let r = evm(&hex("4146483a34"), ctx, &block, &mut storage);
    assert_eq!(stack_limbs(&r), vec![[5, 0, 0, 0], [9, 0, 0, 0], [7, 0, 0, 0], [1, 0, 0, 0], [0xc0, 0, 0, 0]]);
}

#[test]
fn balance_of_account() {
    let mut state = State::new();
    let mut bytes = [0u8; 20];
    bytes[19] = 0xaa;
    state.add_account(Address::from_bytes(bytes), word(1000), vec![]);
    let mut storage = Storage::new();
    // PUSH1 0xaa BALANCE, PUSH1 0xbb BALANCE
    let r = evm(&hex("60aa3160bb31"), context_with(state, false), &empty_block(), &mut storage);
    assert_eq!(stack_limbs(&r), vec![[0, 0, 0, 0], [1000, 0, 0, 0]]);
}

fn call_code(target: u8) -> Vec<u8> {
    // retSize 32, retOffset 0, argsSize 0, argsOffset 0, value 0, address, gas 0, CALL
    let mut code = hex("6020600060006000600060");
    code.push(target);
    code.extend(hex("6000f1"));
    code
}

#[test]
fn failed_call_leaves_state() {
    let mut state = State::new();
    let mut bytes = [0u8; 20];
    bytes[19] = 0xaa;
    // the callee stores 1 under key 1, then reverts with one byte
    state.add_account(Address::from_bytes(bytes), word(3), hex("600160015560016000fd"));
    let mut storage = Storage::new();
    let r = evm(&call_code(0xaa), context_with(state, false), &empty_block(), &mut storage);
    assert!(r.success);
    assert_eq!(stack_limbs(&r), vec![[0, 0, 0, 0]]);
    assert_eq!(r.logs.len(), 0);
    assert_eq!(storage.get(&word(1)).limbs, [0, 0, 0, 0]);
    assert_eq!(r.state.get_account_balance(&Address::from_bytes(bytes)).limbs, [3, 0, 0, 0]);
}

#[test]
fn successful_call_returns_data() {
    let mut state = State::new();
    let mut bytes = [0u8; 20];
    bytes[19] = 0xaa;
    // the callee returns the word 0x2a
    state.add_account(Address::from_bytes(bytes), word(0), hex("602a60005260206000f3"));
    let mut storage = Storage::new();
    let mut code = call_code(0xaa);
    // MLOAD 0, RETURNDATASIZE
    code.extend(hex("6000513d"));
    let r = evm(&code, context_with(state, false), &empty_block(), &mut storage);
    assert!(r.success);
    assert_eq!(stack_limbs(&r), vec![[32, 0, 0, 0], [42, 0, 0, 0], [1, 0, 0, 0]]);
}

#[test]
fn create_installs_code() {
    // init code: returns one byte 0xfe (MSTORE8 0xfe at 0; RETURN 0, 1)
    let init = hex("60fe60005360016000f3");
    let mut code = Vec::new();
    // MSTORE the init code, right-aligned, then CREATE(value 0, offset 32 - len, len)
    code.push(0x69);
    code.extend(&init);
    code.extend(hex("600052"));
    code.extend(hex("600a6016"));
    code.extend(hex("6000f0"));
    // EXTCODESIZE of the created address
    code.extend(hex("803b"));
    let r = run(&code);
    assert!(r.success);
    assert_eq!(r.stack[0].limbs, [1, 0, 0, 0]);
    let created = create_address(&Address::zero(), word(0));
    assert_eq!(r.stack[1].limbs, created.to_word().limbs);
}

#[test]
fn create_address_known_vector() {
    let sender = Address::from_bytes(hex("6ac7ea33f8831ea9dcc53393aaa88b25a785dbf0").try_into().unwrap());
    let created = create_address(&sender, word(0));
    assert_eq!(created.bytes.to_vec(), hex("cd234a471b72ba2f1ccf0a70fcaba648a5eecd8d"));
}

#[test]
fn selfdestruct_moves_balance() {
    let mut state = State::new();
    state.add_account(Address::zero(), word(50), vec![]);
    let mut storage = Storage::new();
    let r = evm(&hex("60bbff"), context_with(state, false), &empty_block(), &mut storage);
    assert!(r.success);
    let mut bytes = [0u8; 20];
    bytes[19] = 0xbb;
    assert_eq!(r.state.get_account_balance(&Address::from_bytes(bytes)).limbs, [50, 0, 0, 0]);
    assert!(r.state.get_account(&Address::zero()).is_none());
}

#[test]
fn arithmetic_opcodes() {
    // MUL 6*7, DIV 7/2, MOD 7%3, DIV by zero
    let r = run(&hex("600760060260026007046003600706600060070460"));
    assert_eq!(stack_limbs(&r)[1..].to_vec(), vec![[0, 0, 0, 0], [1, 0, 0, 0], [3, 0, 0, 0], [42, 0, 0, 0]]);
}

#[test]
fn bitwise_opcodes() {
    // AND 0x0c & 0x0a, OR, XOR, NOT 0
    let r = run(&hex("600a600c16600a600c17600a600c18600019"));
    assert_eq!(r.stack[0].limbs, [u64::MAX; 4]);
    assert_eq!(stack_limbs(&r)[1..].to_vec(), vec![[6, 0, 0, 0], [14, 0, 0, 0], [8, 0, 0, 0]]);
}

#[test]
fn comparison_opcodes() {
    // LT 1<2, GT 1>2, EQ 2==2, ISZERO 0, SLT -1<0
    let r = run(&hex("600260011060026001116002600214600015600060001912"));
    assert_eq!(stack_limbs(&r), vec![[1, 0, 0, 0], [1, 0, 0, 0], [1, 0, 0, 0], [0, 0, 0, 0], [1, 0, 0, 0]]);
}

#[test]
fn signed_opcodes() {
    // SDIV(-4, 2) = -2 then ADD 2 gives 0; SAR(1, -4) = -2
    let r = run(&hex("600260046000030560020160046000036001"));
    let r2 = run(&hex("60046000036001").into_iter().chain(hex("1d")).collect::<Vec<u8>>());
    assert_eq!(r.stack[2].limbs, [0, 0, 0, 0]);
    let minus_two = evm::eval::binary_value(evm::opcode::Opcode::SUB, word(0), word(2));
    assert_eq!(r2.stack[0].limbs, minus_two.limbs);
}

#[test]
fn word_bytes_without_padding() {
    assert_eq!(evm::helpers::u256_to_vec_u8_without_padding(&word(0x0102)), vec![1, 2]);
    assert_eq!(evm::helpers::u256_to_vec_u8_without_padding(&word(0)), Vec::<u8>::new());
}

#[test]
fn address_word_round_trip() {
    let mut bytes = [0u8; 20];
    bytes[0] = 0x12;
    bytes[19] = 0x34;
    let a = Address::from_bytes(bytes);
    let w = a.to_word();
    assert_eq!(w.limbs, [0x34, 0, 0x1200_0000, 0]);
    assert_eq!(Address::from_word(w), a);
    assert_eq!(Address::from_word(Word::max_value()).bytes, [0xff; 20]);
}

fn state_with_code(code: &str) -> (State, Address) {
    let mut state = State::new();
    let mut bytes = [0u8; 20];
    bytes[19] = 0xaa;
    let a = Address::from_bytes(bytes);
    state.add_account(a, word(0), hex(code));
    (state, a)
}

#[test]
fn delegatecall_shares_storage() {
    let (state, _) = state_with_code("602a60015500");
    let mut storage = Storage::new();
    let r = evm(&hex("600060006000600060aa6000f4600154"), context_with(state, false), &empty_block(), &mut storage);
    assert!(r.success);
    assert_eq!(stack_limbs(&r), vec![[42, 0, 0, 0], [1, 0, 0, 0]]);
    assert_eq!(storage.get(&word(1)).limbs, [42, 0, 0, 0]);
}

#[test]
fn staticcall_refuses_sstore() {
    let (state, _) = state_with_code("602a60015500");
    let mut storage = Storage::new();
    let r = evm(&hex("600060006000600060aa6000fa600154"), context_with(state, false), &empty_block(), &mut storage);
    assert!(r.success);
    assert_eq!(stack_limbs(&r), vec![[0, 0, 0, 0], [0, 0, 0, 0]]);
}

#[test]
fn call_with_value_in_static_frame() {
    let (state, _) = state_with_code("00");
    let mut storage = Storage::new();
    let r = evm(&hex("6000600060006000600160aa6000f1"), context_with(state, true), &empty_block(), &mut storage);
    assert!(!r.success);
    assert_eq!(r.error, Some(EvmError::OpcodeNotStatic(0xf1)));
    assert_eq!(r.stack.len(), 7);
}

#[test]
fn call_with_value_in_static_frame_short_stack() {
    let (state, _) = state_with_code("00");
    let mut storage = Storage::new();
    // only value, address and gas on the stack
    let r = evm(&hex("600160aa6000f1"), context_with(state, true), &empty_block(), &mut storage);
    assert!(!r.success);
    assert_eq!(r.error, Some(EvmError::OpcodeNotStatic(0xf1)));
    assert_eq!(r.stack.len(), 3);
}

#[test]
fn returndatacopy_after_call() {
    let (state, _) = state_with_code("602a60005260206000f3");
    let mut storage = Storage::new();
    let r = evm(
        &hex("6000600060006000600060aa6000f16002601f60403e604051"),
        context_with(state, false),
        &empty_block(),
        &mut storage,
    );
    assert!(r.success);
    assert_eq!(r.stack[0].limbs, [0, 0, 0, 0x2a00_0000_0000_0000]);
}

#[test]
fn extcodehash_of_accounts() {
    let (state, _) = state_with_code("00");
    let mut storage = Storage::new();
    let r = evm(&hex("60aa3f60bb3f"), context_with(state, false), &empty_block(), &mut storage);
    let digest = hex("bc36789e7a1e281436464229828f817d6612f7b477d66591ff96a9e064bcc98a");
    assert_eq!(r.stack[0].limbs, [0, 0, 0, 0]);
    assert_eq!(r.stack[1].limbs, Word::from_bytes(&digest).unwrap().limbs);
}

#[test]
fn selfbalance_and_log0() {
    let mut state = State::new();
    state.add_account(Address::zero(), word(77), vec![]);
    let mut storage = Storage::new();
    let r = evm(&hex("4760006000a0"), context_with(state, false), &empty_block(), &mut storage);
    assert!(r.success);
    assert_eq!(stack_limbs(&r), vec![[77, 0, 0, 0]]);
    assert_eq!(r.logs.len(), 1);
    assert_eq!(r.logs[0].address, Address::zero());
    assert!(r.logs[0].data.is_empty());
    assert!(r.logs[0].topics.is_empty());
}

#[test]
fn later_accounts_win() {
    let mut state = State::new();
    let a = Address::zero();
    state.add_accounts(&vec![(a, word(1), vec![1]), (a, word(2), vec![2])]);
    assert_eq!(state.get_account_balance(&a).limbs, [2, 0, 0, 0]);
    assert_eq!(state.get_account_code(&a), vec![2]);
}

#[test]
fn word_from_too_many_bytes() {
    assert!(Word::from_bytes(&[0u8; 33]).is_none());
    assert_eq!(Word::from_bytes(&[1, 0]).unwrap().limbs, [256, 0, 0, 0]);
}

#[test]
fn blockhash_reads_zero() {
    // PUSH1 7, BLOCKHASH
    let r = run(&hex("600740"));
    assert!(r.success);
    assert_eq!(stack_limbs(&r), vec![[0, 0, 0, 0]]);
}

#[test]
fn create_with_value_credits_balance() {
    let mut state = State::new();
    state.add_account(Address::zero(), word(100), vec![]);
    let mut storage = Storage::new();
    // CREATE(value 9, offset 0, size 0): empty init code succeeds
    let r = evm(&hex("600060006009f0"), context_with(state, false), &empty_block(), &mut storage);
    assert!(r.success);
    let created = create_address(&Address::zero(), word(0));
    assert_eq!(r.stack[0].limbs, created.to_word().limbs);
    assert_eq!(r.state.get_account_balance(&created).limbs, [9, 0, 0, 0]);
    assert!(r.state.get_account_code(&created).is_empty());
}
