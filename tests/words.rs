use evm::arith::{
    add_modulus, byte, convert_twos_compliment, is_negative, mul_modulus, shift_arithmetic_right,
    shift_left, shift_right, sign_extend, signed_div, signed_gt, signed_lt, signed_modulus,
};
use evm::helpers::{add_padding, arr_slice_extend, ceil_divide, remove_padding};
use evm::jump_map::JumpMap;
use evm::memory::Memory;
use evm::stack::Stack;
use evm::eval::binary_value;
use evm::opcode::Opcode;
use evm::word::Word;

fn word(v: u64) -> Word {
    Word { limbs: [v, 0, 0, 0] }
}

fn wrapping_add(a: Word, b: Word) -> Word {
    binary_value(Opcode::ADD, a, b)
}

fn wrapping_sub(a: Word, b: Word) -> Word {
    binary_value(Opcode::SUB, a, b)
}

fn exp(a: Word, b: Word) -> Word {
    binary_value(Opcode::EXP, a, b)
}

fn minus(v: u64) -> Word {
    convert_twos_compliment(word(v))
}

#[test]
fn add_wraps_at_word_size() {
    assert_eq!(wrapping_add(Word::max_value(), word(1)).limbs, [0, 0, 0, 0]);
    assert_eq!(wrapping_add(word(u64::MAX), word(1)).limbs, [0, 1, 0, 0]);
}

#[test]
fn sub_wraps_below_zero() {
    assert_eq!(wrapping_sub(word(0), word(1)).limbs, Word::max_value().limbs);
}

#[test]
fn twos_complement_cancels() {
    for v in [1u64, 5, 12345, u64::MAX] {
        assert_eq!(wrapping_add(word(v), minus(v)).limbs, [0, 0, 0, 0]);
    }
    assert_eq!(convert_twos_compliment(word(0)).limbs, Word::max_value().limbs);
    assert_eq!(minus(1).limbs, Word::max_value().limbs);
}

#[test]
fn negative_words() {
    assert!(is_negative(minus(1)));
    assert!(!is_negative(word(1)));
    assert!(is_negative(Word { limbs: [0, 0, 0, 1 << 63] }));
}

#[test]
fn signed_division() {
    assert_eq!(signed_div(minus(10), word(3)).limbs, minus(3).limbs);
    assert_eq!(signed_div(minus(10), minus(2)).limbs, [5, 0, 0, 0]);
    assert_eq!(signed_div(word(10), word(0)).limbs, [0, 0, 0, 0]);
    assert_eq!(signed_div(word(1), word(2)).limbs, [0, 0, 0, 0]);
}

#[test]
fn signed_remainder() {
    assert_eq!(signed_modulus(minus(10), word(3)).limbs, minus(1).limbs);
    assert_eq!(signed_modulus(word(10), minus(3)).limbs, [1, 0, 0, 0]);
    assert_eq!(signed_modulus(word(10), word(0)).limbs, [0, 0, 0, 0]);
}

#[test]
fn signed_comparisons() {
    assert!(signed_lt(minus(1), word(0)));
    assert!(!signed_lt(word(0), minus(1)));
    assert!(signed_lt(minus(2), minus(1)));
    assert!(signed_gt(word(1), minus(5)));
    assert!(!signed_gt(word(3), word(3)));
    assert!(!signed_lt(word(3), word(3)));
}

#[test]
fn modular_arithmetic() {
    assert_eq!(add_modulus(word(10), word(10), word(8)).limbs, [4, 0, 0, 0]);
    assert_eq!(add_modulus(word(10), word(10), word(0)).limbs, [0, 0, 0, 0]);
    assert_eq!(mul_modulus(Word::max_value(), Word::max_value(), word(12)).limbs, [9, 0, 0, 0]);
    assert_eq!(mul_modulus(word(10), word(10), word(0)).limbs, [0, 0, 0, 0]);
    assert_eq!(exp(word(2), word(8)).limbs, [256, 0, 0, 0]);
    assert_eq!(exp(word(2), word(256)).limbs, [0, 0, 0, 0]);
}

#[test]
fn sign_extension() {
    assert_eq!(sign_extend(word(0), word(0xff)).limbs, Word::max_value().limbs);
    assert_eq!(sign_extend(word(0), word(0x7f)).limbs, [0x7f, 0, 0, 0]);
    assert_eq!(sign_extend(word(1), word(0x12ff)).limbs, [0x12ff, 0, 0, 0]);
    assert_eq!(sign_extend(word(32), word(0xff)).limbs, [0xff, 0, 0, 0]);
}

#[test]
fn byte_and_shifts() {
    assert_eq!(byte(word(31), word(0xab)).limbs, [0xab, 0, 0, 0]);
    assert_eq!(byte(word(30), word(0xab)).limbs, [0, 0, 0, 0]);
    assert_eq!(byte(word(32), word(0xab)).limbs, [0, 0, 0, 0]);
    assert_eq!(shift_left(word(4), word(1)).limbs, [16, 0, 0, 0]);
    assert_eq!(shift_left(word(256), word(1)).limbs, [0, 0, 0, 0]);
    assert_eq!(shift_right(word(4), word(16)).limbs, [1, 0, 0, 0]);
    assert_eq!(shift_arithmetic_right(word(4), minus(16)).limbs, minus(1).limbs);
    assert_eq!(shift_arithmetic_right(word(300), minus(16)).limbs, Word::max_value().limbs);
    assert_eq!(shift_arithmetic_right(word(1), word(16)).limbs, [8, 0, 0, 0]);
}

#[test]
fn jump_map_skips_push_data() {
    // PUSH1 0x5b, JUMPDEST, PUSH2 0x5b5b, JUMPDEST
    let code = [0x60, 0x5b, 0x5b, 0x61, 0x5b, 0x5b, 0x5b];
    let map = JumpMap::new(&code);
    assert!(!map.is_valid(word(1)));
    assert!(map.is_valid(word(2)));
    assert!(!map.is_valid(word(4)));
    assert!(!map.is_valid(word(5)));
    assert!(map.is_valid(word(6)));
    assert!(!map.is_valid(word(7)));
    assert!(!map.is_valid(Word::max_value()));
}

#[test]
fn memory_grows_in_words() {
    let mut m = Memory::new();
    assert_eq!(m.size(), 0);
    m.set(3, &[1, 2]);
    assert_eq!(m.size(), 32);
    assert_eq!(m.get(2, 4), vec![0, 1, 2, 0]);
    let _ = m.get(60, 10);
    assert_eq!(m.size(), 96);
}

#[test]
fn stack_peek_and_set() {
    let mut s = Stack::new();
    assert!(s.pop().is_none());
    s.push(word(1)).unwrap();
    s.push(word(2)).unwrap();
    assert_eq!(s.peek(0).unwrap().limbs, [2, 0, 0, 0]);
    assert_eq!(s.peek(1).unwrap().limbs, [1, 0, 0, 0]);
    assert!(s.peek(2).is_err());
    s.set(word(9), 1).unwrap();
    assert_eq!(s.data().iter().map(|w| w.limbs[0]).collect::<Vec<_>>(), vec![2, 9]);
    assert!(s.set(word(9), 2).is_err());
}

#[test]
fn padding_helpers() {
    assert_eq!(remove_padding(&[0, 0, 1, 0]), vec![1, 0]);
    assert_eq!(remove_padding(&[0, 0]), Vec::<u8>::new());
    assert_eq!(add_padding(&[1, 2], 4), vec![0, 0, 1, 2]);
    assert_eq!(add_padding(&[1, 2, 3], 2), vec![1, 2, 3]);
    assert_eq!(arr_slice_extend(&[1, 2, 3], 1, 4), vec![2, 3, 0, 0]);
    assert_eq!(arr_slice_extend(&[1, 2, 3], 5, 2), vec![0, 0]);
    assert_eq!(ceil_divide(33, 32), 2);
    assert_eq!(ceil_divide(32, 32), 1);
    assert_eq!(ceil_divide(0, 32), 0);
}
