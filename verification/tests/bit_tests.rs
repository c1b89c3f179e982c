use des::bit::explode_bitstring;
use des::bit::{Bitwise, DESError, ShiftLeft, StringBit, ToBitVec, ToInteger};
use std::collections::VecDeque;

#[test]
fn util_bitstring_exploder() {
    let expected_subkey = explode_bitstring("0101");
    assert_eq!(expected_subkey, [0, 1, 0, 1]);

    let expected_subkey = explode_bitstring("1111 0000");
    assert_eq!(expected_subkey, [1, 1, 1, 1, 0, 0, 0, 0]);
}

#[test]
fn util_u64_to_bits() {
    assert_eq!(
        0b10000000_00000000_00000000_00000000_00000000_00000000_10000000_00001111u64
            .to_bit_vec(),
        explode_bitstring(
            "10000000 00000000 00000000 00000000 00000000 00000000 10000000 00001111"
        )
    );
}

#[test]
fn bitstring_exploder_skips_other_text() {
    assert_eq!(explode_bitstring(""), Vec::<u8>::new());
    assert_eq!(explode_bitstring("ab 01c2"), [0, 1]);
}

#[test]
fn u8_to_bits() {
    assert_eq!(0b1010_0001u8.to_bit_vec(), [1, 0, 1, 0, 0, 0, 0, 1]);
    assert_eq!(0u8.to_bit_vec(), [0; 8]);
}

#[test]
fn bits_to_int_round_trip() {
    let v = explode_bitstring("1010");
    assert_eq!(v.to_u8(), 10);
    let w = explode_bitstring(
        "11110000 00001111 10101010 01010101 11001100 00110011 10011001 01100110",
    );
    assert_eq!(w.to_u64(), 0xF00FAA55CC339966u64);
    assert_eq!(0xF00FAA55CC339966u64.to_bit_vec().to_u64(), 0xF00FAA55CC339966u64);
}

#[test]
fn xor_and_on_equal_lengths() {
    let a = vec![1u8, 0, 1, 0];
    let b = vec![1u8, 1, 0, 0];
    assert_eq!(a.xor(&b), Ok(vec![0u8, 1, 1, 0]));
    assert_eq!(a.and(&b), Ok(vec![1u8, 0, 0, 0]));
}

#[test]
fn xor_and_length_mismatch() {
    let a = vec![1u8, 0, 1];
    let b = vec![1u8, 1];
    assert_eq!(a.xor(&b), Err(DESError::LengthMismatch));
    assert_eq!(a.and(&b), Err(DESError::LengthMismatch));
    assert_eq!(b.xor(&a), Err(DESError::LengthMismatch));
    assert_eq!(b.and(&a), Err(DESError::LengthMismatch));
}

#[test]
fn shift_left_with_and_without_wrap() {
    let mut q: VecDeque<u8> = VecDeque::from(vec![1u8, 0, 0, 1]);
    q.shift_left(1, true);
    assert_eq!(q, VecDeque::from(vec![0u8, 0, 1, 1]));

    let mut q2: VecDeque<u8> = VecDeque::from(vec![1u8, 0, 0, 1]);
    q2.shift_left(2, false);
    assert_eq!(q2, VecDeque::from(vec![0u8, 1, 0, 0]));
}

#[test]
fn bit_string_groups_of_eight() {
    let v = explode_bitstring("10101010 1010");
    assert_eq!(v.bits(), "10101010 1010");
    let d: VecDeque<u8> = VecDeque::from(vec![1u8, 1, 0]);
    assert_eq!(d.bits(), "110");
}
