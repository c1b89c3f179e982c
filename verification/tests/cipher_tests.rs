use des::bit::{explode_bitstring, DESError};
use des::cipher::{get_bits, make_subkey, process, DESMode};

#[test]
fn subkey_generator() {
    let key = 0x0123456789ABCDEFu64;

    assert_eq!(
        make_subkey(key, 1).unwrap(),
        explode_bitstring("000010 110000 001001 100111 100110 110100 100110 100101")
    );
    assert_eq!(
        make_subkey(key, 2).unwrap(),
        explode_bitstring("011010 011010 011001 011001 001001 010110 101000 100110")
    );
    assert_eq!(
        make_subkey(key, 3).unwrap(),
        explode_bitstring("010001 011101 010010 001010 101101 000010 100011 010010")
    );
    assert_eq!(
        make_subkey(key, 4).unwrap(),
        explode_bitstring("011100 101000 100111 010010 101001 011000 001001 010111")
    );
    assert_eq!(
        make_subkey(key, 5).unwrap(),
        explode_bitstring("001111 001110 100000 000011 000101 111010 011011 000010")
    );
    assert_eq!(
        make_subkey(key, 6).unwrap(),
        explode_bitstring("001000 110010 010100 011110 001111 001000 010101 000101")
    );
    assert_eq!(
        make_subkey(key, 7).unwrap(),
        explode_bitstring("011011 000000 010010 010101 000010 101110 010011 000110")
    );
    assert_eq!(
        make_subkey(key, 8).unwrap(),
        explode_bitstring("010101 111000 100000 111000 011011 001110 010110 000001")
    );
    assert_eq!(
        make_subkey(key, 9).unwrap(),
        explode_bitstring("110000 001100 100111 101001 001001 101011 100000 111001")
    );
    assert_eq!(
        make_subkey(key, 10).unwrap(),
        explode_bitstring("100100 011110 001100 000111 011000 110001 110101 110010")
    );
    assert_eq!(
        make_subkey(key, 11).unwrap(),
        explode_bitstring("001000 010001 111110 000011 000011 011000 100100 111010")
    );
    assert_eq!(
        make_subkey(key, 12).unwrap(),
        explode_bitstring("011100 010011 000011 100101 010001 010101 110001 010100")
    );
    assert_eq!(
        make_subkey(key, 13).unwrap(),
        explode_bitstring("100100 011100 010011 010000 010010 011000 000011 111100")
    );
    assert_eq!(
        make_subkey(key, 14).unwrap(),
        explode_bitstring("010101 000100 001110 110110 100000 011101 110010 001101")
    );
    assert_eq!(
        make_subkey(key, 15).unwrap(),
        explode_bitstring("101101 101001 000100 000101 000010 100001 011010 110101")
    );
    assert_eq!(
        make_subkey(key, 16).unwrap(),
        explode_bitstring("110010 100011 110100 000011 101110 000111 000000 110010")
    );

    println!();
}

#[test]
fn cipher() {
    let ciphered = process(0x0123456789ABCDEF, 0x0123456789ABCDEF, DESMode::Cipher);
    println!("ciphered: {:X}", ciphered);
    assert_eq!(ciphered, 0x56CC09E7CFDC4CEFu64);
}

#[test]
fn decipher() {
    let deciphered: u64 = process(0x56CC09E7CFDC4CEFu64, 0x0123456789ABCDEF, DESMode::Decipher);
    println!("deciphered: {:X}", deciphered);
    assert_eq!(deciphered, 0x0123456789ABCDEF);
}

#[test]
fn invalid_round_rejected() {
    let key = 0x0123456789ABCDEFu64;
    assert_eq!(make_subkey(key, 0), Err(DESError::InvalidRound));
    assert_eq!(make_subkey(key, 17), Err(DESError::InvalidRound));
    assert!(make_subkey(key, 1).is_ok());
    assert!(make_subkey(key, 16).is_ok());
}

#[test]
fn round_trip_restores_block() {
    let key = 0x133457799BBCDFF1u64;
    for block in [0u64, 1, 0xFFFFFFFFFFFFFFFF, 0xDEADBEEF0BADF00D] {
        let enc = process(block, key, DESMode::Cipher);
        assert_eq!(process(enc, key, DESMode::Decipher), block);
    }
}

#[test]
fn repeated_calls_agree() {
    let a = process(0x0123456789ABCDEF, 0x0123456789ABCDEF, DESMode::Cipher);
    let b = process(0x0123456789ABCDEF, 0x0123456789ABCDEF, DESMode::Cipher);
    assert_eq!(a, b);
    let s1 = make_subkey(0xAABB09182736CCDD, 5).unwrap();
    let s2 = make_subkey(0xAABB09182736CCDD, 5).unwrap();
    assert_eq!(s1, s2);
}

#[test]
fn get_bits_is_msb_first() {
    let bits = get_bits(0x8000000000000001);
    assert_eq!(bits.len(), 64);
    assert_eq!(bits[0], 1);
    assert_eq!(bits[63], 1);
    assert!(bits[1..63].iter().all(|b| *b == 0));
}
