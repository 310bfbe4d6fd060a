use lunacore::bits::{get_bit, get_bits, get_lsb, get_msb, imm_extend, into_word, sign_extend};

#[test]
fn test_get_lsb() {
    assert_eq!(get_lsb(0x1234), 0x34);
}

#[test]
fn test_get_msb() {
    assert_eq!(get_msb(0x1234), 0x12);
}

#[test]
fn test_into_word() {
    assert_eq!(into_word(0x12, 0x34), 0x1234);
}

#[test]
fn cpu_test_imm_extend() {
    assert_eq!(imm_extend(0b1011, 4, 0), 0b00000000_00001011);
    assert_eq!(imm_extend(0b000, 3, 1), 0b11111111_11111000);
}

#[test]
fn cpu_test_sign_extend() {
    assert_eq!(sign_extend(0b011, 3), 0b00000000_00000011);
    assert_eq!(sign_extend(0b101, 3), 0b11111111_11111101);
}

#[test]
fn cpu_test_get_bit() {
    assert_eq!(get_bit(0b1010_1010, 3), 1);
    assert_eq!(get_bit(0b1010_1010, 2), 0);
    assert_eq!(get_bit(0b0000_0010, 1), 1);
    assert_eq!(get_bit(0b1111_1110, 0), 0);
}

#[test]
fn cpu_test_get_bits() {
    assert_eq!(get_bits(0b1111_0000, 7, 4), 0b1111);
}
