use bep_rs::util::{bytes_to_hex, bytes_vec_to_hex, hex_to_bytes};

#[test]
fn hex_uppercase_two_digits_per_byte() {
    assert_eq!(bytes_to_hex(&[0x0a, 0xff, 0x00]), "0AFF00");
    assert_eq!(bytes_vec_to_hex(&vec![1, 2, 171]), "0102AB");
    assert_eq!(bytes_to_hex(&[]), "");
}

#[test]
fn hex_decodes_both_cases() {
    assert_eq!(hex_to_bytes(&"0AFF00".to_string()), vec![10, 255, 0]);
    assert_eq!(hex_to_bytes(&"abCD".to_string()), vec![0xab, 0xcd]);
    assert_eq!(hex_to_bytes(&"".to_string()), Vec::<u8>::new());
}

#[test]
fn hex_roundtrip_example() {
    let bytes: Vec<u8> = (0..=255u8).collect();
    let s = bytes_vec_to_hex(&bytes);
    assert_eq!(hex_to_bytes(&s), bytes);
}
