use mls_api::hex::{decode_hex, encode_hex, hex_val_of};

fn hx(n: usize, pair: &str) -> String {
    pair.repeat(n)
}

#[test]
fn encode_known_bytes() {
    assert_eq!(encode_hex(&[0x0f, 0xa0]), b"0fa0".to_vec());
    assert_eq!(encode_hex(&[]), Vec::<u8>::new());
    assert_eq!(encode_hex(&[0x00, 0xff]), b"00ff".to_vec());
}

#[test]
fn decode_known_text() {
    assert_eq!(decode_hex(b"0fa0"), Some(vec![0x0f, 0xa0]));
    assert_eq!(decode_hex(b"0FA0"), Some(vec![0x0f, 0xa0]));
    assert_eq!(decode_hex(b""), Some(vec![]));
}

#[test]
fn decode_rejects_bad_text() {
    assert_eq!(decode_hex(b"0fa"), None);
    assert_eq!(decode_hex(b"zz"), None);
    assert_eq!(decode_hex(b"0g"), None);
}

#[test]
fn decode_inverts_encode() {
    let data: Vec<u8> = (0u16..=255u16).map(|b| b as u8).collect();
    let text = encode_hex(&data);
    assert_eq!(decode_hex(&text), Some(data));
}

#[test]
fn hex_digit_values() {
    assert_eq!(hex_val_of(b'0'), Some(0));
    assert_eq!(hex_val_of(b'9'), Some(9));
    assert_eq!(hex_val_of(b'a'), Some(10));
    assert_eq!(hex_val_of(b'f'), Some(15));
    assert_eq!(hex_val_of(b'A'), Some(10));
    assert_eq!(hex_val_of(b'F'), Some(15));
    assert_eq!(hex_val_of(b'g'), None);
    assert_eq!(hex_val_of(b' '), None);
}

#[test]
fn repeat_helper_builds_keys() {
    assert_eq!(hx(32, "aa").len(), 64);
}
