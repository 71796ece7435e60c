use note_duel::codec::{decode_bytes, hex_decode};
use note_duel::listing::ListEventsRequest;

#[test]
fn hex_decodes_both_cases() {
    assert_eq!(hex_decode("00ff10Ab"), Some(vec![0x00, 0xff, 0x10, 0xab]));
    assert_eq!(hex_decode("DEADbeef"), Some(vec![0xde, 0xad, 0xbe, 0xef]));
}

#[test]
fn hex_decodes_empty() {
    assert_eq!(hex_decode(""), Some(vec![]));
}

#[test]
fn hex_rejects_odd_length() {
    assert_eq!(hex_decode("abc"), None);
}

#[test]
fn hex_rejects_non_digit() {
    assert_eq!(hex_decode("zz"), None);
    assert_eq!(hex_decode("0g"), None);
}

#[test]
fn decode_prefers_hex() {
    assert_eq!(decode_bytes("abcd"), Some(vec![0xab, 0xcd]));
}

#[test]
fn decode_falls_back_to_base64() {
    assert_eq!(decode_bytes("aGVsbG8="), Some(b"hello".to_vec()));
}

#[test]
fn decode_rejects_neither() {
    assert_eq!(decode_bytes("!!not valid!!"), None);
}

#[test]
fn request_key_is_parsed_from_hex() {
    let hex = "79be667ef9dcbbac55a06295ce870b07029bfcdb2dce28d959f2815b16f81798";
    let req = ListEventsRequest { pubkey: hex.to_string() };
    let key = req.user_key().expect("a key");
    assert_eq!(key.len(), 32);
    assert_eq!(key[0], 0x79);
    assert_eq!(key[31], 0x98);
    let bad = ListEventsRequest { pubkey: "xyz".to_string() };
    assert_eq!(bad.user_key(), None);
    let short = ListEventsRequest { pubkey: "abcd".to_string() };
    assert_eq!(short.user_key(), None);
    let longer = ListEventsRequest { pubkey: format!("{hex}00") };
    assert_eq!(longer.user_key(), Some(key));
}
