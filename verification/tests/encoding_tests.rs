use password_maker::{decode, encode};

#[test]
fn decode_from_utf8() {
    let candidates = Vec::<u8>::from("あいうえお");
    let encoding = "utf-8".to_string();
    let result = decode(&candidates, &encoding);
    assert_eq!(result, Ok("あいうえお".to_string()));
}

#[test]
fn decode_from_shift_jis() {
    // Shift_JIS encoding of "あいうえお"
    let candidates = vec![0x82, 0xA0, 0x82, 0xA2, 0x82, 0xA4, 0x82, 0xA6, 0x82, 0xA8];
    let encoding = "shift_jis".to_string();
    let result = decode(&candidates, &encoding);
    assert_eq!(result, Ok("あいうえお".to_string()));
}

#[test]
fn decode_from_invalid_encoding() {
    let candidates = Vec::<u8>::from("abc");
    let encoding = "invalid".to_string();
    let result = decode(&candidates, &encoding);
    assert_eq!(result, Err("Unsupported encoding: invalid".to_string()));
}

#[test]
fn decode_from_different_encoding() {
    // Shift_JIS bytes of "あいうえお" read as UTF-8: malformed sequences
    // come back as replacement characters, but the call still succeeds.
    let candidates = vec![0x82, 0xA0, 0x82, 0xA2, 0x82, 0xA4, 0x82, 0xA6, 0x82, 0xA8];
    let encoding = "utf-8".to_string();
    let result = decode(&candidates, &encoding);
    assert_eq!(
        result,
        Ok(String::from_utf8_lossy(b"\x82\xA0\x82\xA2\x82\xA4\x82\xA6\x82\xA8").to_string())
    );
}

#[test]
fn encode_to_utf8() {
    let text = "あいうえお";
    let encoding = "utf-8";
    let result = encode(text, encoding);
    assert_eq!(result, Ok(Vec::<u8>::from("あいうえお")));
}

#[test]
fn encode_to_shift_jis() {
    let text = "あいうえお";
    let encoding = "shift_jis";
    let result = encode(text, encoding);
    assert_eq!(
        result,
        Ok(vec![
            0x82, 0xA0, 0x82, 0xA2, 0x82, 0xA4, 0x82, 0xA6, 0x82, 0xA8
        ])
    );
}

#[test]
fn encode_to_invalid_encoding() {
    let text = "abc";
    let encoding = "invalid";
    let result = encode(text, encoding);
    assert_eq!(result, Err("Unsupported encoding: invalid".to_string()));
}
