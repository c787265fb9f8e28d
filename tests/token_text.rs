use beam::{parse_token, token_text, TokenId, TOKEN_TEXT_LEN};

#[test]
fn token_text_is_two_hex_words() {
    let id = TokenId { serial: 1, secret: 0xdead_beef_0123_4567 };
    let text = token_text(id);
    assert_eq!(text.len(), TOKEN_TEXT_LEN);
    assert_eq!(text, b"0000000000000001deadbeef01234567".to_vec());
}

#[test]
fn token_text_reads_back() {
    for id in [
        TokenId { serial: 0, secret: 0 },
        TokenId { serial: u64::MAX, secret: u64::MAX },
        TokenId { serial: 42, secret: 0x0123_4567_89ab_cdef },
    ] {
        assert_eq!(parse_token(&token_text(id)), Some(id));
    }
}

#[test]
fn upper_case_digits_are_read() {
    assert_eq!(
        parse_token(b"00000000000000FFDEADBEEF01234567"),
        Some(TokenId { serial: 255, secret: 0xdead_beef_0123_4567 })
    );
}

#[test]
fn malformed_token_text_is_refused() {
    assert_eq!(parse_token(b""), None);
    assert_eq!(parse_token(b"0000000000000001deadbeef0123456"), None);
    assert_eq!(parse_token(b"0000000000000001deadbeef012345670"), None);
    assert_eq!(parse_token(b"000000000000000gdeadbeef01234567"), None);
    assert_eq!(parse_token(b"0000000000000001deadbeef0123456 "), None);
}
