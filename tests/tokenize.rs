use composer::tokenize::TokenKind::{Character, Number};
use composer::tokenize::{tokenize, TokenKind, TokenizeError};

#[test]
fn tokenize_token_test() {
    assert!(TokenKind::Character(b'c').is_character());
    assert!(TokenKind::Number(42).is_number());
}

#[test]
fn lib_token_test() {
    assert!(TokenKind::Character(b'c').is_character());
    assert!(TokenKind::Number(42).is_number());
}

fn check_tokenize_examples() {
    assert!(tokenize("Do some 焼き松茸").is_err());
    assert!(tokenize("9999999999999999999999999999999999999999999999999").is_err());
    assert_eq!(
        tokenize("c256e16g4<CEG4"),
        Ok(vec![
            (1, Character(b'c')),
            (2, Number(256)),
            (5, Character(b'e')),
            (6, Number(16)),
            (8, Character(b'g')),
            (9, Number(4)),
            (10, Character(b'<')),
            (11, Character(b'c')),
            (12, Character(b'e')),
            (13, Character(b'g')),
            (14, Number(4)),
        ])
    );
    assert_eq!(
        tokenize("C e\n\rG"),
        Ok(vec![
            (1, Character(b'c')),
            (3, Character(b'e')),
            (6, Character(b'g')),
        ])
    );
}

#[test]
fn tokenize_tokenize_test() {
    check_tokenize_examples();
}

#[test]
fn lib_tokenize_test() {
    check_tokenize_examples();
}

#[test]
fn upper_case_tokenizes_as_lower_case() {
    assert_eq!(tokenize("CDE+<T120L8"), tokenize("cde+<t120l8"));
    assert_eq!(tokenize("ABCDEFGHIJKLMNOPQRSTUVWXYZ"), tokenize("abcdefghijklmnopqrstuvwxyz"));
}

#[test]
fn whitespace_makes_no_token() {
    assert_eq!(tokenize(" \t\r\n "), Ok(vec![]));
    assert_eq!(
        tokenize("c \t4"),
        Ok(vec![(1, TokenKind::Character(b'c')), (4, TokenKind::Number(4))])
    );
}

#[test]
fn number_overflow_cites_its_position() {
    assert_eq!(
        tokenize("c 99999999999999999999999"),
        Err(TokenizeError::TooBigNumber(3))
    );
    assert_eq!(
        tokenize("18446744073709551615"),
        Ok(vec![(1, TokenKind::Number(usize::MAX))])
    );
    assert_eq!(tokenize("18446744073709551616"), Err(TokenizeError::TooBigNumber(1)));
}

#[test]
fn non_ascii_is_rejected_anywhere() {
    assert_eq!(tokenize("é"), Err(TokenizeError::NonAscii));
    assert_eq!(tokenize("cde松"), Err(TokenizeError::NonAscii));
    assert_eq!(tokenize("{松}"), Err(TokenizeError::NonAscii));
}

#[test]
fn brace_string_keeps_case_and_drops_whitespace() {
    assert_eq!(
        tokenize("@h{0 8\nF}c"),
        Ok(vec![
            (1, TokenKind::Character(b'@')),
            (2, TokenKind::Character(b'h')),
            (3, TokenKind::BraceString(b"08F".to_vec())),
            (10, TokenKind::Character(b'c')),
        ])
    );
    assert_eq!(tokenize("{08F"), Err(TokenizeError::UnexpectedEOF));
}

#[test]
fn tokenize_error_messages() {
    assert_eq!(TokenizeError::TooBigNumber(5).message(), "Too big number at 5");
    assert_eq!(TokenizeError::UnexpectedEOF.message(), "Unexpected EOF");
    assert_eq!(
        TokenizeError::NonAscii.message(),
        "MML must not include any non-ascii characters"
    );
    assert_eq!(TokenKind::Number(42).text(), "42");
    assert_eq!(TokenKind::Character(b'c').text(), "c");
    assert_eq!(TokenKind::BraceString(b"08F".to_vec()).text(), "08F");
}
