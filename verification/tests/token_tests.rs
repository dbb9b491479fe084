use exprc::token::{read_number, tokenize, Token};

#[test]
fn main_it_return_u64() {
    assert_eq!(read_number("1").unwrap(), (1, 1));
    assert_eq!(read_number("12").unwrap(), (12, 2));
    assert_eq!(read_number("123").unwrap(), (123, 3));
}

#[test]
fn token_it_return_u64() {
    assert_eq!(read_number("1").unwrap(), (1, 1));
    assert_eq!(read_number("12").unwrap(), (12, 2));
    assert_eq!(read_number("123").unwrap(), (123, 3));
}

#[test]
fn read_number_rejects_non_digit() {
    let e = read_number("x12").unwrap_err();
    assert_eq!(e.offset, 0);
    let e = read_number("").unwrap_err();
    assert_eq!(e.offset, 0);
}

#[test]
fn read_number_stops_at_first_non_digit() {
    assert_eq!(read_number("12+3").unwrap(), (12, 2));
}

#[test]
fn digit_string_gives_one_number_token() {
    assert_eq!(tokenize("1").unwrap(), vec![Token::Number(1)]);
    assert_eq!(tokenize("12").unwrap(), vec![Token::Number(12)]);
    assert_eq!(tokenize("123").unwrap(), vec![Token::Number(123)]);
}

#[test]
fn whitespace_is_skipped() {
    assert_eq!(
        tokenize(" 12 + 3\n").unwrap(),
        vec![Token::Number(12), Token::Plus, Token::Number(3)]
    );
}

#[test]
fn two_char_operators_win_over_single() {
    assert_eq!(tokenize("==").unwrap(), vec![Token::Equal]);
    assert_eq!(tokenize("!=").unwrap(), vec![Token::NotEqual]);
    assert_eq!(tokenize(">=").unwrap(), vec![Token::GreaterEqual]);
    assert_eq!(tokenize("<=").unwrap(), vec![Token::LessEqual]);
    assert_eq!(
        tokenize("1<=2").unwrap(),
        vec![Token::Number(1), Token::LessEqual, Token::Number(2)]
    );
}

#[test]
fn every_single_char_operator_scans() {
    assert_eq!(
        tokenize("+-*/()><").unwrap(),
        vec![
            Token::Plus,
            Token::Minus,
            Token::Star,
            Token::Slash,
            Token::LParen,
            Token::RParen,
            Token::Greater,
            Token::Less,
        ]
    );
}

#[test]
fn invalid_character_reports_its_offset() {
    let e = tokenize("1&2").unwrap_err();
    assert_eq!(e.offset, 1);
    assert_eq!(e.input, "1&2");
    let e = tokenize("=").unwrap_err();
    assert_eq!(e.offset, 0);
}

#[test]
fn empty_input_scans_to_no_tokens() {
    assert_eq!(tokenize("").unwrap(), Vec::new());
}

#[test]
fn numeral_scanning_wraps_modulo_two_to_the_64() {
    // 2^64 = 18446744073709551616; one above it wraps to 1.
    assert_eq!(
        tokenize("18446744073709551617").unwrap(),
        vec![Token::Number(1)]
    );
}
