use lox::num::Num;
use lox::scanner::{Scanner, ScanErrorKind, TokenType};

fn types_of(tokens: &[lox::scanner::Token]) -> Vec<TokenType> {
    tokens.iter().map(|t| t.token_type).collect()
}

#[test]
fn single_char_tokens() {
    let input = b";{}".to_vec();
    let mut scanner = Scanner::new(input);
    scanner.scan();
    let token_types = types_of(&scanner.tokens);
    // The token vector always ends in the EOF sentinel.
    assert_eq!(
        token_types,
        Vec::from([
            TokenType::Semicolon,
            TokenType::LeftBrace,
            TokenType::RightBrace,
            TokenType::EOF
        ])
    );
}

#[test]
fn double_char_tokens() {
    let input = b"==".to_vec();
    let mut scanner = Scanner::new(input);
    scanner.scan();
    assert_eq!(scanner.tokens.get(0).unwrap().token_type, TokenType::EqualEqual);

    let input = b"=".to_vec();
    let mut scanner = Scanner::new(input);
    scanner.scan();
    assert_eq!(scanner.tokens.get(0).unwrap().token_type, TokenType::Equal);
}

#[test]
fn slash_tokens() {
    let input = b"// hello world \n".to_vec();
    let mut scanner = Scanner::new(input);
    scanner.scan();
    // Only the EOF sentinel: the comment and the newline are skipped.
    assert_eq!(types_of(&scanner.tokens), Vec::from([TokenType::EOF]));

    let input = b"/".to_vec();
    let mut scanner = Scanner::new(input);
    scanner.scan();
    assert_eq!(scanner.tokens.get(0).unwrap().token_type, TokenType::Slash);
}

#[test]
fn number_literal_tokens() {
    let input = b"10.1234".to_vec();
    let mut scanner = Scanner::new(input);
    scanner.scan();
    let token = scanner.tokens.get(0).unwrap();
    assert_eq!(token.token_type, TokenType::Number);
    // 10.1234 == 101234 / 10000 == 50617 / 5000 in lowest terms.
    assert_eq!(
        token.literal,
        Some(lox::scanner::Literal::Number(Num { n: 50617, d: 5000 }))
    );
}

#[test]
fn identifier_reserved_tokens() {
    let input = b"while".to_vec();
    let mut scanner = Scanner::new(input);
    scanner.scan();
    let token = scanner.tokens.get(0).unwrap();
    assert_eq!(token.token_type, TokenType::While);
}

#[test]
fn stress_test_with_simple_chars() {
    let input = b"// this is a comment\n(( )){} // grouping stuff\n!*+-/=<> <= == // operators\n"
        .to_vec();
    let mut scanner = Scanner::new(input);
    scanner.scan();
    // 16 real tokens and the EOF sentinel.
    assert_eq!(scanner.tokens.len(), 17);
    assert_eq!(scanner.tokens.last().unwrap().token_type, TokenType::EOF);
}

#[test]
fn string_literal_tokens() {
    let input = b"\"hello\"".to_vec();
    let mut scanner = Scanner::new(input);
    scanner.scan();
    let token = scanner.tokens.get(0).unwrap();
    assert_eq!(token.token_type, TokenType::String);
    assert_eq!(
        token.literal,
        Some(lox::scanner::Literal::String(b"hello".to_vec()))
    );
    assert_eq!(token.lexeme, b"\"hello\"".to_vec());
}

#[test]
fn unterminated_string_reports_error() {
    let input = b"\"oops".to_vec();
    let mut scanner = Scanner::new(input);
    scanner.scan();
    assert_eq!(scanner.errors.len(), 1);
    assert_eq!(scanner.errors[0].kind, ScanErrorKind::UnterminatedString);
    // No string token was produced, only the EOF sentinel.
    assert_eq!(types_of(&scanner.tokens), Vec::from([TokenType::EOF]));
}

#[test]
fn unrecognised_byte_reports_error_and_continues() {
    let input = b"@;".to_vec();
    let mut scanner = Scanner::new(input);
    scanner.scan();
    assert_eq!(scanner.errors.len(), 1);
    assert_eq!(scanner.errors[0].kind, ScanErrorKind::UnrecognisedCharacter);
    assert_eq!(
        types_of(&scanner.tokens),
        Vec::from([TokenType::Semicolon, TokenType::EOF])
    );
}

#[test]
fn oversized_number_reports_error() {
    let input = b"99999999999999999999".to_vec();
    let mut scanner = Scanner::new(input);
    scanner.scan();
    assert_eq!(scanner.errors.len(), 1);
    assert_eq!(scanner.errors[0].kind, ScanErrorKind::NumberTooLarge);
}

#[test]
fn lexeme_round_trip_concrete() {
    // With whitespace and comments removed, the concatenated lexemes give
    // back the source.
    let input = b"var a = 1; // note\nprint a;".to_vec();
    let tokens = lox::scanner::scan(input);
    let mut joined: Vec<u8> = Vec::new();
    for t in &tokens {
        joined.extend_from_slice(&t.lexeme);
    }
    assert_eq!(joined, b"vara=1;printa;".to_vec());
}
