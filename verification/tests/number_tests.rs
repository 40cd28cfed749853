use datamod::number::ConsumeNumber;
use datamod::token::Token;

#[test]
fn consume_test() {
    let mut lexer = ConsumeNumber::new("123 123");
    let result = lexer.next();
    assert_eq!(result.token, Some(Token::INTEGER(123)));
    assert_eq!(result.remaining, " 123");
}

#[test]
fn consume_leaves_non_digit_input_untouched() {
    let mut lexer = ConsumeNumber::new("abc");
    let result = lexer.next();
    assert_eq!(result.token, None);
    assert_eq!(result.remaining, "abc");
}

#[test]
fn consume_does_not_advance_its_own_input() {
    let mut lexer = ConsumeNumber::new("42");
    let first = lexer.next();
    let second = lexer.next();
    assert_eq!(first.token, Some(Token::INTEGER(42)));
    assert_eq!(first.remaining, "");
    assert_eq!(second.token, Some(Token::INTEGER(42)));
    assert_eq!(lexer.inputstream, "42");
}

#[test]
fn consume_overflowing_run_yields_no_token() {
    let mut lexer = ConsumeNumber::new("99999999999999999999xyz");
    let result = lexer.next();
    assert_eq!(result.token, None);
    assert_eq!(result.remaining, "xyz");
}

#[test]
fn set_input_replaces_the_stream() {
    let mut lexer = ConsumeNumber::new("abc");
    lexer.set_input("7 8");
    let result = lexer.next();
    assert_eq!(result.token, Some(Token::INTEGER(7)));
    assert_eq!(result.remaining, " 8");
}
