use datamod::errors::LexErrorKind;
use datamod::lexer::Lexer;
use datamod::lexer::tokenize;
use datamod::token::Token;

const TESTDOC: &str = r#"
    {
        "string": "Hello, World!",
        "number": 42,
        "float": 3.14,
        "boolean_true": true,
        "boolean_false": false,
        "null_value": null,
        "array": [
          "item1",
          2,
          false,
          null,
          {
            "nested_object": {
              "key1": "value1",
              "key2": 100
            }
          }
        ],
        "object": {
          "nested_string": "Nested Hello",
          "nested_number": 99,
          "nested_array": [
            "array_item1",
            {
              "deeply_nested_object": {
                "deep_key": "deep_value",
                "deep_number": 7
              }
            }
          ]
        }
      }
      "#;

#[test]
fn lexer_lexer_test() {
    let teststr = TESTDOC;
    let mut lexer = Lexer::new(&teststr);
    let tokens = lexer.parse().unwrap();
    println!("{:?}", tokens);
}

#[test]
fn tokenize_empty_yields_no_tokens() {
    assert_eq!(tokenize(""), Ok(vec![]));
    assert_eq!(tokenize("   \n\t  "), Ok(vec![]));
}

#[test]
fn tokenize_structural_characters() {
    assert_eq!(
        tokenize("{}[]:,"),
        Ok(vec![
            Token::LBRACE,
            Token::RBRACE,
            Token::LBRAC,
            Token::RBRAC,
            Token::COLON,
            Token::COMMA,
        ])
    );
}

#[test]
fn tokenize_string_literal() {
    assert_eq!(
        tokenize("\"Hello, World!\""),
        Ok(vec![Token::STRING("Hello, World!".to_string())])
    );
    assert_eq!(tokenize("\"\""), Ok(vec![Token::STRING(String::new())]));
}

#[test]
fn tokenize_integer() {
    assert_eq!(tokenize("3"), Ok(vec![Token::INTEGER(3)]));
    assert_eq!(tokenize("42"), Ok(vec![Token::INTEGER(42)]));
    assert_eq!(
        tokenize("9223372036854775807"),
        Ok(vec![Token::INTEGER(i64::MAX)])
    );
}

#[test]
fn tokenize_float_keeps_literal_text() {
    let tokens = tokenize("3.14").unwrap();
    assert_eq!(tokens, vec![Token::FLOAT("3.14".to_string())]);
    match &tokens[0] {
        Token::FLOAT(text) => assert_eq!(text.parse::<f64>().unwrap(), 3.14f64),
        other => panic!("expected a float token, got {:?}", other),
    }
}

#[test]
fn tokenize_digits_then_bare_dot_is_a_float() {
    // A digit run followed by `.` with no digits after it is classified as a
    // float whose text is the run and the dot, denoting the whole number.
    let tokens = tokenize("3.").unwrap();
    assert_eq!(tokens, vec![Token::FLOAT("3.".to_string())]);
    match &tokens[0] {
        Token::FLOAT(text) => assert_eq!(text.parse::<f64>().unwrap(), 3.0f64),
        other => panic!("expected a float token, got {:?}", other),
    }
}

#[test]
fn tokenize_unterminated_string_fails() {
    let err = tokenize(r#""abc"#).unwrap_err();
    assert_eq!(err.kind, LexErrorKind::UnterminatedString);
    assert_eq!(err.line, 1);
    assert_eq!(err.pos, 0);
}

#[test]
fn tokenize_integer_overflow_fails() {
    let err = tokenize("99999999999999999999").unwrap_err();
    assert_eq!(err.kind, LexErrorKind::InvalidNumber);
    let err = tokenize("9223372036854775808").unwrap_err();
    assert_eq!(err.kind, LexErrorKind::InvalidNumber);
}

#[test]
fn tokenize_keywords() {
    assert_eq!(
        tokenize("true false null"),
        Ok(vec![
            Token::BOOLEAN(true),
            Token::BOOLEAN(false),
            Token::NONE,
        ])
    );
}

#[test]
fn tokenize_invalid_bare_word_fails() {
    let err = tokenize("tru").unwrap_err();
    assert_eq!(err.kind, LexErrorKind::InvalidLiteral("tru".to_string()));
    assert_eq!(err.pos, 0);
}

#[test]
fn tokenize_unrecognized_character_fails() {
    let err = tokenize("@").unwrap_err();
    assert_eq!(err.kind, LexErrorKind::UnrecognizedCharacter('@'));
    assert_eq!(err.line, 1);
    assert_eq!(err.pos, 0);
}

#[test]
fn tokenize_reports_line_and_offset() {
    // The `@` stands on the second line, at character index 4 of the input.
    let err = tokenize("{\n  @").unwrap_err();
    assert_eq!(err.kind, LexErrorKind::UnrecognizedCharacter('@'));
    assert_eq!(err.line, 2);
    assert_eq!(err.pos, 4);
}

#[test]
fn tokenize_same_text_twice_agrees() {
    assert_eq!(tokenize(TESTDOC), tokenize(TESTDOC));
    let first = tokenize(r#"{"a": [1, 2.5, "x"]}"#);
    let second = tokenize(r#"{"a": [1, 2.5, "x"]}"#);
    assert_eq!(first, second);
}

#[test]
fn tokenize_mixed_document() {
    assert_eq!(
        tokenize(r#"{"a":1,"b":[true,null]}"#),
        Ok(vec![
            Token::LBRACE,
            Token::STRING("a".to_string()),
            Token::COLON,
            Token::INTEGER(1),
            Token::COMMA,
            Token::STRING("b".to_string()),
            Token::COLON,
            Token::LBRAC,
            Token::BOOLEAN(true),
            Token::COMMA,
            Token::NONE,
            Token::RBRAC,
            Token::RBRACE,
        ])
    );
}
