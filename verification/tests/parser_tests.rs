use datamod::errors::ParseError;
use datamod::lexer::tokenize;
use datamod::parser::parse;
use datamod::parser::JsonType;
use datamod::parser::Parser;
use datamod::token::Token;

fn parsed(text: &str) -> Result<JsonType, ParseError> {
    parse(tokenize(text).unwrap())
}

#[test]
fn parser_lexer_test() {
    let teststr = r#"
    {
        "string": "Hello, World!",
        "number": 42,
        "float": 3.14,
        "boolean_true": true,
        "boolean_false": false,
        "null_value": null,
        "array": [
          "item1",
          2,
          false,
          null,
          {
            "nested_object": {
              "key1": "value1",
              "key2": 100
            }
          }
        ],
        "object": {
          "nested_string": "Nested Hello",
          "nested_number": 99,
          "nested_array": [
            "array_item1",
            {
              "deeply_nested_object": {
                "deep_key": "deep_value",
                "deep_number": 7
              }
            }
          ]
        }
      }
      "#;
    let mut lexer = datamod::lexer::Lexer::new(&teststr);
    let tokens = lexer.parse().unwrap();

    let mut parser = Parser::new(tokens);
    let ast = parser.ast().unwrap();

    println!("{:?}", ast);
}

#[test]
fn parse_no_tokens_fails() {
    assert_eq!(parse(vec![]), Err(ParseError::UnexpectedEndOfInput));
}

#[test]
fn parse_empty_object() {
    assert_eq!(parsed("{}"), Ok(JsonType::Object(vec![])));
}

#[test]
fn parse_empty_array() {
    assert_eq!(parsed("[]"), Ok(JsonType::Array(vec![])));
}

#[test]
fn parse_nested_document_keeps_key_order() {
    assert_eq!(
        parsed(r#"{"a":1,"b":[true,false,null]}"#),
        Ok(JsonType::Object(vec![
            ("a".to_string(), JsonType::Integer(1)),
            (
                "b".to_string(),
                JsonType::Array(vec![
                    JsonType::Boolean(true),
                    JsonType::Boolean(false),
                    JsonType::Null,
                ])
            ),
        ]))
    );
}

#[test]
fn parse_keeps_duplicate_keys() {
    assert_eq!(
        parsed(r#"{"a":1,"a":2}"#),
        Ok(JsonType::Object(vec![
            ("a".to_string(), JsonType::Integer(1)),
            ("a".to_string(), JsonType::Integer(2)),
        ]))
    );
}

#[test]
fn parse_leaves() {
    assert_eq!(parsed("\"x\""), Ok(JsonType::String("x".to_string())));
    assert_eq!(parsed("7"), Ok(JsonType::Integer(7)));
    assert_eq!(parsed("2.5"), Ok(JsonType::Float("2.5".to_string())));
    assert_eq!(parsed("true"), Ok(JsonType::Boolean(true)));
    assert_eq!(parsed("false"), Ok(JsonType::Boolean(false)));
    assert_eq!(parsed("null"), Ok(JsonType::Null));
}

#[test]
fn parse_rejects_trailing_comma_in_array() {
    // After the comma a value is required, so the `]` (token index 5) is an
    // unexpected token.
    assert_eq!(
        parsed("[1,2,]"),
        Err(ParseError::UnexpectedToken { found: Token::RBRAC, pos: 5 })
    );
}

#[test]
fn parse_rejects_trailing_comma_in_object() {
    // After the comma a key is required, so the `}` (token index 5) is
    // neither a key nor a valid end.
    assert_eq!(
        parsed("{\"a\":1,}"),
        Err(ParseError::ExpectedKeyOrBrace { pos: 5 })
    );
}

#[test]
fn parse_rejects_missing_colon() {
    assert_eq!(
        parsed(r#"{"a" 1}"#),
        Err(ParseError::ExpectedColon { pos: 2 })
    );
}

#[test]
fn parse_rejects_non_string_key() {
    assert_eq!(parsed("{1:2}"), Err(ParseError::ExpectedKeyOrBrace { pos: 1 }));
}

#[test]
fn parse_rejects_missing_comma_in_object() {
    assert_eq!(
        parsed(r#"{"a":1 "b":2}"#),
        Err(ParseError::ExpectedCommaOrBrace { pos: 4 })
    );
}

#[test]
fn parse_rejects_missing_comma_in_array() {
    assert_eq!(
        parsed("[1 2]"),
        Err(ParseError::ExpectedCommaOrBracket { pos: 2 })
    );
}

#[test]
fn parse_rejects_unclosed_containers() {
    assert_eq!(parsed("["), Err(ParseError::UnexpectedEndOfInput));
    assert_eq!(parsed("{"), Err(ParseError::ExpectedKeyOrBrace { pos: 1 }));
    assert_eq!(parsed("[1,"), Err(ParseError::UnexpectedEndOfInput));
    assert_eq!(
        parsed(r#"{"a":1"#),
        Err(ParseError::ExpectedCommaOrBrace { pos: 4 })
    );
}

#[test]
fn parse_rejects_value_starting_with_structural_token() {
    assert_eq!(
        parse(vec![Token::COLON]),
        Err(ParseError::UnexpectedToken { found: Token::COLON, pos: 0 })
    );
}

#[test]
fn parse_consumes_only_the_first_value() {
    // Trailing tokens are left for the caller: the cursor stops after the
    // first value.
    assert_eq!(parsed("1 2"), Ok(JsonType::Integer(1)));
    let mut parser = Parser::new(tokenize("1 2").unwrap());
    assert_eq!(parser.ast(), Ok(JsonType::Integer(1)));
    assert_eq!(parser.pos, 1);
    assert_eq!(parser.tokens.len(), 2);
}

#[test]
fn parse_nesting_within_budget_succeeds() {
    let depth = 500;
    let text = format!("{}{}", "[".repeat(depth), "]".repeat(depth));
    let mut expect = JsonType::Array(vec![]);
    for _ in 1..depth {
        expect = JsonType::Array(vec![expect]);
    }
    assert_eq!(parsed(&text), Ok(expect));
}

#[test]
fn parse_deep_nesting_fails_with_depth_error() {
    let depth = 10_000;
    let text = format!("{}{}", "[".repeat(depth), "]".repeat(depth));
    let tokens = tokenize(&text).unwrap();
    assert_eq!(tokens.len(), 2 * depth);
    assert_eq!(parse(tokens), Err(ParseError::DepthExceeded));
}
