use monolis::lexer::{Lexer, Tokenize};
use monolis::token::Token;

fn assert_tokens(expect: Vec<Token>, input: &str) {
    let mut lexer = Lexer::new(input.to_string());
    for e in expect.iter() {
        assert_eq!(Some(e.clone()), lexer.token());
    }
    assert_eq!(None, lexer.token());
}

#[test]
fn test_lexer_with_leaf() {
    assert_tokens(vec![Token::NUMBER { val: 1 }], "1");
}

#[test]
fn test_lexer_with_quote() {
    assert_tokens(vec![Token::QUOTE, Token::NUMBER { val: 1 }], "'1");
    assert_tokens(vec![Token::QUOTE, Token::SYMBOL { buf: "a".into() }], "'a");
}

#[test]
fn test_lexer_with_cons() {
    assert_tokens(
        vec![
            Token::LPAREN,
            Token::NUMBER { val: 1 },
            Token::DOT,
            Token::NUMBER { val: 1 },
            Token::RPAREN,
        ],
        "(1 . 1)",
    )
}

#[test]
fn test_lexer_with_string() {
    assert_tokens(
        vec![Token::STRING {
            buf: "string".into(),
        }],
        r#""string""#,
    );
    assert_tokens(
        vec![Token::STRING {
            buf: r#"string with \" double-quote."#.into(),
        }],
        "\"string with \\\" double-quote.\"",
    );
}

#[test]
fn test_lexer_with_a_branch() {
    let mut lexer = Lexer::new("(+ 1 1)".to_string());
    assert_eq!(Some(Token::LPAREN), lexer.token());
    assert_eq!(Some(Token::SYMBOL { buf: "+".into() }), lexer.token());
    assert_eq!(Some(Token::NUMBER { val: 1 }), lexer.token());
    assert_eq!(Some(Token::NUMBER { val: 1 }), lexer.token());
    assert_eq!(Some(Token::RPAREN), lexer.token());
    assert_eq!(None, lexer.token());
}

#[test]
fn test_lexer_with_some_branch() {
    let mut lexer = Lexer::new("(+ (+ 1 1) 1)".to_string());
    assert_eq!(Some(Token::LPAREN), lexer.token());
    assert_eq!(Some(Token::SYMBOL { buf: "+".into() }), lexer.token());
    assert_eq!(Some(Token::LPAREN), lexer.token());
    assert_eq!(Some(Token::SYMBOL { buf: "+".into() }), lexer.token());
    assert_eq!(Some(Token::NUMBER { val: 1 }), lexer.token());
    assert_eq!(Some(Token::NUMBER { val: 1 }), lexer.token());
    assert_eq!(Some(Token::RPAREN), lexer.token());
    assert_eq!(Some(Token::NUMBER { val: 1 }), lexer.token());
    assert_eq!(Some(Token::RPAREN), lexer.token());
    assert_eq!(None, lexer.token());
}

#[test]
fn test_token_new() {
    let mut tables: Vec<(String, Token)> = Vec::new();

    let number_patterns: Vec<i64> = vec![-1, 0, 1, 2, 10, 100];
    for p in number_patterns.iter() {
        tables.push((p.to_string(), Token::NUMBER { val: *p }));
    }

    let symbol_patterns = vec!["a", "!", "+", "aa", "!!", "++", "a!", "a+", "!a", "+a"];
    for p in symbol_patterns.iter() {
        tables.push((p.to_string(), Token::SYMBOL { buf: p.to_string() }));
    }

    let other_patterns = vec!["\"\"hello, world\""];
    for p in other_patterns.iter() {
        tables.push((
            p.to_string(),
            Token::STRING {
                buf: "hello, world".into(),
            },
        ));
    }

    for (key, val) in tables {
        let result = Token::new(key.chars().collect());
        assert_eq!(val, result, "case: {} failed", key);
    }
}

#[test]
fn integer_literals_stop_at_the_64_bit_range() {
    let mut lexer = Lexer::new("-9223372036854775808".to_string());
    assert_eq!(Some(Token::NUMBER { val: i64::MIN }), lexer.token());
    assert_eq!(None, lexer.token());

    let mut lexer = Lexer::new("9223372036854775807".to_string());
    assert_eq!(Some(Token::NUMBER { val: i64::MAX }), lexer.token());
    assert_eq!(None, lexer.token());

    // one past the range: no longer a number, and no symbol may start with
    // a digit, so the run is unclassifiable
    let mut lexer = Lexer::new("9223372036854775808".to_string());
    assert_eq!(
        Some(Token::OTHER {
            buf: "9223372036854775808".to_string()
        }),
        lexer.token()
    );

    // with a sign it still reads as a (rather long) symbol name
    let mut lexer = Lexer::new("-9223372036854775809".to_string());
    assert_eq!(
        Some(Token::SYMBOL {
            buf: "-9223372036854775809".to_string()
        }),
        lexer.token()
    );
}
