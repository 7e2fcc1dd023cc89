use monolis::lexer::{Lexer, Tokenize};
use monolis::parser::Parser;
use monolis::token::Token;

struct MockLexer {
    tokens: Vec<Token>,
    position: usize,
}

impl MockLexer {
    pub fn new(tokens: Vec<Token>) -> Self {
        Self {
            tokens,
            position: 0,
        }
    }
}

impl Tokenize for MockLexer {
    // The ghost view of the stream; never called at run time.
    fn toks(&self) -> vstd::seq::Seq<monolis::token::TokV> {
        panic!()
    }

    fn token(&mut self) -> Option<Token> {
        let token = self.tokens.get(self.position)?;
        self.position += 1;
        Some(token.clone())
    }
}

#[test]
fn test_parse_tree() {
    let tokens = vec![
        Token::LPAREN,
        Token::new("+".chars().collect()),
        Token::new("1".chars().collect()),
        Token::new("2".chars().collect()),
        Token::RPAREN,
    ];
    let lexer = MockLexer::new(tokens);
    let tree = Parser::new(lexer).parse().unwrap();
    assert_eq!("(+ 1 2)", tree.to_text());
}

#[test]
fn parser_test_eval_plus() {
    let tokens = vec![
        Token::LPAREN,
        Token::new("+".chars().collect()),
        Token::new("1".chars().collect()),
        Token::LPAREN,
        Token::new("+".chars().collect()),
        Token::new("2".chars().collect()),
        Token::new("3".chars().collect()),
        Token::RPAREN,
        Token::RPAREN,
    ];
    let lexer = MockLexer::new(tokens);
    let tree = Parser::new(lexer).parse().unwrap();
    assert_eq!("(+ 1 (+ 2 3))", tree.to_text());
}

#[test]
fn test_parsed_tree_print_as_is() {
    let lexer = Lexer::new("(+ (+ 1 2) 3)".to_string());
    let tree = Parser::new(lexer).parse().unwrap();
    assert_eq!("(+ (+ 1 2) 3)", tree.to_text());
    for f in tree.iter() {
        println!("{:?} ", f);
    }

    let lexer = Lexer::new("(+   (+ 1  2) 3)".to_string());
    let tree = Parser::new(lexer).parse().unwrap();
    assert_eq!("(+ (+ 1 2) 3)", tree.to_text());
    for f in tree.iter() {
        println!("{:?} ", f);
    }
}

#[test]
fn test_parse_with_quote() {
    let lexer = Lexer::new("'1".to_string());
    let tree = Parser::new(lexer).parse().unwrap();
    assert_eq!("(quote 1)", tree.to_text());
}
