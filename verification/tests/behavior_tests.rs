use monolis::fsubr::initfsubr;
use monolis::lexer::{Lexer, Tokenize};
use monolis::parser::{Cell, Parser, Sexp};
use monolis::subr::initsubr;
use monolis::token::Token;
use monolis::{eval, Env, ParseError};

fn parse_one(input: &str) -> Result<Sexp, ParseError> {
    let lexer = Lexer::new(input.to_string());
    Parser::new(lexer).parse()
}

fn session() -> Env {
    let mut genv = Env::default();
    initsubr(&mut genv);
    initfsubr(&mut genv);
    genv
}

fn eval_str(input: &str, genv: &mut Env) -> Result<Sexp, ParseError> {
    let tree = parse_one(input).unwrap();
    eval(&tree, genv)
}

// Rendering a parsed form and parsing it again gives the same tree, with
// the whitespace normalized.
#[test]
fn round_trip_examples() {
    for input in [
        "(+ (+ 1 2) 3)",
        "(1 (2 . 3) x)",
        "'(a b)",
        "(a . -7)",
        "((a b) (c d) . e)",
        "plain-symbol",
        "-42",
    ] {
        let first = parse_one(input).unwrap();
        let text = first.to_text();
        let again = parse_one(&text).unwrap();
        assert_eq!(first, again, "round trip failed for {}", input);
        assert_eq!(text, again.to_text());
    }
}

#[test]
fn whitespace_is_normalized() {
    let tree = parse_one("( +   1\t( *  2 2 )\n 3 )").unwrap();
    assert_eq!("(+ 1 (* 2 2) 3)", tree.to_text());
}

#[test]
fn empty_input_parses_to_nil() {
    let tree = parse_one("").unwrap();
    assert_eq!(Cell::nil(), tree);
    assert_eq!("nil", tree.to_text());
}

#[test]
fn dotted_pairs_parse_and_print() {
    assert_eq!("(1 . 2)", parse_one("(1 . 2)").unwrap().to_text());
    assert_eq!("(1 2 . 3)", parse_one("(1 2 . 3)").unwrap().to_text());
}

#[test]
fn unbalanced_input_is_a_syntax_error() {
    let r = parse_one("(1 2");
    assert!(matches!(r, Err(ParseError::Syntax)));
}

#[test]
fn stray_closing_paren_is_a_syntax_error() {
    let r = parse_one(")");
    assert!(matches!(r, Err(ParseError::Syntax)));
}

#[test]
fn dotted_pair_without_closing_paren_is_a_syntax_error() {
    let r = parse_one("(1 . 2 3)");
    assert!(matches!(r, Err(ParseError::Syntax)));
}

#[test]
fn unclassifiable_run_is_a_lexical_error() {
    let r = parse_one("1.5");
    assert!(matches!(r, Err(ParseError::Lexical { .. })));
    let r = parse_one("(a #,)");
    assert!(matches!(r, Err(ParseError::Lexical { .. })));
}

// The escaped quote stays inside one string token.
#[test]
fn string_token_keeps_escaped_quote() {
    let mut lexer = Lexer::new("\"a \\\" b\"".to_string());
    let tok = lexer.token().unwrap();
    match tok {
        Token::STRING { buf } => {
            assert_eq!("a \\\" b", buf);
            assert!(buf.contains('"'));
        },
        other => panic!("expected a string token, got {:?}", other),
    }
    assert_eq!(None, lexer.token());
}

#[test]
fn unbound_symbol_is_an_error_not_nil() {
    let mut genv = session();
    let r = eval_str("no-such-name", &mut genv);
    assert!(matches!(r, Err(ParseError::Nosymbol { .. })));
}

#[test]
fn number_in_call_position_is_a_type_error() {
    let mut genv = session();
    let r = eval_str("(1 2)", &mut genv);
    assert!(matches!(r, Err(ParseError::NotNumber { .. })));
}

#[test]
fn arithmetic_on_non_number_is_a_type_error() {
    let mut genv = session();
    let r = eval_str("(+ 1 'a)", &mut genv);
    assert!(matches!(r, Err(ParseError::NotNumber { .. })));
}

#[test]
fn division_by_zero_is_an_error() {
    let mut genv = session();
    assert!(matches!(
        eval_str("(/ 1 0)", &mut genv),
        Err(ParseError::DivideByZero)
    ));
    assert!(matches!(
        eval_str("(mod 1 0)", &mut genv),
        Err(ParseError::DivideByZero)
    ));
}

#[test]
fn division_truncates_toward_zero() {
    let mut genv = session();
    assert_eq!(Cell::number(-3), eval_str("(/ 7 -2)", &mut genv).unwrap());
    assert_eq!(Cell::number(-3), eval_str("(/ -7 2)", &mut genv).unwrap());
    assert_eq!(Cell::number(3), eval_str("(/ -7 -2)", &mut genv).unwrap());
}

#[test]
fn modulus_of_numbers() {
    let mut genv = session();
    assert_eq!(Cell::number(1), eval_str("(mod 7 3)", &mut genv).unwrap());
    assert_eq!(Cell::number(-1), eval_str("(mod -7 3)", &mut genv).unwrap());
}

#[test]
fn modulus_of_non_numbers_is_a_type_error() {
    let mut genv = session();
    assert!(matches!(
        eval_str("(mod 'a 1)", &mut genv),
        Err(ParseError::NotNumber { .. })
    ));
    assert!(matches!(
        eval_str("(mod 1 'a)", &mut genv),
        Err(ParseError::NotNumber { .. })
    ));
}

#[test]
fn addition_wraps_at_the_64_bit_boundary() {
    let mut genv = session();
    assert_eq!(
        Cell::number(i64::MIN),
        eval_str("(+ 9223372036854775807 1)", &mut genv).unwrap()
    );
}

#[test]
fn and_compares_adjacent_pairs() {
    let mut genv = session();
    assert_eq!(
        Cell::symbol("t".to_string()),
        eval_str("(and 1 1 1)", &mut genv).unwrap()
    );
    assert_eq!(Cell::nil(), eval_str("(and 1 2)", &mut genv).unwrap());
    assert_eq!(
        Cell::symbol("t".to_string()),
        eval_str("(and 5)", &mut genv).unwrap()
    );
}

#[test]
fn or_finds_an_equal_adjacent_pair() {
    let mut genv = session();
    assert_eq!(Cell::nil(), eval_str("(or 1 2)", &mut genv).unwrap());
    assert_eq!(
        Cell::symbol("t".to_string()),
        eval_str("(or 1 2 2)", &mut genv).unwrap()
    );
    assert_eq!(Cell::nil(), eval_str("(or 5)", &mut genv).unwrap());
}

#[test]
fn eq_works_on_structures() {
    let mut genv = session();
    assert_eq!(
        Cell::symbol("t".to_string()),
        eval_str("(eq '(a b) '(a b))", &mut genv).unwrap()
    );
    assert_eq!(
        Cell::nil(),
        eval_str("(eq '(a b) '(a c))", &mut genv).unwrap()
    );
}

// `=` answers with the first operand itself, a truthy value; `eq` with the
// symbol `t`.
#[test]
fn equality_returns_the_first_operand() {
    let mut genv = session();
    assert_eq!(
        parse_one("(a b)").unwrap(),
        eval_str("(= '(a b) '(a b))", &mut genv).unwrap()
    );
    assert_eq!(Cell::nil(), eval_str("(= '(a b) '(a c))", &mut genv).unwrap());
    assert_eq!(
        Cell::symbol("t".to_string()),
        eval_str("(eq 2 2)", &mut genv).unwrap()
    );
}

#[test]
fn setq_binds_and_returns_the_value() {
    let mut genv = session();
    assert_eq!(Cell::number(3), eval_str("(setq x (+ 1 2))", &mut genv).unwrap());
    assert_eq!(Cell::number(3), eval_str("x", &mut genv).unwrap());
    assert_eq!(Cell::number(4), eval_str("(setq x 4)", &mut genv).unwrap());
    assert_eq!(Cell::number(4), eval_str("x", &mut genv).unwrap());
}

#[test]
fn defun_registers_under_the_name() {
    let mut genv = session();
    assert_eq!(
        Cell::symbol("foo".to_string()),
        eval_str("(defun foo (x) x)", &mut genv).unwrap()
    );
    assert_eq!("((x) x)", eval_str("foo", &mut genv).unwrap().to_text());
}

#[test]
fn print_collects_a_line_and_returns_nil() {
    let mut genv = session();
    assert_eq!(Cell::nil(), eval_str("(print 1 'a)", &mut genv).unwrap());
    let lines = genv.take_output();
    assert_eq!(vec!["1 a ".to_string()], lines);
    assert!(genv.take_output().is_empty());
}

#[test]
fn quote_leaves_the_form_unevaluated() {
    let mut genv = session();
    assert_eq!("(+ 1 2)", eval_str("'(+ 1 2)", &mut genv).unwrap().to_text());
}

#[test]
fn numbers_and_nil_evaluate_to_themselves() {
    let mut genv = session();
    assert_eq!(Cell::number(7), eval_str("7", &mut genv).unwrap());
    assert_eq!(Cell::nil(), eval_str("()", &mut genv).unwrap());
}

#[test]
fn primitives_render_with_their_names() {
    let mut genv = session();
    assert_eq!("<subr: +>", eval_str("+", &mut genv).unwrap().to_text());
    assert_eq!("<fsubr: if>", eval_str("if", &mut genv).unwrap().to_text());
}

// A nil element is written out like any other, not swallowed.
#[test]
fn nil_elements_render_compositionally() {
    assert_eq!("(nil 1)", parse_one("(() 1)").unwrap().to_text());
    assert_eq!("(1 nil 2)", parse_one("(1 () 2)").unwrap().to_text());
}

#[test]
fn unicode_whitespace_separates_tokens() {
    let mut lexer = Lexer::new("\u{a0}1".to_string());
    assert_eq!(Some(Token::NUMBER { val: 1 }), lexer.token());
    assert_eq!(None, lexer.token());
    assert_eq!("(1 2)", parse_one("(1\u{3000}2)").unwrap().to_text());
}

// The decision pipeline of a fizzbuzz program: registration by defun, then
// mod, equality, conjunction and print working together.  Note the pairwise
// `and`: when a number divides by neither 3 nor 5, both comparisons are nil,
// the adjacent pair is equal, and `and` answers `t` — so such numbers also
// print `fizzbuzz` under these semantics.
#[test]
fn fizzbuzz_decision_pipeline() {
    let mut genv = session();
    let program = "(defun fizzbuzz (x) \
                   (if (and (= 0 (mod x 3)) (= 0 (mod x 5))) \
                     (print 'fizzbuzz) \
                     (if (= 0 (mod x 5)) \
                       (print 'buzz) \
                       (if (= 0 (mod x 3)) \
                         (print 'fizz) \
                         (print x)))))";
    assert_eq!(
        Cell::symbol("fizzbuzz".to_string()),
        eval_str(program, &mut genv).unwrap()
    );
    // the registration holds the argument-and-body list
    assert!(eval_str("fizzbuzz", &mut genv).unwrap().to_text().starts_with("((x)"));
    // the decision the body takes for concrete arguments
    for n in [15, 9, 10, 7] {
        let step = format!(
            "(if (and (= 0 (mod {n} 3)) (= 0 (mod {n} 5))) \
               (print 'fizzbuzz) \
               (if (= 0 (mod {n} 5)) \
                 (print 'buzz) \
                 (if (= 0 (mod {n} 3)) \
                   (print 'fizz) \
                   (print {n}))))"
        );
        assert_eq!(Cell::nil(), eval_str(&step, &mut genv).unwrap());
    }
    assert_eq!(
        vec![
            "fizzbuzz ".to_string(),
            "fizz ".to_string(),
            "buzz ".to_string(),
            "fizzbuzz ".to_string(),
        ],
        genv.take_output()
    );
}

#[test]
fn negative_literals_lex_as_numbers() {
    let mut lexer = Lexer::new("-5".to_string());
    assert_eq!(Some(Token::NUMBER { val: -5 }), lexer.token());
    assert_eq!(None, lexer.token());
}

#[test]
fn cell_accessors_walk_the_tree() {
    let tree = parse_one("(1 2 3)").unwrap();
    assert_eq!(Cell::number(1), tree.car());
    assert_eq!(Cell::number(2), tree.cadr());
    assert_eq!("(2 3)", tree.cdr().to_text());
    let nested = parse_one("((9 8) 7)").unwrap();
    assert_eq!(Cell::number(9), nested.caar());
}

#[test]
fn set_car_and_set_cdr_rewrite_a_node() {
    let mut tree = *parse_one("(1 . 2)").unwrap();
    tree.set_car(Cell::number(9));
    assert_eq!("(9 . 2)", tree.to_text());
    tree.set_cdr(Cell::nil());
    assert_eq!("(9)", tree.to_text());
}

#[test]
fn assoc_finds_the_first_matching_pair() {
    let list = parse_one("((a . 1) (b . 2))").unwrap();
    let key = Cell::symbol("b".to_string());
    assert_eq!(
        "(b . 2)",
        monolis::assoc(&key, &list).to_text()
    );
    let missing = Cell::symbol("z".to_string());
    assert_eq!(Cell::nil(), monolis::assoc(&missing, &list));
}

#[test]
fn runaway_recursion_reports_the_ceiling() {
    let mut genv = session();
    let mut expr = Cell::number(1);
    let mut depth: usize = 0;
    while depth < 6000 {
        expr = Cell::cons(
            Cell::symbol("+".to_string()),
            Cell::cons(expr, Cell::nil()),
        );
        depth += 1;
    }
    let r = eval(&expr, &mut genv);
    assert!(matches!(r, Err(ParseError::TooDeep)));
}
