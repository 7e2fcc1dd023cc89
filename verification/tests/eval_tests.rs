use monolis::fsubr::initfsubr;
use monolis::parser::{Cell, Parser, Sexp};
use monolis::subr::initsubr;
use monolis::{eval, Env, Lexer};

fn assert_eval(expect: Sexp, input: &str) {
    let lexer = Lexer::new(String::from(input));
    let tree = Parser::new(lexer).parse().unwrap();

    let mut genv = Env::default();
    initsubr(&mut genv);
    initfsubr(&mut genv);

    assert_eq!(expect, eval(&tree, &mut genv).unwrap());
}

#[test]
fn lib_test_eval_plus() {
    assert_eval(Cell::number(6), "(+ (+ 1 2) 3)");
    assert_eval(Cell::number(6), "(+ 1 2 3)");
}

#[test]
fn test_eval_minus() {
    assert_eval(Cell::number(0), "(- (- 2 1) 3)");
    assert_eval(Cell::number(-6), "(- 3 2 1)");
}

#[test]
fn test_eval_multi() {
    assert_eval(Cell::number(24), "(* (* 2 3) 4)");
}

#[test]
fn test_eval_div() {
    assert_eval(Cell::number(1), "(/ (/ 8 4) 2)")
}

#[test]
fn test_eval_equal() {
    assert_eval(Cell::nil(), "(= 2 1)");
    assert_eval(Cell::number(2), "(= 2 2)");
}

#[test]
fn test_eval_eq() {
    assert_eval(Cell::nil(), "(eq 'a 'b)");
    assert_eval(Cell::symbol("t".to_string()), "(eq 'a 'a)");
}

#[test]
fn test_eval_if() {
    assert_eval(Cell::number(1), "(if (= 1 1) 1 2)");
    assert_eval(Cell::number(2), "(if (= 2 1) 1 2)");
}

#[test]
fn test_f_plus_playground() {
    let lexer = Lexer::new("(+ 1 2 3 )".to_string());
    let mut parser = Parser::new(lexer);

    let tree = parser.parse().unwrap();
    println!("{:?}", tree);
}
