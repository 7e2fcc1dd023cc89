use monolis::parser::Cell;
use monolis::token::{is_symboltoken, is_symch, Token};

#[test]
fn symbol_chars_lists_the_allowed_punctuation() {
    let chars = Token::symbol_chars();
    assert_eq!(vec!['!', '?', '+', '-', '*', '/', '=', '<', '>'], chars);
    for c in chars {
        assert!(is_symch(&c));
    }
    assert!(!is_symch(&'.'));
    assert!(!is_symch(&'a'));
}

#[test]
fn separate_chars_are_the_parentheses() {
    assert_eq!(vec!['(', ')'], Token::separate_chars());
}

#[test]
fn find_maps_the_fixed_tokens() {
    assert_eq!(Some(Token::LPAREN), Token::find(&'('));
    assert_eq!(Some(Token::RPAREN), Token::find(&')'));
    assert_eq!(Some(Token::QUOTE), Token::find(&'\''));
    assert_eq!(Some(Token::DOT), Token::find(&'.'));
    assert_eq!(None, Token::find(&'a'));
}

#[test]
fn symbol_tokens_must_not_start_with_a_digit() {
    assert!(is_symboltoken(&"abc".chars().collect()));
    assert!(is_symboltoken(&"a1".chars().collect()));
    assert!(is_symboltoken(&"<=>".chars().collect()));
    assert!(!is_symboltoken(&"1a".chars().collect()));
    assert!(!is_symboltoken(&"".chars().collect()));
    assert!(!is_symboltoken(&"a b".chars().collect()));
}

#[test]
fn cell_predicates_match_the_variants() {
    assert!(Cell::nil().is_nil());
    assert!(!Cell::nil().is_value());
    assert!(Cell::number(1).is_number());
    assert!(Cell::number(1).is_atom());
    assert!(Cell::symbol("a".to_string()).is_symbol());
    assert!(Cell::cons(Cell::number(1), Cell::nil()).is_list());
    assert!(Cell::FUNC.is_function());
}

#[test]
fn name_reads_a_symbol() {
    assert_eq!(Some("abc".to_string()), Cell::symbol("abc".to_string()).name());
    assert_eq!(None, Cell::number(1).name());
}

#[test]
fn assocsym_prepends_a_pair() {
    let list = monolis::assocsym(
        Cell::symbol("a".to_string()),
        Cell::number(1),
        Cell::nil(),
    );
    assert_eq!("((a . 1))", list.to_text());
    let longer = monolis::assocsym(Cell::symbol("b".to_string()), Cell::number(2), list);
    assert_eq!("((b . 2) (a . 1))", longer.to_text());
}

#[test]
fn duplicate_copies_the_whole_tree() {
    let tree = Cell::cons(
        Cell::symbol("a".to_string()),
        Cell::cons(Cell::number(2), Cell::number(3)),
    );
    let copy = tree.duplicate();
    assert_eq!(*tree, copy);
}
