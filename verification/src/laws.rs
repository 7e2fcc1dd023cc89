//! Properties tying rendering, lexing and parsing together: a tree made of
//! numbers, symbols and cons nodes prints as text that reads back as the
//! same tree.

use vstd::prelude::*;
use crate::token::{
    all_digits, classify, digit_val, digits_val, int_body, int_literal_val, is_digit_char,
    is_int_literal, is_neg_literal, is_symbol_char, is_symbol_text, is_ws_char, TokV,
};
use crate::lexer::{
    is_break_char, is_punct_char, lemma_run_len_index, punct_tok, run_len, tokens_of,
};
use crate::parser::{
    dec_digits, digit_char_of, int_text, parse_form, parse_list_spec, parse_spec, parse_tail,
    render_list_spec, render_spec, sz, CellV, ParseOut, lemma_parse_form_fuel,
    lemma_parse_tail_fuel,
};
use crate::ErrV;

verus! {

// ---------------------------------------------------------------------------
// Which trees have a faithful display text
// ---------------------------------------------------------------------------

/// A tree whose display text reads back as the same tree: numbers within the
/// 64-bit range, symbols whose names classify as symbol tokens, and cons
/// nodes of such trees, with nil allowed only as a list terminator.  The
/// empty list, the primitives and the function placeholder have display
/// forms that do not read back.
pub open spec fn printable(t: CellV) -> bool
    decreases sz(t),
{
    match t {
        CellV::NUMBER { val } => i64::MIN <= val <= i64::MAX,
        CellV::SYMBOL { name } => is_symbol_text(name) && !is_int_literal(name),
        CellV::CONS { car, cdr } => printable(*car) && (*cdr is NIL || printable(*cdr)),
        _ => false,
    }
}

/// The canonical token sequence of a printable tree.
pub open spec fn tree_toks(t: CellV) -> Seq<TokV>
    decreases sz(t), 1nat,
{
    match t {
        CellV::NUMBER { val } => seq![TokV::NUMBER { val }],
        CellV::SYMBOL { name } => seq![TokV::SYMBOL { name }],
        CellV::CONS { .. } => seq![TokV::LPAREN] + list_toks(t),
        _ => Seq::empty(),
    }
}

/// The canonical token sequence of a printable list body, closing
/// parenthesis included.
pub open spec fn list_toks(t: CellV) -> Seq<TokV>
    decreases sz(t), 0nat,
{
    match t {
        CellV::CONS { car, cdr } => {
            if !(*cdr is NIL) && !(*cdr is CONS) {
                tree_toks(*car) + seq![TokV::DOT] + tree_toks(*cdr) + seq![TokV::RPAREN]
            } else if *cdr is NIL {
                tree_toks(*car) + seq![TokV::RPAREN]
            } else {
                tree_toks(*car) + list_toks(*cdr)
            }
        },
        _ => seq![TokV::RPAREN],
    }
}

// ---------------------------------------------------------------------------
// Lexing a rendered tree
// ---------------------------------------------------------------------------

/// A maximal bareword at the head of the stream lexes to its classification.
proof fn lemma_lex_word(w: Seq<char>, rest: Seq<char>)
    requires
        w.len() > 0,
        forall|i: int| 0 <= i < w.len() ==> !is_break_char(#[trigger] w[i]),
        !is_punct_char(w[0]),
        w[0] != '"',
        rest.len() == 0 || is_break_char(rest[0]),
    ensures
        tokens_of(w + rest) == seq![classify(w)] + tokens_of(rest),
{
    let s = w + rest;
    assert(s[0] == w[0]);
    assert(!is_ws_char(s[0]));
    let body = s.skip(1);
    assert(forall|i: int| 0 <= i < w.len() - 1 ==> #[trigger] body[i] == w[i + 1]);
    if rest.len() > 0 {
        assert(body[w.len() - 1] == rest[0]);
    }
    lemma_run_len_index(body, w.len() - 1);
    let n = 1 + run_len(body);
    assert(n == w.len());
    assert(s.take(n as int) =~= w);
    assert(s.skip(n as int) =~= rest);
}

/// The decimal digits of a number: nonempty, all digits, with the value
/// written.
proof fn lemma_dec_digits(n: nat)
    ensures
        dec_digits(n).len() >= 1,
        all_digits(dec_digits(n)),
        digits_val(dec_digits(n)) == n,
    decreases n,
{
    if n < 10 {
        let d = dec_digits(n);
        assert(d == seq![digit_char_of(n as int)]);
        assert(is_digit_char(digit_char_of(n as int)));
        assert(d.drop_last() =~= Seq::<char>::empty());
        assert(digits_val(d) == 10 * digits_val(Seq::<char>::empty()) + digit_val(d.last()));
        assert(digit_val(digit_char_of(n as int)) == n);
    } else {
        lemma_dec_digits(n / 10);
        let d = dec_digits(n);
        let head = dec_digits(n / 10);
        assert(d == head + seq![digit_char_of((n % 10) as int)]);
        assert(d.drop_last() =~= head);
        assert(d.last() == digit_char_of((n % 10) as int));
        assert(is_digit_char(digit_char_of((n % 10) as int)));
        assert(all_digits(d)) by {
            assert(forall|i: int| 0 <= i < head.len() ==> d[i] == #[trigger] head[i]);
        }
        assert(digit_val(digit_char_of((n % 10) as int)) == n % 10);
        assert(digits_val(d) == 10 * (n / 10) + n % 10);
        assert(n == 10 * (n / 10) + n % 10) by {
            vstd::arithmetic::div_mod::lemma_fundamental_div_mod(n as int, 10);
        }
    }
}

/// A digit is an unremarkable word character.
proof fn lemma_digit_char_plain(c: char)
    requires
        is_digit_char(c),
    ensures
        !is_break_char(c),
        !is_punct_char(c),
        c != '"',
        c != '+',
        c != '-',
    {
}

/// The decimal text of a 64-bit number classifies as that number.
proof fn lemma_number_text(v: int)
    requires
        i64::MIN <= v <= i64::MAX,
    ensures
        int_text(v).len() > 0,
        forall|i: int| 0 <= i < int_text(v).len() ==> !is_break_char(#[trigger] int_text(v)[i]),
        !is_punct_char(int_text(v)[0]),
        int_text(v)[0] != '"',
        classify(int_text(v)) == (TokV::NUMBER { val: v }),
{
    let w = int_text(v);
    if v < 0 {
        let d = dec_digits((-v) as nat);
        lemma_dec_digits((-v) as nat);
        assert(w == seq!['-'] + d);
        assert(w[0] == '-');
        assert(forall|i: int| 0 <= i < d.len() ==> #[trigger] w[i + 1] == d[i]);
        assert(forall|i: int| 0 <= i < w.len() ==> !is_break_char(#[trigger] w[i])) by {
            assert(forall|i: int| 1 <= i < w.len() ==> is_digit_char(#[trigger] w[i]));
        }
        assert(is_neg_literal(w));
        assert(int_body(w) =~= d);
        assert(is_int_literal(w));
        assert(int_literal_val(w) == v);
    } else {
        lemma_dec_digits(v as nat);
        assert(w == dec_digits(v as nat));
        assert(is_digit_char(w[0]));
        lemma_digit_char_plain(w[0]);
        assert(forall|i: int| 0 <= i < w.len() ==> !is_break_char(#[trigger] w[i])) by {
            assert(forall|i: int| 0 <= i < w.len() ==> is_digit_char(#[trigger] w[i]));
        }
        assert(int_body(w) == w);
        assert(!is_neg_literal(w));
        assert(is_int_literal(w));
        assert(int_literal_val(w) == v);
    }
}

/// A symbol character is neither a break, nor punctuation, nor a quote.
proof fn lemma_symbol_char_plain(c: char)
    requires
        is_symbol_char(c),
    ensures
        !is_break_char(c),
        !is_punct_char(c),
        c != '"',
{
}

/// Lexing ignores leading whitespace.
proof fn lemma_lex_ws(s: Seq<char>)
    requires
        s.len() > 0,
        is_ws_char(s[0]),
    ensures
        tokens_of(s) == tokens_of(s.drop_first()),
{
}

/// A leading parenthesis, quote mark or dot lexes to its own token.
proof fn lemma_lex_punct(s: Seq<char>)
    requires
        s.len() > 0,
        is_punct_char(s[0]),
        !is_ws_char(s[0]),
    ensures
        tokens_of(s) == seq![punct_tok(s[0])] + tokens_of(s.drop_first()),
{
}

/// Rendering a printable tree and lexing yields its canonical tokens, in
/// front of whatever the following text yields; the following text must not
/// begin mid-word.
proof fn lemma_render_lex(t: CellV, rest: Seq<char>)
    requires
        printable(t),
        rest.len() == 0 || is_break_char(rest[0]),
    ensures
        tokens_of(render_spec(t) + rest) == tree_toks(t) + tokens_of(rest),
    decreases sz(t), 2nat,
{
    match t {
        CellV::NUMBER { val } => {
            lemma_number_text(val);
            lemma_lex_word(int_text(val), rest);
        },
        CellV::SYMBOL { name } => {
            assert(forall|i: int| 0 <= i < name.len() ==> !is_break_char(#[trigger] name[i])) by {
                assert(forall|i: int|
                    0 <= i < name.len() ==> is_symbol_char(#[trigger] name[i]));
                assert forall|i: int| 0 <= i < name.len() implies !is_break_char(
                    #[trigger] name[i],
                ) by {
                    lemma_symbol_char_plain(name[i]);
                }
            }
            lemma_symbol_char_plain(name[0]);
            lemma_lex_word(name, rest);
            assert(classify(name) == (TokV::SYMBOL { name }));
        },
        CellV::CONS { .. } => {
            let s = render_spec(t) + rest;
            assert(render_spec(t) == seq!['('] + render_list_spec(t));
            assert(s[0] == '(');
            assert(punct_tok('(') == TokV::LPAREN);
            lemma_lex_punct(s);
            assert(s.drop_first() =~= render_list_spec(t) + rest);
            lemma_render_list_lex(t, rest);
            assert(tokens_of(s) =~= tree_toks(t) + tokens_of(rest));
        },
        _ => {},
    }
}

/// The same for a list body: its text lexes to the body's canonical tokens.
proof fn lemma_render_list_lex(t: CellV, rest: Seq<char>)
    requires
        t is CONS,
        printable(t),
        rest.len() == 0 || is_break_char(rest[0]),
    ensures
        tokens_of(render_list_spec(t) + rest) == list_toks(t) + tokens_of(rest),
    decreases sz(t), 1nat,
{
    match t {
        CellV::CONS { car, cdr } => {
            if !(*cdr is NIL) && !(*cdr is CONS) {
                lemma_render_list_lex_dotted(t, *car, *cdr, rest);
            } else if *cdr is NIL {
                lemma_render_list_lex_last(t, *car, rest);
            } else {
                lemma_render_list_lex_inner(t, *car, *cdr, rest);
            }
        },
        _ => {},
    }
}

/// A dotted tail:  `car . cdr)` lexes to the element, a dot, the tail and
/// the closing parenthesis.
#[verifier::rlimit(100)]
proof fn lemma_render_list_lex_dotted(t: CellV, head: CellV, tail: CellV, rest: Seq<char>)
    requires
        t == (CellV::CONS { car: Box::new(head), cdr: Box::new(tail) }),
        printable(t),
        !(tail is NIL),
        !(tail is CONS),
        rest.len() == 0 || is_break_char(rest[0]),
    ensures
        tokens_of(render_list_spec(t) + rest) == list_toks(t) + tokens_of(rest),
    decreases sz(t), 0nat,
{
    let mid = seq![' ', '.', ' '] + render_spec(tail) + seq![')'] + rest;
    let body = render_spec(head) + seq![' ', '.', ' '] + render_spec(tail) + seq![')'];
    assert(printable(head) && printable(tail));
    assert(!(head is NIL));
    assert(render_list_spec(t) == body);
    assert(body + rest =~= render_spec(head) + mid);
    lemma_render_lex(head, mid);
    assert(tokens_of(render_list_spec(t) + rest) == tree_toks(head) + tokens_of(mid));
    let m1 = seq!['.', ' '] + render_spec(tail) + seq![')'] + rest;
    assert(mid.drop_first() =~= m1);
    lemma_lex_ws(mid);
    let m2 = seq![' '] + render_spec(tail) + seq![')'] + rest;
    assert(punct_tok('.') == TokV::DOT);
    assert(m1.drop_first() =~= m2);
    lemma_lex_punct(m1);
    let m3 = render_spec(tail) + (seq![')'] + rest);
    assert(m2.drop_first() =~= m3);
    lemma_lex_ws(m2);
    assert(is_break_char(')'));
    lemma_render_lex(tail, seq![')'] + rest);
    let m4 = seq![')'] + rest;
    assert(tokens_of(m3) == tree_toks(tail) + tokens_of(m4));
    assert(punct_tok(')') == TokV::RPAREN);
    assert(m4.drop_first() =~= rest);
    lemma_lex_punct(m4);
    assert(list_toks(t) == tree_toks(head) + seq![TokV::DOT] + tree_toks(tail)
        + seq![TokV::RPAREN]);
    assert(tokens_of(render_list_spec(t) + rest) =~= list_toks(t) + tokens_of(rest));
}

/// The last element:  `car)` lexes to the element and the closing
/// parenthesis.
#[verifier::rlimit(100)]
proof fn lemma_render_list_lex_last(t: CellV, head: CellV, rest: Seq<char>)
    requires
        t == (CellV::CONS { car: Box::new(head), cdr: Box::new(CellV::NIL) }),
        printable(t),
        rest.len() == 0 || is_break_char(rest[0]),
    ensures
        tokens_of(render_list_spec(t) + rest) == list_toks(t) + tokens_of(rest),
    decreases sz(t), 0nat,
{
    let m4 = seq![')'] + rest;
    let body = render_spec(head) + seq![')'];
    assert(printable(head));
    assert(!(head is NIL));
    assert(render_list_spec(t) == body);
    assert(body + rest =~= render_spec(head) + m4);
    assert(is_break_char(')'));
    lemma_render_lex(head, m4);
    assert(tokens_of(render_list_spec(t) + rest) == tree_toks(head) + tokens_of(m4));
    assert(punct_tok(')') == TokV::RPAREN);
    assert(m4.drop_first() =~= rest);
    lemma_lex_punct(m4);
    assert(list_toks(t) == tree_toks(head) + seq![TokV::RPAREN]);
    assert(tokens_of(render_list_spec(t) + rest) =~= list_toks(t) + tokens_of(rest));
}

/// An inner element:  `car ` followed by the rest of the list.
#[verifier::rlimit(100)]
proof fn lemma_render_list_lex_inner(t: CellV, head: CellV, tail: CellV, rest: Seq<char>)
    requires
        t == (CellV::CONS { car: Box::new(head), cdr: Box::new(tail) }),
        printable(t),
        tail is CONS,
        rest.len() == 0 || is_break_char(rest[0]),
    ensures
        tokens_of(render_list_spec(t) + rest) == list_toks(t) + tokens_of(rest),
    decreases sz(t), 0nat,
{
    let m1 = seq![' '] + render_list_spec(tail) + rest;
    let body = render_spec(head) + seq![' '] + render_list_spec(tail);
    assert(printable(head) && printable(tail));
    assert(!(head is NIL));
    assert(render_list_spec(t) == body);
    assert(body + rest =~= render_spec(head) + m1);
    assert(is_break_char(' '));
    lemma_render_lex(head, m1);
    assert(tokens_of(render_list_spec(t) + rest) == tree_toks(head) + tokens_of(m1));
    let m2 = render_list_spec(tail) + rest;
    assert(m1.drop_first() =~= m2);
    lemma_lex_ws(m1);
    lemma_render_list_lex(tail, rest);
    assert(list_toks(t) == tree_toks(head) + list_toks(tail));
    assert(tokens_of(render_list_spec(t) + rest) =~= list_toks(t) + tokens_of(rest));
}

// ---------------------------------------------------------------------------
// Parsing the canonical tokens back
// ---------------------------------------------------------------------------

/// The canonical tokens of a printable tree begin with a number, a symbol or
/// an opening parenthesis.
proof fn lemma_tree_toks_head(t: CellV)
    requires
        printable(t),
    ensures
        tree_toks(t).len() > 0,
        tree_toks(t)[0] is NUMBER || tree_toks(t)[0] is SYMBOL || tree_toks(t)[0] is LPAREN,
{
}

/// Reading the canonical tokens of a printable tree yields the tree and
/// leaves the following tokens untouched.
proof fn lemma_parse_tree_toks(t: CellV, rest: Seq<TokV>)
    requires
        printable(t),
    ensures
        parse_spec(tree_toks(t) + rest) == (ParseOut {
            res: Ok::<CellV, ErrV>(t),
            rest,
        }),
    decreases sz(t), 1nat,
{
    let toks = tree_toks(t) + rest;
    let fuel = (toks.len() + 1) as nat;
    match t {
        CellV::NUMBER { val } => {
            assert(toks[0] == (TokV::NUMBER { val }));
            assert(toks.drop_first() =~= rest);
        },
        CellV::SYMBOL { name } => {
            assert(toks[0] == (TokV::SYMBOL { name }));
            assert(toks.drop_first() =~= rest);
        },
        CellV::CONS { .. } => {
            assert(toks[0] == TokV::LPAREN);
            assert(toks.drop_first() =~= list_toks(t) + rest);
            lemma_parse_list_toks(t, rest);
            lemma_parse_tail_fuel(
                list_toks(t) + rest,
                (fuel - 1) as nat,
                ((list_toks(t) + rest).len() + 1) as nat,
            );
        },
        _ => {},
    }
}

/// Reading the canonical tokens of a printable list body yields the list.
proof fn lemma_parse_list_toks(t: CellV, rest: Seq<TokV>)
    requires
        t is CONS,
        printable(t),
    ensures
        parse_list_spec(list_toks(t) + rest) == (ParseOut {
            res: Ok::<CellV, ErrV>(t),
            rest,
        }),
    decreases sz(t), 0nat,
{
    match t {
        CellV::CONS { car, cdr } => {
            let toks = list_toks(t) + rest;
            let fuel = (toks.len() + 1) as nat;
            lemma_tree_toks_head(*car);
            assert(toks[0] == tree_toks(*car)[0]);
            assert(!(toks[0] is RPAREN) && !(toks[0] is DOT));
            if !(*cdr is NIL) && !(*cdr is CONS) {
                let r1 = seq![TokV::DOT] + tree_toks(*cdr) + seq![TokV::RPAREN] + rest;
                assert(toks =~= tree_toks(*car) + r1);
                lemma_parse_tree_toks(*car, r1);
                lemma_parse_form_fuel(toks, fuel, (toks.len() + 1) as nat);
                let p = parse_form(toks, fuel);
                assert(p == parse_spec(toks)) by {
                    lemma_parse_form_fuel(toks, fuel, (toks.len() + 1) as nat);
                }
                assert(p.res == Ok::<CellV, ErrV>(*car) && p.rest == r1);
                // the tail after the element: a dot, one form, a closing paren
                assert(r1[0] is DOT);
                let r2 = tree_toks(*cdr) + (seq![TokV::RPAREN] + rest);
                assert(r1.drop_first() =~= r2);
                lemma_parse_tree_toks(*cdr, seq![TokV::RPAREN] + rest);
                lemma_parse_form_fuel(r2, (fuel - 2) as nat, (r2.len() + 1) as nat);
                let p2 = parse_form(r2, (fuel - 2) as nat);
                assert(p2.res == Ok::<CellV, ErrV>(*cdr) && p2.rest == seq![TokV::RPAREN] + rest);
                assert((seq![TokV::RPAREN] + rest)[0] is RPAREN);
                assert((seq![TokV::RPAREN] + rest).drop_first() =~= rest);
                lemma_parse_tail_fuel(r1, (fuel - 1) as nat, (r1.len() + 1) as nat);
                assert(parse_tail(r1, (fuel - 1) as nat).res == Ok::<CellV, ErrV>(*cdr));
                assert(parse_tail(r1, (fuel - 1) as nat).rest == rest);
                assert(parse_tail(toks, fuel).res == Ok::<CellV, ErrV>(t));
                lemma_parse_tail_fuel(toks, fuel, (toks.len() + 1) as nat);
            } else if *cdr is NIL {
                let r1 = seq![TokV::RPAREN] + rest;
                assert(toks =~= tree_toks(*car) + r1);
                lemma_parse_tree_toks(*car, r1);
                lemma_parse_form_fuel(toks, fuel, (toks.len() + 1) as nat);
                let p = parse_form(toks, fuel);
                assert(p.res == Ok::<CellV, ErrV>(*car) && p.rest == r1);
                assert(r1[0] is RPAREN);
                assert(r1.drop_first() =~= rest);
                lemma_parse_tail_fuel(r1, (fuel - 1) as nat, (r1.len() + 1) as nat);
                assert(parse_tail(r1, (fuel - 1) as nat) == (ParseOut {
                    res: Ok::<CellV, ErrV>(CellV::NIL),
                    rest,
                }));
                assert(parse_tail(toks, fuel).res == Ok::<CellV, ErrV>(t));
                lemma_parse_tail_fuel(toks, fuel, (toks.len() + 1) as nat);
            } else {
                let r1 = list_toks(*cdr) + rest;
                assert(toks =~= tree_toks(*car) + r1);
                lemma_parse_tree_toks(*car, r1);
                lemma_parse_form_fuel(toks, fuel, (toks.len() + 1) as nat);
                let p = parse_form(toks, fuel);
                assert(p.res == Ok::<CellV, ErrV>(*car) && p.rest == r1);
                lemma_parse_list_toks(*cdr, rest);
                lemma_parse_tail_fuel(r1, (fuel - 1) as nat, (r1.len() + 1) as nat);
                assert(parse_tail(r1, (fuel - 1) as nat).res == Ok::<CellV, ErrV>(*cdr));
                assert(parse_tail(r1, (fuel - 1) as nat).rest == rest);
                assert(parse_tail(toks, fuel).res == Ok::<CellV, ErrV>(t));
                lemma_parse_tail_fuel(toks, fuel, (toks.len() + 1) as nat);
            }
        },
        _ => {},
    }
}

// ---------------------------------------------------------------------------
// What lexing and parsing can produce
// ---------------------------------------------------------------------------

/// A token as the lexer makes it: a number token holds a 64-bit value, and
/// a symbol token holds a name that reads back as a symbol.
pub open spec fn tok_ok(t: TokV) -> bool {
    match t {
        TokV::NUMBER { val } => i64::MIN <= val <= i64::MAX,
        TokV::SYMBOL { name } => is_symbol_text(name) && !is_int_literal(name),
        _ => true,
    }
}

proof fn lemma_classify_ok(s: Seq<char>)
    ensures
        tok_ok(classify(s)),
{
    if is_int_literal(s) {
        crate::token::lemma_digits_val_nonneg(int_body(s));
    }
}

/// Every token of a character stream is as the lexer makes it.
proof fn lemma_tokens_of_ok(text: Seq<char>)
    ensures
        forall|i: int| 0 <= i < tokens_of(text).len() ==> tok_ok(#[trigger] tokens_of(text)[i]),
    decreases text.len(),
{
    if text.len() == 0 {
    } else if is_ws_char(text[0]) {
        lemma_tokens_of_ok(text.drop_first());
    } else if is_punct_char(text[0]) {
        lemma_tokens_of_ok(text.drop_first());
        assert forall|i: int| 0 <= i < tokens_of(text).len() implies tok_ok(
            #[trigger] tokens_of(text)[i],
        ) by {
            if i > 0 {
                assert(tokens_of(text)[i] == tokens_of(text.drop_first())[i - 1]);
            }
        }
    } else if text[0] == '"' {
        let n = 1 + crate::lexer::str_body_len(text.skip(1), '"');
        crate::lexer::lemma_str_body_len_le(text.skip(1), '"');
        if n < text.len() {
            lemma_classify_ok(text.take(n + 1int));
            lemma_tokens_of_ok(text.skip(n + 1int));
            assert forall|i: int| 0 <= i < tokens_of(text).len() implies tok_ok(
                #[trigger] tokens_of(text)[i],
            ) by {
                if i > 0 {
                    assert(tokens_of(text)[i] == tokens_of(text.skip(n + 1int))[i - 1]);
                }
            }
        } else {
            lemma_classify_ok(text);
        }
    } else {
        let n = 1 + run_len(text.skip(1));
        crate::lexer::lemma_run_len_le(text.skip(1));
        lemma_classify_ok(text.take(n as int));
        lemma_tokens_of_ok(text.skip(n as int));
        assert forall|i: int| 0 <= i < tokens_of(text).len() implies tok_ok(
            #[trigger] tokens_of(text)[i],
        ) by {
            if i > 0 {
                assert(tokens_of(text)[i] == tokens_of(text.skip(n as int))[i - 1]);
            }
        }
    }
}

/// A tree as the parser makes it: numbers within the 64-bit range, symbol
/// names that read back as symbols, and no primitive or function cells.
pub open spec fn cells_ok(t: CellV) -> bool
    decreases sz(t),
{
    match t {
        CellV::NIL => true,
        CellV::NUMBER { val } => i64::MIN <= val <= i64::MAX,
        CellV::SYMBOL { name } => is_symbol_text(name) && !is_int_literal(name),
        CellV::CONS { car, cdr } => cells_ok(*car) && cells_ok(*cdr),
        _ => false,
    }
}

/// Nil stands only where a list ends, never as an element or a dotted tail.
pub open spec fn nil_free(t: CellV) -> bool
    decreases sz(t),
{
    match t {
        CellV::CONS { car, cdr } => !(*car is NIL) && nil_free(*car) && nil_free(*cdr),
        _ => true,
    }
}

proof fn lemma_cells_ok_printable(t: CellV)
    requires
        cells_ok(t),
        nil_free(t),
        !(t is NIL),
    ensures
        printable(t),
    decreases sz(t),
{
    match t {
        CellV::CONS { car, cdr } => {
            lemma_cells_ok_printable(*car);
            if !(*cdr is NIL) {
                lemma_cells_ok_printable(*cdr);
            }
        },
        _ => {},
    }
}

proof fn lemma_symbol_text_quote()
    ensures
        is_symbol_text(crate::parser::quote_name()),
        !is_int_literal(crate::parser::quote_name()),
{
    let q = crate::parser::quote_name();
    assert(is_symbol_char(q[0]));
    assert(is_symbol_char(q[1]));
    assert(is_symbol_char(q[2]));
    assert(is_symbol_char(q[3]));
    assert(is_symbol_char(q[4]));
    assert(forall|i: int| 0 <= i < q.len() ==> is_symbol_char(#[trigger] q[i]));
    assert(!all_digits(int_body(q))) by {
        assert(!is_digit_char(int_body(q)[0]));
    }
}

/// Whatever the parser reads out of lexer-made tokens is a parser-made
/// tree, and the leftover tokens are still lexer-made.
proof fn lemma_parse_form_ok(toks: Seq<TokV>, fuel: nat)
    requires
        forall|i: int| 0 <= i < toks.len() ==> tok_ok(#[trigger] toks[i]),
    ensures
        ({
            let p = parse_form(toks, fuel);
            &&& (p.res matches Ok(t) ==> cells_ok(t))
            &&& forall|i: int| 0 <= i < p.rest.len() ==> tok_ok(#[trigger] p.rest[i])
        }),
    decreases fuel, 0nat,
{
    if toks.len() == 0 {
    } else {
        assert(tok_ok(toks[0]));
        assert(forall|i: int|
            0 <= i < toks.len() - 1 ==> tok_ok(#[trigger] toks.drop_first()[i]));
        match toks[0] {
            TokV::QUOTE => {
                if fuel > 0 {
                    lemma_parse_form_ok(toks.drop_first(), (fuel - 1) as nat);
                    lemma_symbol_text_quote();
                    let p = parse_form(toks.drop_first(), (fuel - 1) as nat);
                    match p.res {
                        Ok(v) => {
                            reveal_with_fuel(cells_ok, 4);
                            assert(cells_ok(crate::parser::quote_wrap(v)));
                        },
                        Err(_) => {},
                    }
                }
            },
            TokV::LPAREN => {
                if fuel > 0 {
                    lemma_parse_tail_ok(toks.drop_first(), (fuel - 1) as nat);
                }
            },
            _ => {},
        }
    }
}

proof fn lemma_parse_tail_ok(toks: Seq<TokV>, fuel: nat)
    requires
        forall|i: int| 0 <= i < toks.len() ==> tok_ok(#[trigger] toks[i]),
    ensures
        ({
            let p = parse_tail(toks, fuel);
            &&& (p.res matches Ok(t) ==> cells_ok(t))
            &&& forall|i: int| 0 <= i < p.rest.len() ==> tok_ok(#[trigger] p.rest[i])
        }),
    decreases fuel, 1nat,
{
    if toks.len() == 0 {
    } else {
        assert(forall|i: int|
            0 <= i < toks.len() - 1 ==> tok_ok(#[trigger] toks.drop_first()[i]));
        match toks[0] {
            TokV::RPAREN => {},
            TokV::DOT => {
                if fuel > 0 {
                    lemma_parse_form_ok(toks.drop_first(), (fuel - 1) as nat);
                    let p = parse_form(toks.drop_first(), (fuel - 1) as nat);
                    if p.res is Ok && p.rest.len() > 0 && p.rest[0] == TokV::RPAREN {
                        assert(forall|i: int|
                            0 <= i < p.rest.len() - 1 ==> tok_ok(
                                #[trigger] p.rest.drop_first()[i],
                            ));
                    }
                }
            },
            _ => {
                if fuel > 0 {
                    lemma_parse_form_ok(toks, fuel);
                    let p = parse_form(toks, fuel);
                    if p.res is Ok {
                        lemma_parse_tail_ok(p.rest, (fuel - 1) as nat);
                    }
                }
            },
        }
    }
}

// ---------------------------------------------------------------------------
// The round trip
// ---------------------------------------------------------------------------

/// Rendering a printable tree, lexing the text and parsing the tokens gives
/// back exactly the tree, with nothing left over: the display form is a
/// faithful notation for every tree the reader can produce, up to
/// whitespace.
pub proof fn lemma_render_parse_round_trip(t: CellV)
    requires
        printable(t),
    ensures
        ({
            let po = parse_spec(tokens_of(render_spec(t)));
            &&& po.res == Ok::<CellV, ErrV>(t)
            &&& po.rest.len() == 0
        }),
{
    lemma_render_lex(t, Seq::empty());
    assert(render_spec(t) + Seq::<char>::empty() =~= render_spec(t));
    assert(tokens_of(Seq::<char>::empty()) =~= Seq::<TokV>::empty());
    assert(tree_toks(t) + Seq::<TokV>::empty() =~= tree_toks(t));
    lemma_parse_tree_toks(t, Seq::empty());
    assert(tokens_of(render_spec(t)) == tree_toks(t));
}

/// The round trip stated over input text: when a text parses to a tree that
/// is not the empty list and places nil only as a list terminator, then
/// lexing and parsing the tree's display text gives back exactly that tree.
/// Reading, printing and re-reading agree, up to whitespace.
pub proof fn lemma_parse_render_parse(text: Seq<char>)
    ensures
        ({
            let first = parse_spec(tokens_of(text));
            match first.res {
                Ok(t) => !(t is NIL) && nil_free(t) ==> parse_spec(tokens_of(render_spec(t)))
                    == (ParseOut { res: Ok::<CellV, ErrV>(t), rest: Seq::<TokV>::empty() }),
                Err(_) => true,
            }
        }),
{
    let toks = tokens_of(text);
    lemma_tokens_of_ok(text);
    lemma_parse_form_ok(toks, (toks.len() + 1) as nat);
    let first = parse_spec(toks);
    match first.res {
        Ok(t) => {
            if !(t is NIL) && nil_free(t) {
                lemma_cells_ok_printable(t);
                lemma_render_parse_round_trip(t);
                let again = parse_spec(tokens_of(render_spec(t)));
                assert(again.rest =~= Seq::<TokV>::empty());
            }
        },
        Err(_) => {},
    }
}

} // verus!
