//! The built-in primitives whose arguments are evaluated before the call,
//! and their registration into an environment.

use vstd::prelude::*;
use crate::parser::{Cell, CellV, Sexp, SubrKind, car_v, cdr_v, cadr_v, sz, render_spec};
use crate::{bind_sym, Env, ErrV, EvalOut, ParseError};
use vstd::string::StringExecFns;
use vstd::wrapping::i64_specs;

verus! {

/// The name of the truthy symbol.
pub open spec fn t_name() -> Seq<char> {
    seq!['t']
}

// ---------------------------------------------------------------------------
// Arithmetic over the argument chain
// ---------------------------------------------------------------------------

/// Folds `+` over an argument chain with 64-bit wrapping addition, starting
/// from `acc`; the first non-number argument is a type error.
pub open spec fn fold_plus(s: CellV, acc: i64) -> Result<i64, ErrV>
    decreases sz(s),
{
    if s is NIL {
        Ok(acc)
    } else {
        match car_v(s) {
            CellV::NUMBER { val } => fold_plus(cdr_v(s), i64_specs::wrapping_add(acc, val as i64)),
            c => Err(ErrV::NOTNUMBER { cell: c }),
        }
    }
}

/// Folds `-` over an argument chain, subtracting every argument from `acc`.
pub open spec fn fold_minus(s: CellV, acc: i64) -> Result<i64, ErrV>
    decreases sz(s),
{
    if s is NIL {
        Ok(acc)
    } else {
        match car_v(s) {
            CellV::NUMBER { val } => fold_minus(cdr_v(s), i64_specs::wrapping_sub(acc, val as i64)),
            c => Err(ErrV::NOTNUMBER { cell: c }),
        }
    }
}

/// Folds `*` over an argument chain with 64-bit wrapping multiplication.
pub open spec fn fold_mult(s: CellV, acc: i64) -> Result<i64, ErrV>
    decreases sz(s),
{
    if s is NIL {
        Ok(acc)
    } else {
        match car_v(s) {
            CellV::NUMBER { val } => fold_mult(cdr_v(s), i64_specs::wrapping_mul(acc, val as i64)),
            c => Err(ErrV::NOTNUMBER { cell: c }),
        }
    }
}

pub open spec fn abs_i(x: int) -> int {
    if x < 0 {
        -x
    } else {
        x
    }
}

/// Division truncated toward zero, with the one overflowing quotient
/// (`i64::MIN / -1`) wrapping back to `i64::MIN`.
pub open spec fn tdiv64(a: i64, b: i64) -> i64
    recommends
        b != 0,
{
    let mq = abs_i(a as int) / abs_i(b as int);
    if (a < 0) != (b < 0) {
        if mq >= 0x8000_0000_0000_0000 {
            i64::MIN
        } else {
            (-mq) as i64
        }
    } else {
        if mq >= 0x8000_0000_0000_0000 {
            i64::MIN
        } else {
            mq as i64
        }
    }
}

/// The remainder matching `tdiv64`: `a - b * tdiv64(a, b)` with wrapping.
pub open spec fn trem64(a: i64, b: i64) -> i64
    recommends
        b != 0,
{
    i64_specs::wrapping_sub(a, i64_specs::wrapping_mul(b, tdiv64(a, b)))
}

/// Folds `/` over an argument chain: each argument divides the accumulator
/// in turn; a zero divisor fails.
pub open spec fn fold_div(s: CellV, acc: i64) -> Result<i64, ErrV>
    decreases sz(s),
{
    if s is NIL {
        Ok(acc)
    } else {
        match car_v(s) {
            CellV::NUMBER { val } => {
                if val as i64 == 0 {
                    Err(ErrV::DIVZERO)
                } else {
                    fold_div(cdr_v(s), tdiv64(acc, val as i64))
                }
            },
            c => Err(ErrV::NOTNUMBER { cell: c }),
        }
    }
}

/// `/`: the first argument as-is, then successively divided.
pub open spec fn div_v(args: CellV) -> Result<i64, ErrV> {
    match car_v(args) {
        CellV::NUMBER { val } => fold_div(cdr_v(args), val as i64),
        c => Err(ErrV::NOTNUMBER { cell: c }),
    }
}

/// `mod`: the remainder of the first two arguments; an operand that is not
/// a number is a type error, and a zero divisor fails.
pub open spec fn mod_v(args: CellV) -> Result<CellV, ErrV> {
    match (car_v(args), cadr_v(args)) {
        (CellV::NUMBER { val: a }, CellV::NUMBER { val: b }) => {
            if b as i64 == 0 {
                Err(ErrV::DIVZERO)
            } else {
                Ok(CellV::NUMBER { val: trem64(a as i64, b as i64) as int })
            }
        },
        (CellV::NUMBER { .. }, c) => Err(ErrV::NOTNUMBER { cell: c }),
        (c, _) => Err(ErrV::NOTNUMBER { cell: c }),
    }
}

// ---------------------------------------------------------------------------
// Pairwise logic and equality
// ---------------------------------------------------------------------------

/// `and`: compares each adjacent pair of arguments; any unequal pair yields
/// nil, otherwise the symbol `t`.
pub open spec fn and_v(s: CellV) -> CellV
    decreases sz(s),
{
    if cdr_v(s) is NIL {
        CellV::SYMBOL { name: t_name() }
    } else if car_v(s) != cadr_v(s) {
        CellV::NIL
    } else {
        and_v(cdr_v(s))
    }
}

/// `or`: any equal adjacent pair yields the symbol `t`, otherwise nil.
pub open spec fn or_v(s: CellV) -> CellV
    decreases sz(s),
{
    if cdr_v(s) is NIL {
        CellV::NIL
    } else if car_v(s) == cadr_v(s) {
        CellV::SYMBOL { name: t_name() }
    } else {
        or_v(cdr_v(s))
    }
}

/// `=`: on structural equality of the first two arguments, the first
/// argument itself (a truthy value); otherwise nil.
pub open spec fn equal_v(args: CellV) -> CellV {
    if car_v(args) == cadr_v(args) {
        car_v(args)
    } else {
        CellV::NIL
    }
}

/// `eq`: the symbol `t` on structural equality of the first two arguments;
/// otherwise nil.
pub open spec fn eq_v(args: CellV) -> CellV {
    if car_v(args) == cadr_v(args) {
        CellV::SYMBOL { name: t_name() }
    } else {
        CellV::NIL
    }
}

/// The line that `print` produces: each argument's display text followed by
/// one space.
pub open spec fn print_line_v(s: CellV) -> Seq<char>
    decreases sz(s),
{
    if s is NIL {
        Seq::empty()
    } else {
        render_spec(car_v(s)) + seq![' '] + print_line_v(cdr_v(s))
    }
}

// ---------------------------------------------------------------------------
// Dispatch
// ---------------------------------------------------------------------------

/// What each primitive does to the evaluated argument list, the environment
/// and the output; only `print` writes output, and none changes a binding.
pub open spec fn subr_apply_v(
    kind: SubrKind,
    args: CellV,
    env: Map<Seq<char>, CellV>,
    out: Seq<Seq<char>>,
) -> EvalOut {
    match kind {
        SubrKind::PLUS => match fold_plus(args, 0i64) {
            Ok(v) => EvalOut { res: Ok(CellV::NUMBER { val: v as int }), env, out },
            Err(e) => EvalOut { res: Err(e), env, out },
        },
        SubrKind::MINUS => match fold_minus(args, 0i64) {
            Ok(v) => EvalOut { res: Ok(CellV::NUMBER { val: v as int }), env, out },
            Err(e) => EvalOut { res: Err(e), env, out },
        },
        SubrKind::MULT => match fold_mult(args, 1i64) {
            Ok(v) => EvalOut { res: Ok(CellV::NUMBER { val: v as int }), env, out },
            Err(e) => EvalOut { res: Err(e), env, out },
        },
        SubrKind::DIV => match div_v(args) {
            Ok(v) => EvalOut { res: Ok(CellV::NUMBER { val: v as int }), env, out },
            Err(e) => EvalOut { res: Err(e), env, out },
        },
        SubrKind::MOD => match mod_v(args) {
            Ok(v) => EvalOut { res: Ok(v), env, out },
            Err(e) => EvalOut { res: Err(e), env, out },
        },
        SubrKind::AND => EvalOut { res: Ok(and_v(args)), env, out },
        SubrKind::OR => EvalOut { res: Ok(or_v(args)), env, out },
        SubrKind::EQUAL => EvalOut { res: Ok(equal_v(args)), env, out },
        SubrKind::EQ => EvalOut { res: Ok(eq_v(args)), env, out },
        SubrKind::PRINT => EvalOut { res: Ok(CellV::NIL), env, out: out.push(print_line_v(args)) },
    }
}

// ---------------------------------------------------------------------------
// The executable primitives
// ---------------------------------------------------------------------------

pub(crate) fn f_plus(args: &Cell) -> (r: Result<Sexp, ParseError>)
    ensures
        match fold_plus(args@, 0i64) {
            Ok(v) => r matches Ok(c) && c@ == (CellV::NUMBER { val: v as int }),
            Err(e) => r matches Err(pe) && pe@ == e,
        },
{
    let mut res: i64 = 0;
    let mut curr: &Cell = args;
    loop
        invariant
            fold_plus(args@, 0i64) == fold_plus(curr@, res),
        decreases sz(curr@),
    {
        match curr {
            Cell::NIL => {
                return Ok(Cell::number(res));
            },
            Cell::CONS { car, cdr } => {
                match &**car {
                    Cell::NUMBER { val } => {
                        proof {
                            assert(car_v(curr@) == (**car)@);
                            assert(cdr_v(curr@) == (**cdr)@);
                            assert(fold_plus(curr@, res) == fold_plus(
                                (**cdr)@,
                                i64_specs::wrapping_add(res, *val),
                            ));
                        }
                        res = res.wrapping_add(*val);
                        curr = cdr;
                    },
                    _ => {
                        return Err(ParseError::NotNumber { cell: car.duplicate() });
                    },
                }
            },
            _ => {
                return Err(ParseError::NotNumber { cell: Cell::NIL });
            },
        }
    }
}

pub(crate) fn f_minus(args: &Cell) -> (r: Result<Sexp, ParseError>)
    ensures
        match fold_minus(args@, 0i64) {
            Ok(v) => r matches Ok(c) && c@ == (CellV::NUMBER { val: v as int }),
            Err(e) => r matches Err(pe) && pe@ == e,
        },
{
    let mut res: i64 = 0;
    let mut curr: &Cell = args;
    loop
        invariant
            fold_minus(args@, 0i64) == fold_minus(curr@, res),
        decreases sz(curr@),
    {
        match curr {
            Cell::NIL => {
                return Ok(Cell::number(res));
            },
            Cell::CONS { car, cdr } => {
                match &**car {
                    Cell::NUMBER { val } => {
                        proof {
                            assert(car_v(curr@) == (**car)@);
                            assert(cdr_v(curr@) == (**cdr)@);
                            assert(fold_minus(curr@, res) == fold_minus(
                                (**cdr)@,
                                i64_specs::wrapping_sub(res, *val),
                            ));
                        }
                        res = res.wrapping_sub(*val);
                        curr = cdr;
                    },
                    _ => {
                        return Err(ParseError::NotNumber { cell: car.duplicate() });
                    },
                }
            },
            _ => {
                return Err(ParseError::NotNumber { cell: Cell::NIL });
            },
        }
    }
}

pub(crate) fn f_mult(args: &Cell) -> (r: Result<Sexp, ParseError>)
    ensures
        match fold_mult(args@, 1i64) {
            Ok(v) => r matches Ok(c) && c@ == (CellV::NUMBER { val: v as int }),
            Err(e) => r matches Err(pe) && pe@ == e,
        },
{
    let mut res: i64 = 1;
    let mut curr: &Cell = args;
    loop
        invariant
            fold_mult(args@, 1i64) == fold_mult(curr@, res),
        decreases sz(curr@),
    {
        match curr {
            Cell::NIL => {
                return Ok(Cell::number(res));
            },
            Cell::CONS { car, cdr } => {
                match &**car {
                    Cell::NUMBER { val } => {
                        proof {
                            assert(car_v(curr@) == (**car)@);
                            assert(cdr_v(curr@) == (**cdr)@);
                            assert(fold_mult(curr@, res) == fold_mult(
                                (**cdr)@,
                                i64_specs::wrapping_mul(res, *val),
                            ));
                        }
                        res = res.wrapping_mul(*val);
                        curr = cdr;
                    },
                    _ => {
                        return Err(ParseError::NotNumber { cell: car.duplicate() });
                    },
                }
            },
            _ => {
                return Err(ParseError::NotNumber { cell: Cell::NIL });
            },
        }
    }
}

/// Magnitude of a 64-bit integer.
fn abs64(x: i64) -> (m: u64)
    ensures
        m as int == abs_i(x as int),
{
    if x >= 0 {
        x as u64
    } else if x == i64::MIN {
        0x8000_0000_0000_0000u64
    } else {
        (-x) as u64
    }
}

/// Division truncated toward zero, wrapping on the one overflowing case.
fn div64(a: i64, b: i64) -> (q: i64)
    requires
        b != 0,
    ensures
        q == tdiv64(a, b),
{
    let ma = abs64(a);
    let mb = abs64(b);
    let mq: u64 = ma / mb;
    if (a < 0) != (b < 0) {
        if mq >= 0x8000_0000_0000_0000 {
            i64::MIN
        } else {
            -(mq as i64)
        }
    } else {
        if mq >= 0x8000_0000_0000_0000 {
            i64::MIN
        } else {
            mq as i64
        }
    }
}

pub(crate) fn f_div(args: &Cell) -> (r: Result<Sexp, ParseError>)
    ensures
        match div_v(args@) {
            Ok(v) => r matches Ok(c) && c@ == (CellV::NUMBER { val: v as int }),
            Err(e) => r matches Err(pe) && pe@ == e,
        },
{
    let first = args.car();
    let mut res: i64 = match &*first {
        Cell::NUMBER { val } => *val,
        _ => {
            return Err(ParseError::NotNumber { cell: *first });
        },
    };
    let rest = args.cdr();
    let mut curr: &Cell = &rest;
    loop
        invariant
            div_v(args@) == fold_div(curr@, res),
        decreases sz(curr@),
    {
        match curr {
            Cell::NIL => {
                return Ok(Cell::number(res));
            },
            Cell::CONS { car, cdr } => {
                match &**car {
                    Cell::NUMBER { val } => {
                        proof {
                            assert(car_v(curr@) == (**car)@);
                            assert(cdr_v(curr@) == (**cdr)@);
                        }
                        if *val == 0 {
                            return Err(ParseError::DivideByZero);
                        }
                        proof {
                            assert(fold_div(curr@, res) == fold_div((**cdr)@, tdiv64(res, *val)));
                        }
                        res = div64(res, *val);
                        curr = cdr;
                    },
                    _ => {
                        return Err(ParseError::NotNumber { cell: car.duplicate() });
                    },
                }
            },
            _ => {
                return Err(ParseError::NotNumber { cell: Cell::NIL });
            },
        }
    }
}

pub(crate) fn f_mod(args: &Cell) -> (r: Result<Sexp, ParseError>)
    ensures
        match mod_v(args@) {
            Ok(v) => r matches Ok(c) && c@ == v,
            Err(e) => r matches Err(pe) && pe@ == e,
        },
{
    let arg1 = args.car();
    let arg2 = args.cadr();
    match (&*arg1, &*arg2) {
        (Cell::NUMBER { val: a }, Cell::NUMBER { val: b }) => {
            if *b == 0 {
                Err(ParseError::DivideByZero)
            } else {
                let q = div64(*a, *b);
                Ok(Cell::number(a.wrapping_sub(b.wrapping_mul(q))))
            }
        },
        (Cell::NUMBER { .. }, _) => Err(ParseError::NotNumber { cell: *arg2 }),
        _ => Err(ParseError::NotNumber { cell: *arg1 }),
    }
}

fn truthy_symbol() -> (r: Sexp)
    ensures
        r@ == (CellV::SYMBOL { name: t_name() }),
{
    let s = String::from_str("t");
    proof {
        reveal_strlit("t");
        assert("t"@ =~= t_name());
    }
    Cell::symbol(s)
}

pub(crate) fn f_and(args: &Cell) -> (r: Result<Sexp, ParseError>)
    ensures
        r matches Ok(c) && c@ == and_v(args@),
{
    let mut curr: &Cell = args;
    loop
        invariant
            and_v(args@) == and_v(curr@),
        decreases sz(curr@),
    {
        match curr {
            Cell::CONS { car, cdr } => {
                if cdr.is_value() {
                    let second = cdr.car();
                    if !crate::parser::cell_eq(car, &second) {
                        return Ok(Cell::nil());
                    }
                    curr = cdr;
                } else {
                    return Ok(truthy_symbol());
                }
            },
            _ => {
                return Ok(truthy_symbol());
            },
        }
    }
}

pub(crate) fn f_or(args: &Cell) -> (r: Result<Sexp, ParseError>)
    ensures
        r matches Ok(c) && c@ == or_v(args@),
{
    let mut curr: &Cell = args;
    loop
        invariant
            or_v(args@) == or_v(curr@),
        decreases sz(curr@),
    {
        match curr {
            Cell::CONS { car, cdr } => {
                if cdr.is_value() {
                    let second = cdr.car();
                    if crate::parser::cell_eq(car, &second) {
                        return Ok(truthy_symbol());
                    }
                    curr = cdr;
                } else {
                    return Ok(Cell::nil());
                }
            },
            _ => {
                return Ok(Cell::nil());
            },
        }
    }
}

pub(crate) fn f_equal(args: &Cell) -> (r: Result<Sexp, ParseError>)
    ensures
        r matches Ok(c) && c@ == equal_v(args@),
{
    let num1 = args.car();
    let num2 = args.cadr();
    if crate::parser::cell_eq(&num1, &num2) {
        Ok(num1)
    } else {
        Ok(Cell::nil())
    }
}

pub(crate) fn f_eq(args: &Cell) -> (r: Result<Sexp, ParseError>)
    ensures
        r matches Ok(c) && c@ == eq_v(args@),
{
    let num1 = args.car();
    let num2 = args.cadr();
    if crate::parser::cell_eq(&num1, &num2) {
        Ok(truthy_symbol())
    } else {
        Ok(Cell::nil())
    }
}

/// Appends each argument's display text and a space to `line`.
fn write_print_line(curr: &Cell, line: &mut String)
    ensures
        final(line)@ == old(line)@ + print_line_v(curr@),
    decreases sz(curr@),
{
    proof {
        reveal_strlit(" ");
        assert(" "@ =~= seq![' ']);
    }
    match curr {
        Cell::NIL => {
            proof {
                assert(line@ =~= old(line)@ + print_line_v(curr@));
            }
        },
        Cell::CONS { car, cdr } => {
            let text = car.to_text();
            line.append(text.as_str());
            line.append(" ");
            write_print_line(cdr, line);
            proof {
                assert(car_v(curr@) == (**car)@);
                assert(cdr_v(curr@) == (**cdr)@);
                assert(line@ =~= old(line)@ + print_line_v(curr@));
            }
        },
        _ => {
            let nil_cell = Cell::NIL;
            let text = nil_cell.to_text();
            line.append(text.as_str());
            line.append(" ");
            proof {
                assert(car_v(curr@) == CellV::NIL);
                assert(cdr_v(curr@) == CellV::NIL);
                assert(print_line_v(cdr_v(curr@)) == Seq::<char>::empty());
                assert(line@ =~= old(line)@ + print_line_v(curr@));
            }
        },
    }
}

pub(crate) fn f_print(args: &Cell, env: &mut Env) -> (r: Result<Sexp, ParseError>)
    ensures
        final(env)@ == old(env)@,
        final(env).out() == old(env).out().push(print_line_v(args@)),
        r matches Ok(c) && c@ == CellV::NIL,
{
    let mut line = String::new();
    write_print_line(args, &mut line);
    proof {
        assert(line@ =~= print_line_v(args@));
    }
    env.push_output(line);
    Ok(Cell::nil())
}

// ---------------------------------------------------------------------------
// Registration
// ---------------------------------------------------------------------------

/// The bindings that `initsubr` adds to an environment.
pub open spec fn subr_bindings(m: Map<Seq<char>, CellV>) -> Map<Seq<char>, CellV> {
    m.insert(seq!['+'], CellV::SUBR { name: seq!['+'], kind: SubrKind::PLUS })
        .insert(seq!['-'], CellV::SUBR { name: seq!['-'], kind: SubrKind::MINUS })
        .insert(seq!['*'], CellV::SUBR { name: seq!['*'], kind: SubrKind::MULT })
        .insert(seq!['/'], CellV::SUBR { name: seq!['/'], kind: SubrKind::DIV })
        .insert(seq!['m', 'o', 'd'], CellV::SUBR { name: seq!['m', 'o', 'd'], kind: SubrKind::MOD })
        .insert(seq!['a', 'n', 'd'], CellV::SUBR { name: seq!['a', 'n', 'd'], kind: SubrKind::AND })
        .insert(seq!['o', 'r'], CellV::SUBR { name: seq!['o', 'r'], kind: SubrKind::OR })
        .insert(seq!['='], CellV::SUBR { name: seq!['='], kind: SubrKind::EQUAL })
        .insert(seq!['e', 'q'], CellV::SUBR { name: seq!['e', 'q'], kind: SubrKind::EQ })
        .insert(
            seq!['p', 'r', 'i', 'n', 't'],
            CellV::SUBR { name: seq!['p', 'r', 'i', 'n', 't'], kind: SubrKind::PRINT },
        )
}

/// Registers the primitives with evaluated arguments.
pub fn initsubr(env: &mut Env)
    ensures
        final(env)@ == subr_bindings(old(env)@),
        final(env).out() == old(env).out(),
{
    proof {
        reveal_strlit("+");
        reveal_strlit("-");
        reveal_strlit("*");
        reveal_strlit("/");
        reveal_strlit("mod");
        reveal_strlit("and");
        reveal_strlit("or");
        reveal_strlit("=");
        reveal_strlit("eq");
        reveal_strlit("print");
        assert("+"@ =~= seq!['+']);
        assert("-"@ =~= seq!['-']);
        assert("*"@ =~= seq!['*']);
        assert("/"@ =~= seq!['/']);
        assert("mod"@ =~= seq!['m', 'o', 'd']);
        assert("and"@ =~= seq!['a', 'n', 'd']);
        assert("or"@ =~= seq!['o', 'r']);
        assert("="@ =~= seq!['=']);
        assert("eq"@ =~= seq!['e', 'q']);
        assert("print"@ =~= seq!['p', 'r', 'i', 'n', 't']);
    }
    let n1 = String::from_str("+");
    bind_sym(n1.clone(), Cell::subr(n1, SubrKind::PLUS), env);
    let n2 = String::from_str("-");
    bind_sym(n2.clone(), Cell::subr(n2, SubrKind::MINUS), env);
    let n3 = String::from_str("*");
    bind_sym(n3.clone(), Cell::subr(n3, SubrKind::MULT), env);
    let n4 = String::from_str("/");
    bind_sym(n4.clone(), Cell::subr(n4, SubrKind::DIV), env);
    let n5 = String::from_str("mod");
    bind_sym(n5.clone(), Cell::subr(n5, SubrKind::MOD), env);
    let n6 = String::from_str("and");
    bind_sym(n6.clone(), Cell::subr(n6, SubrKind::AND), env);
    let n7 = String::from_str("or");
    bind_sym(n7.clone(), Cell::subr(n7, SubrKind::OR), env);
    let n8 = String::from_str("=");
    bind_sym(n8.clone(), Cell::subr(n8, SubrKind::EQUAL), env);
    let n9 = String::from_str("eq");
    bind_sym(n9.clone(), Cell::subr(n9, SubrKind::EQ), env);
    let n10 = String::from_str("print");
    bind_sym(n10.clone(), Cell::subr(n10, SubrKind::PRINT), env);
}

} // verus!
