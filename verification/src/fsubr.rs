//! The special forms, which receive their arguments unevaluated together
//! with the environment, and their registration.

use vstd::prelude::*;
use crate::parser::{Cell, CellV, Sexp, FsubrKind};
use crate::{bind_sym, eval_fuel, fsubr_apply_v, Env, ParseError};
use vstd::string::StringExecFns;

verus! {

/// `setq`: evaluates the second argument and binds it to the symbol named by
/// the first (unevaluated) argument; returns the value either way.
pub(crate) fn f_setq(args: &Cell, env: &mut Env, fuel: u64) -> (r: Result<Sexp, ParseError>)
    ensures
        ({
            let eo = fsubr_apply_v(FsubrKind::SETQ, args@, old(env)@, old(env).out(), fuel as nat);
            &&& final(env)@ == eo.env
            &&& final(env).out() == eo.out
            &&& match r {
                Ok(c) => eo.res matches Ok(v) && c@ == v,
                Err(e) => eo.res matches Err(ev) && e@ == ev,
            }
        }),
    decreases fuel, 0nat,
{
    if fuel == 0 {
        return Err(ParseError::TooDeep);
    }
    let target = args.car();
    let second = args.cadr();
    let val = match eval_fuel(&second, env, fuel - 1) {
        Ok(v) => v,
        Err(e) => {
            return Err(e);
        },
    };
    match &*target {
        Cell::SYMBOL { name } => {
            bind_sym(name.clone(), Box::new(val.duplicate()), env);
        },
        _ => {},
    }
    Ok(val)
}

/// `if`: evaluates the condition; a non-nil result selects the second
/// argument, nil the third; only the selected branch is evaluated.
pub(crate) fn f_if(args: &Cell, env: &mut Env, fuel: u64) -> (r: Result<Sexp, ParseError>)
    ensures
        ({
            let eo = fsubr_apply_v(FsubrKind::IF, args@, old(env)@, old(env).out(), fuel as nat);
            &&& final(env)@ == eo.env
            &&& final(env).out() == eo.out
            &&& match r {
                Ok(c) => eo.res matches Ok(v) && c@ == v,
                Err(e) => eo.res matches Err(ev) && e@ == ev,
            }
        }),
    decreases fuel, 0nat,
{
    if fuel == 0 {
        return Err(ParseError::TooDeep);
    }
    let arg1 = args.car();
    let arg2 = args.cadr();
    let arg3 = args.cdr().cdr().car();
    let cond = match eval_fuel(&arg1, env, fuel - 1) {
        Ok(v) => v,
        Err(e) => {
            return Err(e);
        },
    };
    if cond.is_value() {
        eval_fuel(&arg2, env, fuel - 1)
    } else {
        eval_fuel(&arg3, env, fuel - 1)
    }
}

/// `defun`: binds the raw argument-and-body list to the function's name
/// symbol and returns that symbol; a placeholder registration.
pub(crate) fn f_defun(args: &Cell, env: &mut Env, fuel: u64) -> (r: Result<Sexp, ParseError>)
    ensures
        ({
            let eo = fsubr_apply_v(FsubrKind::DEFUN, args@, old(env)@, old(env).out(), fuel as nat);
            &&& final(env)@ == eo.env
            &&& final(env).out() == eo.out
            &&& match r {
                Ok(c) => eo.res matches Ok(v) && c@ == v,
                Err(e) => eo.res matches Err(ev) && e@ == ev,
            }
        }),
{
    if fuel == 0 {
        return Err(ParseError::TooDeep);
    }
    let arg1 = args.car();
    let rest = args.cdr();
    match &*arg1 {
        Cell::SYMBOL { name } => {
            bind_sym(name.clone(), rest, env);
        },
        _ => {},
    }
    Ok(arg1)
}

/// The bindings that `initfsubr` adds to an environment.
pub open spec fn fsubr_bindings(m: Map<Seq<char>, CellV>) -> Map<Seq<char>, CellV> {
    m.insert(
        seq!['s', 'e', 't', 'q'],
        CellV::FSUBR { name: seq!['s', 'e', 't', 'q'], kind: FsubrKind::SETQ },
    ).insert(seq!['i', 'f'], CellV::FSUBR { name: seq!['i', 'f'], kind: FsubrKind::IF }).insert(
        seq!['d', 'e', 'f', 'u', 'n'],
        CellV::FSUBR { name: seq!['d', 'e', 'f', 'u', 'n'], kind: FsubrKind::DEFUN },
    )
}

/// Registers the special forms.
pub fn initfsubr(env: &mut Env)
    ensures
        final(env)@ == fsubr_bindings(old(env)@),
        final(env).out() == old(env).out(),
{
    proof {
        reveal_strlit("setq");
        reveal_strlit("if");
        reveal_strlit("defun");
        assert("setq"@ =~= seq!['s', 'e', 't', 'q']);
        assert("if"@ =~= seq!['i', 'f']);
        assert("defun"@ =~= seq!['d', 'e', 'f', 'u', 'n']);
    }
    let n1 = String::from_str("setq");
    bind_sym(n1.clone(), Cell::fsubr(n1, FsubrKind::SETQ), env);
    let n2 = String::from_str("if");
    bind_sym(n2.clone(), Cell::fsubr(n2, FsubrKind::IF), env);
    let n3 = String::from_str("defun");
    bind_sym(n3.clone(), Cell::fsubr(n3, FsubrKind::DEFUN), env);
}

} // verus!
