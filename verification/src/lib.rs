//! A small interpreter for a Lisp-like s-expression language: a lexer that
//! turns text into tokens, a parser that builds cons-cell trees, and an
//! evaluator that reduces those trees against a mutable symbol environment
//! with built-in primitive functions and special forms.
//!
//! Numbers are 64-bit signed integers; `+`, `-` and `*` wrap at the 64-bit
//! boundary, and `/` truncates toward zero.  Evaluation depth is bounded by
//! [`EVAL_LIMIT`]; crossing the ceiling is reported as an error rather than
//! exhausting the stack.

pub mod token;
pub mod lexer;
pub mod parser;
pub mod subr;
pub mod fsubr;
pub mod laws;

use vstd::prelude::*;
use crate::parser::{car_v, cadr_v, caar_v, cdr_v, quote_name, sz, Cell, CellV, FsubrKind, Sexp, SubrKind};

verus! {

// ---------------------------------------------------------------------------
// Errors
// ---------------------------------------------------------------------------

/// The mathematical model of an interpreter error.
pub enum ErrV {
    /// An unclassifiable run of characters reached the parser.
    LEXICAL { text: Seq<char> },
    /// Unbalanced parentheses, a stray token, or a malformed dotted pair.
    SYNTAX,
    /// An unbound symbol was evaluated, or an uncallable form was applied.
    NOSYMBOL { cell: CellV },
    /// A primitive met a value where a number was needed, or a number stood
    /// in call position.
    NOTNUMBER { cell: CellV },
    /// Division or remainder by zero.
    DIVZERO,
    /// The evaluation recursion ceiling was reached.
    DEPTH,
}

/// An error of the interpreter: lexing, parsing or evaluation.
#[derive(Debug)]
pub enum ParseError {
    /// An unclassifiable run of characters reached the parser.
    Lexical { text: String },
    /// Unbalanced parentheses, a stray token, or a malformed dotted pair.
    Syntax,
    /// An unbound symbol was evaluated, or an uncallable form was applied.
    Nosymbol { cell: Cell },
    /// A primitive met a value where a number was needed, or a number stood
    /// in call position.
    NotNumber { cell: Cell },
    /// Division or remainder by zero.
    DivideByZero,
    /// The evaluation recursion ceiling was reached.
    TooDeep,
}

impl View for ParseError {
    type V = ErrV;

    open spec fn view(&self) -> ErrV {
        match self {
            ParseError::Lexical { text } => ErrV::LEXICAL { text: text@ },
            ParseError::Syntax => ErrV::SYNTAX,
            ParseError::Nosymbol { cell } => ErrV::NOSYMBOL { cell: cell@ },
            ParseError::NotNumber { cell } => ErrV::NOTNUMBER { cell: cell@ },
            ParseError::DivideByZero => ErrV::DIVZERO,
            ParseError::TooDeep => ErrV::DEPTH,
        }
    }
}

// ---------------------------------------------------------------------------
// The environment
// ---------------------------------------------------------------------------

/// The bindings that a sequence of (name, value) entries amounts to; a later
/// entry shadows an earlier one of the same name.
pub open spec fn map_of(entries: Seq<(String, Cell)>) -> Map<Seq<char>, CellV>
    decreases entries.len(),
{
    if entries.len() == 0 {
        Map::empty()
    } else {
        map_of(entries.drop_last()).insert(entries.last().0@, entries.last().1@)
    }
}

/// The bound value of `name`, or nil when the name is absent.
pub open spec fn lookup_v(m: Map<Seq<char>, CellV>, name: Seq<char>) -> CellV {
    if m.contains_key(name) {
        m[name]
    } else {
        CellV::NIL
    }
}

proof fn lemma_map_of_index(entries: Seq<(String, Cell)>, i: int)
    requires
        0 <= i < entries.len(),
        forall|j: int| i < j < entries.len() ==> entries[j].0@ != entries[i].0@,
    ensures
        map_of(entries).contains_key(entries[i].0@),
        map_of(entries)[entries[i].0@] == entries[i].1@,
    decreases entries.len(),
{
    if i == entries.len() - 1 {
    } else {
        assert(entries.drop_last()[i] == entries[i]);
        assert(forall|j: int|
            i < j < entries.len() - 1 ==> entries.drop_last()[j] == #[trigger] entries[j]);
        lemma_map_of_index(entries.drop_last(), i);
    }
}

proof fn lemma_map_of_absent(entries: Seq<(String, Cell)>, k: Seq<char>)
    requires
        forall|i: int| 0 <= i < entries.len() ==> (#[trigger] entries[i]).0@ != k,
    ensures
        !map_of(entries).contains_key(k),
    decreases entries.len(),
{
    if entries.len() > 0 {
        assert(forall|i: int|
            0 <= i < entries.len() - 1 ==> (#[trigger] entries.drop_last()[i]) == entries[i]);
        lemma_map_of_absent(entries.drop_last(), k);
    }
}

/// The shared, mutable session state: the name-to-value bindings, and the
/// lines that `print` has produced and the embedding driver has not yet
/// taken.
pub struct Env {
    entries: Vec<(String, Cell)>,
    output: Vec<String>,
}

impl View for Env {
    type V = Map<Seq<char>, CellV>;

    closed spec fn view(&self) -> Map<Seq<char>, CellV> {
        map_of(self.entries@)
    }
}

impl Env {
    /// The lines printed so far and not yet taken.
    pub closed spec fn out(&self) -> Seq<Seq<char>> {
        self.output@.map_values(|s: String| s@)
    }

    pub fn new() -> (e: Env)
        ensures
            e@ == Map::<Seq<char>, CellV>::empty(),
            e.out() == Seq::<Seq<char>>::empty(),
    {
        let e = Env { entries: Vec::new(), output: Vec::new() };
        proof {
            assert(e.out() =~= Seq::<Seq<char>>::empty());
        }
        e
    }

    /// Hands out the collected print lines and clears the buffer; the
    /// bindings stay.
    pub fn take_output(&mut self) -> (lines: Vec<String>)
        ensures
            lines@.map_values(|s: String| s@) == old(self).out(),
            final(self)@ == old(self)@,
            final(self).out() == Seq::<Seq<char>>::empty(),
    {
        let mut lines: Vec<String> = Vec::new();
        core::mem::swap(&mut lines, &mut self.output);
        proof {
            assert(self.out() =~= Seq::<Seq<char>>::empty());
        }
        lines
    }

    pub(crate) fn push_output(&mut self, line: String)
        ensures
            final(self)@ == old(self)@,
            final(self).out() == old(self).out().push(line@),
    {
        let ghost l = line@;
        self.output.push(line);
        proof {
            assert(self.out() =~= old(self).out().push(l));
        }
    }
}

impl Default for Env {
    fn default() -> (e: Env)
        ensures
            e@ == Map::<Seq<char>, CellV>::empty(),
            e.out() == Seq::<Seq<char>>::empty(),
    {
        Env::new()
    }
}

/// Looks a name up; an absent name resolves to nil.
pub fn find_sym(name: String, env: &Env) -> (r: Sexp)
    ensures
        r@ == lookup_v(env@, name@),
{
    let n = env.entries.len();
    let mut i: usize = n;
    while i > 0
        invariant
            0 <= i <= n,
            n == env.entries@.len(),
            forall|j: int| i <= j < n ==> (#[trigger] env.entries@[j]).0@ != name@,
        decreases i,
    {
        i = i - 1;
        if env.entries[i].0 == name {
            proof {
                lemma_map_of_index(env.entries@, i as int);
            }
            return Box::new(env.entries[i].1.duplicate());
        }
    }
    proof {
        lemma_map_of_absent(env.entries@, name@);
    }
    Cell::nil()
}

/// Binds a name, overwriting any earlier binding of the same name.
pub fn bind_sym(name: String, val: Sexp, env: &mut Env)
    ensures
        final(env)@ == old(env)@.insert(name@, val@),
        final(env).out() == old(env).out(),
{
    let ghost n = name@;
    let ghost v = val@;
    env.entries.push((name, *val));
    proof {
        assert(env.entries@.drop_last() =~= old(env).entries@);
        assert(env@ =~= old(env)@.insert(n, v));
        assert(env.out() =~= old(env).out());
    }
}

/// Prepends the pair `(sym . val)` to an association list.
pub fn assocsym(sym: Sexp, val: Sexp, list: Sexp) -> (r: Sexp)
    ensures
        r@ == (CellV::CONS {
            car: Box::new(CellV::CONS { car: Box::new(sym@), cdr: Box::new(val@) }),
            cdr: Box::new(list@),
        }),
{
    Cell::cons(Cell::cons(sym, val), list)
}

/// The first pair of an association list whose key equals `sym`, or nil.
pub open spec fn assoc_v(sym: CellV, list: CellV) -> CellV
    decreases sz(list),
{
    match list {
        CellV::NIL => CellV::NIL,
        _ => {
            if caar_v(list) == sym {
                car_v(list)
            } else {
                assoc_v(sym, cdr_v(list))
            }
        },
    }
}

/// Searches an association list by structural key equality.
pub fn assoc(sym: &Cell, list: &Cell) -> (r: Sexp)
    ensures
        r@ == assoc_v(sym@, list@),
    decreases sz(list@),
{
    match list {
        Cell::NIL => Cell::nil(),
        _ => {
            let key = list.caar();
            if crate::parser::cell_eq(&key, sym) {
                list.car()
            } else {
                let rest = list.cdr();
                assoc(sym, &rest)
            }
        },
    }
}

// ---------------------------------------------------------------------------
// Evaluation, specified as a big-step interpreter over the model
// ---------------------------------------------------------------------------

/// How many nested evaluation steps are allowed before evaluation stops with
/// a resource-limit error: the recursion ceiling.
pub const EVAL_LIMIT: u64 = 10000;

/// The outcome of an evaluation: the value or the error, the environment
/// after it, and the print lines produced so far.
pub struct EvalOut {
    pub res: Result<CellV, ErrV>,
    pub env: Map<Seq<char>, CellV>,
    pub out: Seq<Seq<char>>,
}

/// `f` names a primitive with evaluated arguments.
pub open spec fn is_subr_name(env: Map<Seq<char>, CellV>, f: CellV) -> bool {
    f matches CellV::SYMBOL { name } && lookup_v(env, name) is SUBR
}

/// `f` names a special form.
pub open spec fn is_fsubr_name(env: Map<Seq<char>, CellV>, f: CellV) -> bool {
    f matches CellV::SYMBOL { name } && lookup_v(env, name) is FSUBR
}

/// One step of the evaluator over the model.  Numbers, nil and the
/// primitives stand for themselves; a symbol resolves to a non-nil binding
/// or fails; `(quote x)` yields `x` unevaluated; a list applies its head,
/// with the arguments evaluated first for a subr and passed raw to an fsubr.
/// `fuel` is the recursion ceiling; when it runs out, the step fails with a
/// resource-limit error.
pub open spec fn eval_v(e: CellV, env: Map<Seq<char>, CellV>, out: Seq<Seq<char>>, fuel: nat) -> EvalOut
    decreases fuel,
{
    if fuel == 0 {
        EvalOut { res: Err(ErrV::DEPTH), env, out }
    } else {
        match e {
            CellV::NUMBER { .. } => EvalOut { res: Ok(e), env, out },
            CellV::SYMBOL { name } => {
                let v = lookup_v(env, name);
                if !(v is NIL) {
                    EvalOut { res: Ok(v), env, out }
                } else {
                    EvalOut { res: Err(ErrV::NOSYMBOL { cell: e }), env, out }
                }
            },
            CellV::CONS { .. } => {
                let f = car_v(e);
                if f matches CellV::SYMBOL { name } && name == quote_name() {
                    EvalOut { res: Ok(cadr_v(e)), env, out }
                } else if f is NUMBER {
                    EvalOut { res: Err(ErrV::NOTNUMBER { cell: f }), env, out }
                } else if is_subr_name(env, f) {
                    let el = evlis_v(cdr_v(e), env, out, (fuel - 1) as nat);
                    match el.res {
                        Ok(args) => apply_v(f, args, el.env, el.out, (fuel - 1) as nat),
                        Err(err) => el,
                    }
                } else if is_fsubr_name(env, f) {
                    apply_v(f, cdr_v(e), env, out, (fuel - 1) as nat)
                } else {
                    EvalOut { res: Err(ErrV::NOSYMBOL { cell: f }), env, out }
                }
            },
            _ => EvalOut { res: Ok(e), env, out },
        }
    }
}

/// Evaluates the elements of a list left to right, stopping at the first
/// failure; the environment changes of an element are seen by the next.
pub open spec fn evlis_v(s: CellV, env: Map<Seq<char>, CellV>, out: Seq<Seq<char>>, fuel: nat) -> EvalOut
    decreases fuel,
{
    if fuel == 0 {
        EvalOut { res: Err(ErrV::DEPTH), env, out }
    } else if s is NIL {
        EvalOut { res: Ok(CellV::NIL), env, out }
    } else {
        let h = eval_v(car_v(s), env, out, (fuel - 1) as nat);
        match h.res {
            Ok(hv) => {
                let t = evlis_v(cdr_v(s), h.env, h.out, (fuel - 1) as nat);
                match t.res {
                    Ok(tv) => EvalOut {
                        res: Ok(CellV::CONS { car: Box::new(hv), cdr: Box::new(tv) }),
                        env: t.env,
                        out: t.out,
                    },
                    Err(e) => t,
                }
            },
            Err(e) => h,
        }
    }
}

/// Resolves `f` against the environment and dispatches: a subr runs on the
/// given (already evaluated) arguments, an fsubr on the raw ones; anything
/// else is not callable.
pub open spec fn apply_v(f: CellV, args: CellV, env: Map<Seq<char>, CellV>, out: Seq<Seq<char>>, fuel: nat) -> EvalOut
    decreases fuel,
{
    if fuel == 0 {
        EvalOut { res: Err(ErrV::DEPTH), env, out }
    } else {
        match f {
            CellV::SYMBOL { name } => {
                match lookup_v(env, name) {
                    CellV::SUBR { kind, .. } => crate::subr::subr_apply_v(kind, args, env, out),
                    CellV::FSUBR { kind, .. } => fsubr_apply_v(kind, args, env, out, (fuel - 1) as nat),
                    _ => EvalOut { res: Err(ErrV::NOSYMBOL { cell: f }), env, out },
                }
            },
            _ => EvalOut { res: Err(ErrV::NOSYMBOL { cell: f }), env, out },
        }
    }
}

/// The special forms: `setq` binds the evaluated second argument to the name
/// given by the first; `if` evaluates the condition and then exactly one of
/// the branches; `defun` binds the raw argument-and-body list to the name.
pub open spec fn fsubr_apply_v(kind: FsubrKind, args: CellV, env: Map<Seq<char>, CellV>, out: Seq<Seq<char>>, fuel: nat) -> EvalOut
    decreases fuel,
{
    if fuel == 0 {
        EvalOut { res: Err(ErrV::DEPTH), env, out }
    } else {
        match kind {
            FsubrKind::SETQ => {
                let ev = eval_v(cadr_v(args), env, out, (fuel - 1) as nat);
                match ev.res {
                    Ok(v) => {
                        match car_v(args) {
                            CellV::SYMBOL { name } => EvalOut {
                                res: Ok(v),
                                env: ev.env.insert(name, v),
                                out: ev.out,
                            },
                            _ => EvalOut { res: Ok(v), env: ev.env, out: ev.out },
                        }
                    },
                    Err(e) => ev,
                }
            },
            FsubrKind::IF => {
                let c = eval_v(car_v(args), env, out, (fuel - 1) as nat);
                match c.res {
                    Ok(cv) => {
                        if !(cv is NIL) {
                            eval_v(cadr_v(args), c.env, c.out, (fuel - 1) as nat)
                        } else {
                            eval_v(car_v(cdr_v(cdr_v(args))), c.env, c.out, (fuel - 1) as nat)
                        }
                    },
                    Err(e) => c,
                }
            },
            FsubrKind::DEFUN => {
                match car_v(args) {
                    CellV::SYMBOL { name } => EvalOut {
                        res: Ok(car_v(args)),
                        env: env.insert(name, cdr_v(args)),
                        out,
                    },
                    _ => EvalOut { res: Ok(car_v(args)), env, out },
                }
            },
        }
    }
}

// ---------------------------------------------------------------------------
// The executable evaluator
// ---------------------------------------------------------------------------

/// Whether this cell is the symbol `quote`.
fn is_quote_sym(c: &Cell) -> (b: bool)
    ensures
        b == (c@ matches CellV::SYMBOL { name } && name == quote_name()),
{
    match c {
        Cell::SYMBOL { name } => {
            let q = crate::parser::quote_string();
            *name == q
        },
        _ => false,
    }
}

/// Whether `sym` names a primitive with evaluated arguments.
pub fn is_subrp(sym: &Cell, env: &Env) -> (b: bool)
    ensures
        b == is_subr_name(env@, sym@),
{
    match sym.name() {
        Some(name) => {
            let target = find_sym(name, env);
            target.is_subr()
        },
        None => false,
    }
}

/// Whether `sym` names a special form.
pub fn is_fsubrp(sym: &Cell, env: &Env) -> (b: bool)
    ensures
        b == is_fsubr_name(env@, sym@),
{
    match sym.name() {
        Some(name) => {
            let target = find_sym(name, env);
            target.is_fsubr()
        },
        None => false,
    }
}

pub(crate) fn eval_fuel(sexp: &Cell, genv: &mut Env, fuel: u64) -> (r: Result<Sexp, ParseError>)
    ensures
        ({
            let eo = eval_v(sexp@, old(genv)@, old(genv).out(), fuel as nat);
            &&& final(genv)@ == eo.env
            &&& final(genv).out() == eo.out
            &&& match r {
                Ok(c) => eo.res matches Ok(v) && c@ == v,
                Err(e) => eo.res matches Err(ev) && e@ == ev,
            }
        }),
    decreases fuel,
{
    if fuel == 0 {
        return Err(ParseError::TooDeep);
    }
    match sexp {
        Cell::NUMBER { .. } => Ok(Box::new(sexp.duplicate())),
        Cell::SYMBOL { name } => {
            let sym = find_sym(name.clone(), genv);
            if sym.is_value() {
                Ok(sym)
            } else {
                Err(ParseError::Nosymbol { cell: sexp.duplicate() })
            }
        },
        Cell::CONS { car, cdr } => {
            let head: &Cell = car;
            if is_quote_sym(head) {
                Ok(sexp.cadr())
            } else if head.is_number() {
                Err(ParseError::NotNumber { cell: head.duplicate() })
            } else if is_subrp(head, genv) {
                let args = match evlis_fuel(cdr, genv, fuel - 1) {
                    Ok(a) => a,
                    Err(e) => {
                        return Err(e);
                    },
                };
                apply_fuel(head, &args, genv, fuel - 1)
            } else if is_fsubrp(head, genv) {
                apply_fuel(head, cdr, genv, fuel - 1)
            } else {
                Err(ParseError::Nosymbol { cell: head.duplicate() })
            }
        },
        _ => Ok(Box::new(sexp.duplicate())),
    }
}

pub(crate) fn evlis_fuel(sexp: &Cell, env: &mut Env, fuel: u64) -> (r: Result<Sexp, ParseError>)
    ensures
        ({
            let eo = evlis_v(sexp@, old(env)@, old(env).out(), fuel as nat);
            &&& final(env)@ == eo.env
            &&& final(env).out() == eo.out
            &&& match r {
                Ok(c) => eo.res matches Ok(v) && c@ == v,
                Err(e) => eo.res matches Err(ev) && e@ == ev,
            }
        }),
    decreases fuel,
{
    if fuel == 0 {
        return Err(ParseError::TooDeep);
    }
    match sexp {
        Cell::NIL => Ok(Cell::nil()),
        Cell::CONS { car, cdr } => {
            let h = match eval_fuel(car, env, fuel - 1) {
                Ok(v) => v,
                Err(e) => {
                    return Err(e);
                },
            };
            let t = match evlis_fuel(cdr, env, fuel - 1) {
                Ok(v) => v,
                Err(e) => {
                    return Err(e);
                },
            };
            Ok(Cell::cons(h, t))
        },
        _ => {
            // a non-nil atom in tail position: its head and tail both read
            // as nil
            let nil_cell = Cell::NIL;
            let h = match eval_fuel(&nil_cell, env, fuel - 1) {
                Ok(v) => v,
                Err(e) => {
                    return Err(e);
                },
            };
            let t = match evlis_fuel(&nil_cell, env, fuel - 1) {
                Ok(v) => v,
                Err(e) => {
                    return Err(e);
                },
            };
            Ok(Cell::cons(h, t))
        },
    }
}

pub(crate) fn apply_fuel(func: &Cell, args: &Cell, env: &mut Env, fuel: u64) -> (r: Result<
    Sexp,
    ParseError,
>)
    ensures
        ({
            let eo = apply_v(func@, args@, old(env)@, old(env).out(), fuel as nat);
            &&& final(env)@ == eo.env
            &&& final(env).out() == eo.out
            &&& match r {
                Ok(c) => eo.res matches Ok(v) && c@ == v,
                Err(e) => eo.res matches Err(ev) && e@ == ev,
            }
        }),
    decreases fuel,
{
    if fuel == 0 {
        return Err(ParseError::TooDeep);
    }
    match func {
        Cell::SYMBOL { name } => {
            let target = find_sym(name.clone(), env);
            match &*target {
                Cell::SUBR { kind, .. } => {
                    match kind {
                        SubrKind::PLUS => crate::subr::f_plus(args),
                        SubrKind::MINUS => crate::subr::f_minus(args),
                        SubrKind::MULT => crate::subr::f_mult(args),
                        SubrKind::DIV => crate::subr::f_div(args),
                        SubrKind::MOD => crate::subr::f_mod(args),
                        SubrKind::AND => crate::subr::f_and(args),
                        SubrKind::OR => crate::subr::f_or(args),
                        SubrKind::EQUAL => crate::subr::f_equal(args),
                        SubrKind::EQ => crate::subr::f_eq(args),
                        SubrKind::PRINT => crate::subr::f_print(args, env),
                    }
                },
                Cell::FSUBR { kind, .. } => {
                    match kind {
                        FsubrKind::SETQ => crate::fsubr::f_setq(args, env, fuel - 1),
                        FsubrKind::IF => crate::fsubr::f_if(args, env, fuel - 1),
                        FsubrKind::DEFUN => crate::fsubr::f_defun(args, env, fuel - 1),
                    }
                },
                _ => Err(ParseError::Nosymbol { cell: func.duplicate() }),
            }
        },
        _ => Err(ParseError::Nosymbol { cell: func.duplicate() }),
    }
}

/// Evaluates one form against the session environment, with the standard
/// recursion ceiling.
pub fn eval(sexp: &Cell, genv: &mut Env) -> (r: Result<Sexp, ParseError>)
    ensures
        ({
            let eo = eval_v(sexp@, old(genv)@, old(genv).out(), EVAL_LIMIT as nat);
            &&& final(genv)@ == eo.env
            &&& final(genv).out() == eo.out
            &&& match r {
                Ok(c) => eo.res matches Ok(v) && c@ == v,
                Err(e) => eo.res matches Err(ev) && e@ == ev,
            }
        }),
{
    eval_fuel(sexp, genv, EVAL_LIMIT)
}

/// Evaluating a reference to a symbol with no binding always fails with the
/// unbound-symbol error, leaving the bindings and the output untouched: it
/// never silently yields nil.
pub proof fn lemma_unbound_symbol_error(
    name: Seq<char>,
    env: Map<Seq<char>, CellV>,
    out: Seq<Seq<char>>,
)
    requires
        !env.contains_key(name),
    ensures
        ({
            let eo = eval_v(CellV::SYMBOL { name }, env, out, EVAL_LIMIT as nat);
            &&& eo.res == Err::<CellV, ErrV>(ErrV::NOSYMBOL { cell: CellV::SYMBOL { name } })
            &&& eo.env == env
            &&& eo.out == out
        }),
{
}

/// The lexer of this interpreter.
pub type Lexer = crate::lexer::Lexer;

/// The parser over that lexer.
pub type Parser = crate::parser::Parser<crate::lexer::Lexer>;

} // verus!
