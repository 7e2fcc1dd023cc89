//! The s-expression data model and the parser that builds cons-cell trees
//! from tokens.

use vstd::prelude::*;
use crate::token::{TokV, Token};
use crate::lexer::Tokenize;
use crate::ErrV;
use crate::ParseError;
use vstd::string::StringExecFns;

verus! {

// ---------------------------------------------------------------------------
// Built-in function identities
// ---------------------------------------------------------------------------

/// Which primitive a `SUBR` cell stands for (arguments evaluated).
#[derive(Debug, Clone, Copy, PartialEq, Eq, Structural)]
pub enum SubrKind {
    PLUS,
    MINUS,
    MULT,
    DIV,
    MOD,
    AND,
    OR,
    EQUAL,
    EQ,
    PRINT,
}

/// Which special form an `FSUBR` cell stands for (arguments unevaluated).
#[derive(Debug, Clone, Copy, PartialEq, Eq, Structural)]
pub enum FsubrKind {
    SETQ,
    IF,
    DEFUN,
}

// ---------------------------------------------------------------------------
// The cell and its mathematical model
// ---------------------------------------------------------------------------

/// The mathematical model of a cell: numbers are unbounded here, and names
/// are character sequences.
#[allow(inconsistent_fields)]
pub enum CellV {
    NIL,
    NUMBER { val: int },
    SYMBOL { name: Seq<char> },
    CONS { car: Box<CellV>, cdr: Box<CellV> },
    SUBR { name: Seq<char>, kind: SubrKind },
    FSUBR { name: Seq<char>, kind: FsubrKind },
    FUNC,
}

/// A cell of an s-expression tree.
#[derive(Debug)]
#[allow(inconsistent_fields)]
pub enum Cell {
    /// The empty list; doubles as false and as "not found".
    NIL,
    /// A numeric leaf: a 64-bit signed integer.
    NUMBER { val: i64 },
    /// A named reference, resolved against the environment when evaluated.
    SYMBOL { name: String },
    /// A binary node: `car` is the element, `cdr` the tail.
    CONS { car: Sexp, cdr: Sexp },
    /// A primitive whose arguments are evaluated before the call.
    SUBR { name: String, kind: SubrKind },
    /// A special form that receives its arguments unevaluated.
    FSUBR { name: String, kind: FsubrKind },
    /// A user-defined function; a placeholder, never produced by the parser.
    FUNC,
}

/// An owned s-expression tree node.
pub type Sexp = Box<Cell>;

impl View for Cell {
    type V = CellV;

    open spec fn view(&self) -> CellV
        decreases self,
    {
        match self {
            Cell::NIL => CellV::NIL,
            Cell::NUMBER { val } => CellV::NUMBER { val: *val as int },
            Cell::SYMBOL { name } => CellV::SYMBOL { name: name@ },
            Cell::CONS { car, cdr } => CellV::CONS {
                car: Box::new((**car)@),
                cdr: Box::new((**cdr)@),
            },
            Cell::SUBR { name, kind } => CellV::SUBR { name: name@, kind: *kind },
            Cell::FSUBR { name, kind } => CellV::FSUBR { name: name@, kind: *kind },
            Cell::FUNC => CellV::FUNC,
        }
    }
}

/// The size of a tree: the number of its cons nodes and non-nil leaves.
pub open spec fn sz(v: CellV) -> nat
    decreases v,
{
    match v {
        CellV::NIL => 0,
        CellV::CONS { car, cdr } => 1 + sz(*car) + sz(*cdr),
        _ => 1,
    }
}

// Spec views of the basic accessors.

pub open spec fn car_v(v: CellV) -> CellV {
    match v {
        CellV::CONS { car, .. } => *car,
        _ => CellV::NIL,
    }
}

pub open spec fn cdr_v(v: CellV) -> CellV {
    match v {
        CellV::CONS { cdr, .. } => *cdr,
        _ => CellV::NIL,
    }
}

pub open spec fn cadr_v(v: CellV) -> CellV {
    car_v(cdr_v(v))
}

pub open spec fn caar_v(v: CellV) -> CellV {
    car_v(car_v(v))
}

impl Cell {
    pub fn nil() -> (r: Sexp)
        ensures
            r@ == CellV::NIL,
    {
        Box::new(Cell::NIL)
    }

    pub fn number(val: i64) -> (r: Sexp)
        ensures
            r@ == (CellV::NUMBER { val: val as int }),
    {
        Box::new(Cell::NUMBER { val })
    }

    pub fn symbol(name: String) -> (r: Sexp)
        ensures
            r@ == (CellV::SYMBOL { name: name@ }),
    {
        Box::new(Cell::SYMBOL { name })
    }

    pub fn cons(car: Sexp, cdr: Sexp) -> (r: Sexp)
        ensures
            r@ == (CellV::CONS { car: Box::new(car@), cdr: Box::new(cdr@) }),
    {
        Box::new(Cell::CONS { car, cdr })
    }

    pub fn subr(name: String, kind: SubrKind) -> (r: Sexp)
        ensures
            r@ == (CellV::SUBR { name: name@, kind }),
    {
        Box::new(Cell::SUBR { name, kind })
    }

    pub fn fsubr(name: String, kind: FsubrKind) -> (r: Sexp)
        ensures
            r@ == (CellV::FSUBR { name: name@, kind }),
    {
        Box::new(Cell::FSUBR { name, kind })
    }

    /// A structural copy of the tree.
    pub fn duplicate(&self) -> (r: Cell)
        ensures
            r@ == self@,
        decreases sz(self@),
    {
        match self {
            Cell::NIL => Cell::NIL,
            Cell::NUMBER { val } => Cell::NUMBER { val: *val },
            Cell::SYMBOL { name } => Cell::SYMBOL { name: name.clone() },
            Cell::CONS { car, cdr } => Cell::CONS {
                car: Box::new(car.duplicate()),
                cdr: Box::new(cdr.duplicate()),
            },
            Cell::SUBR { name, kind } => Cell::SUBR { name: name.clone(), kind: *kind },
            Cell::FSUBR { name, kind } => Cell::FSUBR { name: name.clone(), kind: *kind },
            Cell::FUNC => Cell::FUNC,
        }
    }

    /// The element of a cons node; nil for anything else.
    pub fn car(&self) -> (r: Sexp)
        ensures
            r@ == car_v(self@),
    {
        match self {
            Cell::CONS { car, .. } => Box::new(car.duplicate()),
            _ => Cell::nil(),
        }
    }

    /// The tail of a cons node; nil for anything else.
    pub fn cdr(&self) -> (r: Sexp)
        ensures
            r@ == cdr_v(self@),
    {
        match self {
            Cell::CONS { cdr, .. } => Box::new(cdr.duplicate()),
            _ => Cell::nil(),
        }
    }

    /// The second element of a list.
    pub fn cadr(&self) -> (r: Sexp)
        ensures
            r@ == cadr_v(self@),
    {
        self.cdr().car()
    }

    /// The element of the element of a list.
    pub fn caar(&self) -> (r: Sexp)
        ensures
            r@ == caar_v(self@),
    {
        self.car().car()
    }

    /// Replaces the element of a cons node; anything else is unchanged.
    pub fn set_car(&mut self, cell: Sexp)
        ensures
            final(self)@ == (match old(self)@ {
                CellV::CONS { cdr, .. } => CellV::CONS { car: Box::new(cell@), cdr },
                _ => old(self)@,
            }),
    {
        if let Cell::CONS { car, .. } = self {
            *car = cell;
        }
    }

    /// Replaces the tail of a cons node; anything else is unchanged.
    pub fn set_cdr(&mut self, cell: Sexp)
        ensures
            final(self)@ == (match old(self)@ {
                CellV::CONS { car, .. } => CellV::CONS { car, cdr: Box::new(cell@) },
                _ => old(self)@,
            }),
    {
        if let Cell::CONS { cdr, .. } = self {
            *cdr = cell;
        }
    }

    /// The name of a symbol.
    pub fn name(&self) -> (r: Option<String>)
        ensures
            match r {
                Some(s) => self@ matches CellV::SYMBOL { name } && s@ == name,
                None => !(self@ matches CellV::SYMBOL { .. }),
            },
    {
        match self {
            Cell::SYMBOL { name } => Some(name.clone()),
            _ => None,
        }
    }

    pub fn is_nil(&self) -> (b: bool)
        ensures
            b == (self@ matches CellV::NIL),
    {
        matches!(self, Cell::NIL)
    }

    /// Everything but nil counts as a value (and as truth).
    pub fn is_value(&self) -> (b: bool)
        ensures
            b == !(self@ matches CellV::NIL),
    {
        !self.is_nil()
    }

    /// A leaf that stands for itself or a name: a number or a symbol.
    pub fn is_atom(&self) -> (b: bool)
        ensures
            b == (self@ matches CellV::NUMBER { .. } || self@ matches CellV::SYMBOL { .. }),
    {
        self.is_number() || self.is_symbol()
    }

    pub fn is_symbol(&self) -> (b: bool)
        ensures
            b == (self@ matches CellV::SYMBOL { .. }),
    {
        matches!(self, Cell::SYMBOL { .. })
    }

    pub fn is_number(&self) -> (b: bool)
        ensures
            b == (self@ matches CellV::NUMBER { .. }),
    {
        matches!(self, Cell::NUMBER { .. })
    }

    pub fn is_list(&self) -> (b: bool)
        ensures
            b == (self@ matches CellV::CONS { .. }),
    {
        matches!(self, Cell::CONS { .. })
    }

    pub fn is_subr(&self) -> (b: bool)
        ensures
            b == (self@ matches CellV::SUBR { .. }),
    {
        matches!(self, Cell::SUBR { .. })
    }

    pub fn is_fsubr(&self) -> (b: bool)
        ensures
            b == (self@ matches CellV::FSUBR { .. }),
    {
        matches!(self, Cell::FSUBR { .. })
    }

    pub fn is_function(&self) -> (b: bool)
        ensures
            b == (self@ matches CellV::FUNC),
    {
        matches!(self, Cell::FUNC)
    }
}

/// The immediate non-nil children of a node, element first.
pub open spec fn children_v(v: CellV) -> Seq<CellV> {
    match v {
        CellV::CONS { car, cdr } => {
            let a: Seq<CellV> = if *car is NIL {
                Seq::empty()
            } else {
                seq![*car]
            };
            let b: Seq<CellV> = if *cdr is NIL {
                Seq::empty()
            } else {
                seq![*cdr]
            };
            a + b
        },
        _ => Seq::empty(),
    }
}

impl Cell {
    /// The immediate non-nil children of this node.
    pub fn iter(&self) -> (r: Vec<&Cell>)
        ensures
            r@.len() == children_v(self@).len(),
            forall|i: int| 0 <= i < r@.len() ==> r@[i]@ == children_v(self@)[i],
    {
        let mut v: Vec<&Cell> = Vec::new();
        match self {
            Cell::CONS { car, cdr } => {
                if car.is_value() {
                    v.push(car);
                }
                if cdr.is_value() {
                    v.push(cdr);
                }
            },
            _ => {},
        }
        v
    }
}

/// Structural equality over two trees.
pub fn cell_eq(x: &Cell, y: &Cell) -> (r: bool)
    ensures
        r == (x@ == y@),
    decreases sz(x@),
{
    match (x, y) {
        (Cell::NIL, Cell::NIL) => true,
        (Cell::NUMBER { val: a }, Cell::NUMBER { val: b }) => *a == *b,
        (Cell::SYMBOL { name: a }, Cell::SYMBOL { name: b }) => *a == *b,
        (Cell::CONS { car: a, cdr: b }, Cell::CONS { car: c, cdr: d }) => {
            let r1 = cell_eq(a, c);
            let r2 = cell_eq(b, d);
            r1 && r2
        },
        (Cell::SUBR { name: a, kind: k1 }, Cell::SUBR { name: b, kind: k2 }) => *a == *b && *k1
            == *k2,
        (Cell::FSUBR { name: a, kind: k1 }, Cell::FSUBR { name: b, kind: k2 }) => *a == *b && *k1
            == *k2,
        (Cell::FUNC, Cell::FUNC) => true,
        _ => false,
    }
}

impl PartialEq for Cell {
    /// Structural equality over the tree.
    fn eq(&self, other: &Cell) -> (r: bool) {
        cell_eq(self, other)
    }
}

impl vstd::std_specs::cmp::PartialEqSpecImpl for Cell {
    open spec fn obeys_eq_spec() -> bool {
        true
    }

    open spec fn eq_spec(&self, other: &Cell) -> bool {
        self@ == other@
    }
}

// ---------------------------------------------------------------------------
// Rendering
// ---------------------------------------------------------------------------

pub open spec fn digit_char_of(d: int) -> char {
    if d == 0 {
        '0'
    } else if d == 1 {
        '1'
    } else if d == 2 {
        '2'
    } else if d == 3 {
        '3'
    } else if d == 4 {
        '4'
    } else if d == 5 {
        '5'
    } else if d == 6 {
        '6'
    } else if d == 7 {
        '7'
    } else if d == 8 {
        '8'
    } else {
        '9'
    }
}

/// The decimal digits of `n`, most significant first.
pub open spec fn dec_digits(n: nat) -> Seq<char>
    decreases n,
{
    if n < 10 {
        seq![digit_char_of(n as int)]
    } else {
        dec_digits(n / 10) + seq![digit_char_of((n % 10) as int)]
    }
}

/// The decimal text of an integer.
pub open spec fn int_text(v: int) -> Seq<char> {
    if v < 0 {
        seq!['-'] + dec_digits((-v) as nat)
    } else {
        dec_digits(v as nat)
    }
}

pub open spec fn quote_name() -> Seq<char> {
    seq!['q', 'u', 'o', 't', 'e']
}

pub open spec fn nil_text() -> Seq<char> {
    seq!['n', 'i', 'l']
}

pub open spec fn subr_prefix() -> Seq<char> {
    seq!['<', 's', 'u', 'b', 'r', ':', ' ']
}

pub open spec fn fsubr_prefix() -> Seq<char> {
    seq!['<', 'f', 's', 'u', 'b', 'r', ':', ' ']
}

pub open spec fn func_text() -> Seq<char> {
    seq!['<', 'f', 'u', 'n', 'c', 't', 'i', 'o', 'n', '>']
}

/// The canonical display text of a tree.
pub open spec fn render_spec(v: CellV) -> Seq<char>
    decreases sz(v), 1nat,
{
    match v {
        CellV::NIL => nil_text(),
        CellV::NUMBER { val } => int_text(val),
        CellV::SYMBOL { name } => name,
        CellV::CONS { .. } => seq!['('] + render_list_spec(v),
        CellV::SUBR { name, .. } => subr_prefix() + name + seq!['>'],
        CellV::FSUBR { name, .. } => fsubr_prefix() + name + seq!['>'],
        CellV::FUNC => func_text(),
    }
}

/// The text of a list body, closing parenthesis included: each element's
/// text in turn, space-separated; a non-list tail is written as a dotted
/// pair.
pub open spec fn render_list_spec(v: CellV) -> Seq<char>
    decreases sz(v), 0nat,
{
    match v {
        CellV::CONS { car, cdr } => {
            if !(*cdr is NIL) && !(*cdr is CONS) {
                render_spec(*car) + seq![' ', '.', ' '] + render_spec(*cdr) + seq![')']
            } else if *cdr is NIL {
                render_spec(*car) + seq![')']
            } else {
                render_spec(*car) + seq![' '] + render_list_spec(*cdr)
            }
        },
        _ => seq![')'],
    }
}

fn digit_str(d: u64) -> (r: &'static str)
    requires
        d < 10,
    ensures
        r@ == seq![digit_char_of(d as int)],
{
    match d {
        0 => {
            proof {
                reveal_strlit("0");
                assert("0"@ =~= seq!['0']);
            }
            "0"
        },
        1 => {
            proof {
                reveal_strlit("1");
                assert("1"@ =~= seq!['1']);
            }
            "1"
        },
        2 => {
            proof {
                reveal_strlit("2");
                assert("2"@ =~= seq!['2']);
            }
            "2"
        },
        3 => {
            proof {
                reveal_strlit("3");
                assert("3"@ =~= seq!['3']);
            }
            "3"
        },
        4 => {
            proof {
                reveal_strlit("4");
                assert("4"@ =~= seq!['4']);
            }
            "4"
        },
        5 => {
            proof {
                reveal_strlit("5");
                assert("5"@ =~= seq!['5']);
            }
            "5"
        },
        6 => {
            proof {
                reveal_strlit("6");
                assert("6"@ =~= seq!['6']);
            }
            "6"
        },
        7 => {
            proof {
                reveal_strlit("7");
                assert("7"@ =~= seq!['7']);
            }
            "7"
        },
        8 => {
            proof {
                reveal_strlit("8");
                assert("8"@ =~= seq!['8']);
            }
            "8"
        },
        _ => {
            proof {
                reveal_strlit("9");
                assert("9"@ =~= seq!['9']);
            }
            "9"
        },
    }
}

fn push_dec(out: &mut String, m: u64)
    ensures
        final(out)@ == old(out)@ + dec_digits(m as nat),
    decreases m,
{
    if m < 10 {
        out.append(digit_str(m));
    } else {
        push_dec(out, m / 10);
        out.append(digit_str(m % 10));
        proof {
            assert(final(out)@ =~= old(out)@ + dec_digits(m as nat));
        }
    }
}

fn push_int(out: &mut String, v: i64)
    ensures
        final(out)@ == old(out)@ + int_text(v as int),
{
    if v >= 0 {
        push_dec(out, v as u64);
    } else {
        proof {
            reveal_strlit("-");
            assert("-"@ =~= seq!['-']);
        }
        out.append("-");
        let mag: u64 = if v == i64::MIN {
            9223372036854775808u64
        } else {
            (-v) as u64
        };
        push_dec(out, mag);
        proof {
            assert(final(out)@ =~= old(out)@ + int_text(v as int));
        }
    }
}

impl Cell {
    fn write_text(&self, out: &mut String)
        ensures
            final(out)@ == old(out)@ + render_spec(self@),
        decreases sz(self@), 1nat,
    {
        match self {
            Cell::NIL => {
                proof {
                    reveal_strlit("nil");
                    assert("nil"@ =~= nil_text());
                }
                out.append("nil");
            },
            Cell::NUMBER { val } => {
                push_int(out, *val);
            },
            Cell::SYMBOL { name } => {
                out.append(name.as_str());
            },
            Cell::CONS { .. } => {
                proof {
                    reveal_strlit("(");
                    assert("("@ =~= seq!['(']);
                }
                out.append("(");
                self.write_list_text(out);
                proof {
                    assert(final(out)@ =~= old(out)@ + render_spec(self@));
                }
            },
            Cell::SUBR { name, .. } => {
                proof {
                    reveal_strlit("<subr: ");
                    reveal_strlit(">");
                    assert("<subr: "@ =~= subr_prefix());
                    assert(">"@ =~= seq!['>']);
                }
                out.append("<subr: ");
                out.append(name.as_str());
                out.append(">");
                proof {
                    assert(final(out)@ =~= old(out)@ + render_spec(self@));
                }
            },
            Cell::FSUBR { name, .. } => {
                proof {
                    reveal_strlit("<fsubr: ");
                    reveal_strlit(">");
                    assert("<fsubr: "@ =~= fsubr_prefix());
                    assert(">"@ =~= seq!['>']);
                }
                out.append("<fsubr: ");
                out.append(name.as_str());
                out.append(">");
                proof {
                    assert(final(out)@ =~= old(out)@ + render_spec(self@));
                }
            },
            Cell::FUNC => {
                proof {
                    reveal_strlit("<function>");
                    assert("<function>"@ =~= func_text());
                }
                out.append("<function>");
            },
        }
    }

    fn write_list_text(&self, out: &mut String)
        requires
            self@ is CONS,
        ensures
            final(out)@ == old(out)@ + render_list_spec(self@),
        decreases sz(self@), 0nat,
    {
        proof {
            reveal_strlit(")");
            reveal_strlit(" . ");
            reveal_strlit(" ");
            assert(")"@ =~= seq![')']);
            assert(" . "@ =~= seq![' ', '.', ' ']);
            assert(" "@ =~= seq![' ']);
        }
        match self {
            Cell::CONS { car, cdr } => {
                if cdr.is_value() && !cdr.is_list() {
                    car.write_text(out);
                    out.append(" . ");
                    cdr.write_text(out);
                    out.append(")");
                    proof {
                        assert(final(out)@ =~= old(out)@ + render_list_spec(self@));
                    }
                } else {
                    car.write_text(out);
                    if !cdr.is_nil() {
                        out.append(" ");
                        cdr.write_list_text(out);
                        proof {
                            assert(final(out)@ =~= old(out)@ + render_list_spec(self@));
                        }
                    } else {
                        out.append(")");
                        proof {
                            assert(final(out)@ =~= old(out)@ + render_list_spec(self@));
                        }
                    }
                }
            },
            _ => {
                proof {
                    assert(false);
                }
            },
        }
    }

    /// The canonical display text of this tree.
    pub fn to_text(&self) -> (r: String)
        ensures
            r@ == render_spec(self@),
    {
        let mut out = String::new();
        self.write_text(&mut out);
        proof {
            assert(out@ =~= render_spec(self@));
        }
        out
    }
}

// ---------------------------------------------------------------------------
// Parsing, specified over token sequences
// ---------------------------------------------------------------------------

/// The outcome of reading one form: the tree or the error, and the tokens
/// left over.
pub struct ParseOut {
    pub res: Result<CellV, ErrV>,
    pub rest: Seq<TokV>,
}

/// `'x` reads as `(quote x)`.
pub open spec fn quote_wrap(v: CellV) -> CellV {
    CellV::CONS {
        car: Box::new(CellV::SYMBOL { name: quote_name() }),
        cdr: Box::new(CellV::CONS { car: Box::new(v), cdr: Box::new(CellV::NIL) }),
    }
}

/// Reads one form from the head of `toks`.  An exhausted stream yields nil;
/// a stray closing parenthesis, dot or string is a syntax error; an
/// unclassifiable run is a lexical error.  `fuel` only bounds the recursion
/// and never runs out when it is at least `toks.len() + 1`.
pub open spec fn parse_form(toks: Seq<TokV>, fuel: nat) -> ParseOut
    decreases fuel, 0nat,
{
    if toks.len() == 0 {
        ParseOut { res: Ok(CellV::NIL), rest: toks }
    } else {
        match toks[0] {
            TokV::NUMBER { val } => ParseOut {
                res: Ok(CellV::NUMBER { val }),
                rest: toks.drop_first(),
            },
            TokV::SYMBOL { name } => ParseOut {
                res: Ok(CellV::SYMBOL { name }),
                rest: toks.drop_first(),
            },
            TokV::QUOTE => {
                if fuel == 0 {
                    ParseOut { res: Err(ErrV::SYNTAX), rest: toks }
                } else {
                    let p = parse_form(toks.drop_first(), (fuel - 1) as nat);
                    match p.res {
                        Ok(v) => ParseOut { res: Ok(quote_wrap(v)), rest: p.rest },
                        Err(e) => p,
                    }
                }
            },
            TokV::LPAREN => {
                if fuel == 0 {
                    ParseOut { res: Err(ErrV::SYNTAX), rest: toks }
                } else {
                    parse_tail(toks.drop_first(), (fuel - 1) as nat)
                }
            },
            TokV::RPAREN => ParseOut { res: Err(ErrV::SYNTAX), rest: toks },
            TokV::DOT => ParseOut { res: Err(ErrV::SYNTAX), rest: toks },
            TokV::STRING { .. } => ParseOut { res: Err(ErrV::SYNTAX), rest: toks },
            TokV::OTHER { name } => ParseOut { res: Err(ErrV::LEXICAL { text: name }), rest: toks },
        }
    }
}

/// Reads the remainder of a list that was opened before `toks`: forms until
/// the closing parenthesis; after a dot, one final form and the closing
/// parenthesis.  A stream that ends inside the list is a syntax error.
pub open spec fn parse_tail(toks: Seq<TokV>, fuel: nat) -> ParseOut
    decreases fuel, 1nat,
{
    if toks.len() == 0 {
        ParseOut { res: Err(ErrV::SYNTAX), rest: toks }
    } else {
        match toks[0] {
            TokV::RPAREN => ParseOut { res: Ok(CellV::NIL), rest: toks.drop_first() },
            TokV::DOT => {
                if fuel == 0 {
                    ParseOut { res: Err(ErrV::SYNTAX), rest: toks }
                } else {
                    let p = parse_form(toks.drop_first(), (fuel - 1) as nat);
                    match p.res {
                        Ok(v) => {
                            if p.rest.len() > 0 && p.rest[0] == TokV::RPAREN {
                                ParseOut { res: Ok(v), rest: p.rest.drop_first() }
                            } else {
                                ParseOut { res: Err(ErrV::SYNTAX), rest: p.rest }
                            }
                        },
                        Err(e) => p,
                    }
                }
            },
            _ => {
                if fuel == 0 {
                    ParseOut { res: Err(ErrV::SYNTAX), rest: toks }
                } else {
                    let p = parse_form(toks, fuel);
                    match p.res {
                        Ok(v) => {
                            let q = parse_tail(p.rest, (fuel - 1) as nat);
                            match q.res {
                                Ok(w) => ParseOut {
                                    res: Ok(CellV::CONS { car: Box::new(v), cdr: Box::new(w) }),
                                    rest: q.rest,
                                },
                                Err(e) => q,
                            }
                        },
                        Err(e) => p,
                    }
                }
            },
        }
    }
}

/// Reading one form from a token stream.
pub open spec fn parse_spec(toks: Seq<TokV>) -> ParseOut {
    parse_form(toks, (toks.len() + 1) as nat)
}

/// Reading a list body from a token stream.
pub open spec fn parse_list_spec(toks: Seq<TokV>) -> ParseOut {
    parse_tail(toks, (toks.len() + 1) as nat)
}

/// With fuel of at least `toks.len() + 1`, the fuel does not matter, the
/// leftover is never longer than the input, and a successful read of a form
/// from a nonempty stream consumes at least one token.
pub proof fn lemma_parse_form_fuel(toks: Seq<TokV>, f1: nat, f2: nat)
    requires
        f1 >= toks.len() + 1,
        f2 >= toks.len() + 1,
    ensures
        ({
            let p = parse_form(toks, f1);
            &&& p == parse_form(toks, f2)
            &&& p.rest.len() <= toks.len()
            &&& (p.res is Ok && toks.len() > 0 ==> p.rest.len() < toks.len())
        }),
    decreases f1 + f2, 0nat,
{
    if toks.len() == 0 {
    } else {
        match toks[0] {
            TokV::QUOTE => {
                lemma_parse_form_fuel(toks.drop_first(), (f1 - 1) as nat, (f2 - 1) as nat);
            },
            TokV::LPAREN => {
                lemma_parse_tail_fuel(toks.drop_first(), (f1 - 1) as nat, (f2 - 1) as nat);
            },
            _ => {},
        }
    }
}

pub proof fn lemma_parse_tail_fuel(toks: Seq<TokV>, f1: nat, f2: nat)
    requires
        f1 >= toks.len() + 1,
        f2 >= toks.len() + 1,
    ensures
        ({
            let p = parse_tail(toks, f1);
            &&& p == parse_tail(toks, f2)
            &&& p.rest.len() <= toks.len()
        }),
    decreases f1 + f2, 1nat,
{
    if toks.len() == 0 {
    } else {
        match toks[0] {
            TokV::RPAREN => {},
            TokV::DOT => {
                lemma_parse_form_fuel(toks.drop_first(), (f1 - 1) as nat, (f2 - 1) as nat);
            },
            _ => {
                lemma_parse_form_fuel(toks, f1, f2);
                let p = parse_form(toks, f1);
                if p.res is Ok {
                    lemma_parse_tail_fuel(p.rest, (f1 - 1) as nat, (f2 - 1) as nat);
                }
            },
        }
    }
}

// ---------------------------------------------------------------------------
// The parser
// ---------------------------------------------------------------------------

pub(crate) fn quote_string() -> (s: String)
    ensures
        s@ == quote_name(),
{
    let s = String::from_str("quote");
    proof {
        reveal_strlit("quote");
        assert("quote"@ =~= quote_name());
    }
    s
}

/// A recursive-descent reader over a token source, with one token of
/// lookahead.
pub struct Parser<T: Tokenize> {
    lexer: T,
    current: Option<Token>,
}

impl<T: Tokenize> Parser<T> {
    /// The tokens not yet consumed, lookahead included.
    pub closed spec fn toks(&self) -> Seq<TokV> {
        match self.current {
            Some(t) => seq![t@] + self.lexer.toks(),
            None => Seq::empty(),
        }
    }

    pub fn new(lexer: T) -> (p: Parser<T>)
        ensures
            p.toks() == lexer.toks(),
    {
        let mut lx = lexer;
        let ghost t0 = lx.toks();
        let current = lx.token();
        let p = Parser { lexer: lx, current };
        proof {
            if p.current is Some {
                assert(p.toks() =~= t0);
            } else {
                assert(p.toks() =~= t0);
            }
        }
        p
    }

    /// Pulls the next token into the lookahead slot.
    fn next(&mut self)
        requires
            old(self).current is Some,
        ensures
            final(self).toks() == old(self).toks().drop_first(),
    {
        let ghost t0 = old(self).toks();
        self.current = self.lexer.token();
        proof {
            if self.current is Some {
                assert(self.toks() =~= t0.drop_first());
            } else {
                assert(self.toks() =~= t0.drop_first());
            }
        }
    }

    /// Reads exactly one complete form from the token stream.  The reader
    /// recurses once per nesting level, so extremely deeply nested input
    /// costs stack in proportion to its depth.
    pub fn parse(&mut self) -> (r: Result<Sexp, ParseError>)
        ensures
            ({
                let p = parse_spec(old(self).toks());
                &&& final(self).toks().len() <= old(self).toks().len()
                &&& match r {
                    Ok(c) => {
                        &&& p.res matches Ok(v) && c@ == v
                        &&& final(self).toks() == p.rest
                        &&& (old(self).toks().len() > 0 ==> final(self).toks().len() < old(
                            self,
                        ).toks().len())
                    },
                    Err(e) => p.res matches Err(ev) && e@ == ev,
                }
            }),
        decreases self.toks().len(), 0nat,
    {
        let ghost t0 = self.toks();
        match &self.current {
            None => {
                Ok(Cell::nil())
            },
            Some(Token::NUMBER { val }) => {
                let v = *val;
                self.next();
                Ok(Cell::number(v))
            },
            Some(Token::SYMBOL { buf }) => {
                let name = buf.clone();
                self.next();
                Ok(Cell::symbol(name))
            },
            Some(Token::QUOTE) => {
                self.next();
                proof {
                    assert(self.toks() =~= t0.drop_first());
                    assert(self.toks().len() + 1 == t0.len() + 1 - 1);
                }
                let sub = match self.parse() {
                    Ok(c) => c,
                    Err(e) => return Err(e),
                };
                Ok(Cell::cons(Cell::symbol(quote_string()), Cell::cons(sub, Cell::nil())))
            },
            Some(Token::LPAREN) => {
                self.next();
                self.parse_list()
            },
            Some(Token::RPAREN) => Err(ParseError::Syntax),
            Some(Token::DOT) => Err(ParseError::Syntax),
            Some(Token::STRING { .. }) => Err(ParseError::Syntax),
            Some(Token::OTHER { buf }) => Err(ParseError::Lexical { text: buf.clone() }),
        }
    }

    /// Reads the rest of an open list, its closing parenthesis included.
    fn parse_list(&mut self) -> (r: Result<Sexp, ParseError>)
        ensures
            ({
                let p = parse_list_spec(old(self).toks());
                &&& final(self).toks().len() <= old(self).toks().len()
                &&& match r {
                    Ok(c) => {
                        &&& p.res matches Ok(v) && c@ == v
                        &&& final(self).toks() == p.rest
                    },
                    Err(e) => p.res matches Err(ev) && e@ == ev,
                }
            }),
        decreases self.toks().len(), 1nat,
    {
        let ghost t0 = self.toks();
        match &self.current {
            None => Err(ParseError::Syntax),
            Some(Token::RPAREN) => {
                self.next();
                Ok(Cell::nil())
            },
            Some(Token::DOT) => {
                self.next();
                proof {
                    assert(self.toks() =~= t0.drop_first());
                }
                let cdr = match self.parse() {
                    Ok(c) => c,
                    Err(e) => return Err(e),
                };
                match &self.current {
                    Some(Token::RPAREN) => {
                        self.next();
                        Ok(cdr)
                    },
                    _ => Err(ParseError::Syntax),
                }
            },
            Some(_) => {
                let car = match self.parse() {
                    Ok(c) => c,
                    Err(e) => return Err(e),
                };
                proof {
                    lemma_parse_tail_fuel(
                        self.toks(),
                        (t0.len() + 1 - 1) as nat,
                        (self.toks().len() + 1) as nat,
                    );
                }
                let cdr = match self.parse_list() {
                    Ok(c) => c,
                    Err(e) => return Err(e),
                };
                Ok(Cell::cons(car, cdr))
            },
        }
    }
}

} // verus!
