//! Lexical tokens of the s-expression language, and the classification of a
//! raw run of characters into a token.

use vstd::prelude::*;

verus! {

// ---------------------------------------------------------------------------
// Character classes
// ---------------------------------------------------------------------------

/// Whitespace characters recognised by the lexer: the Unicode white-space
/// set (tab through carriage return, space, next line, no-break space, the
/// ogham space mark, the typographic spaces, the line and paragraph
/// separators, and the narrow, medium and ideographic spaces).
pub open spec fn is_ws_char(c: char) -> bool {
    (9 <= (c as u32) && (c as u32) <= 13) || (c as u32) == 32 || (c as u32) == 0x85 || (
    c as u32) == 0xa0 || (c as u32) == 0x1680 || (0x2000 <= (c as u32) && (c as u32)
        <= 0x200a) || (c as u32) == 0x2028 || (c as u32) == 0x2029 || (c as u32) == 0x202f || (
    c as u32) == 0x205f || (c as u32) == 0x3000
}

/// Decimal digit.
pub open spec fn is_digit_char(c: char) -> bool {
    48 <= (c as u32) && (c as u32) <= 57
}

/// ASCII letter.
pub open spec fn is_alpha_char(c: char) -> bool {
    (65 <= (c as u32) && (c as u32) <= 90) || (97 <= (c as u32) && (c as u32) <= 122)
}

/// Punctuation allowed inside a symbol name.
pub open spec fn is_symbol_punct(c: char) -> bool {
    c == '!' || c == '?' || c == '+' || c == '-' || c == '*' || c == '/' || c == '='
        || c == '<' || c == '>'
}

/// A character that may appear in a symbol name.
pub open spec fn is_symbol_char(c: char) -> bool {
    is_alpha_char(c) || is_digit_char(c) || is_symbol_punct(c)
}

/// The numeric value of a decimal digit.
pub open spec fn digit_val(c: char) -> int {
    (c as u32) - 48
}

pub fn ws_char(c: char) -> (b: bool)
    ensures
        b == is_ws_char(c),
{
    let u = c as u32;
    (9 <= u && u <= 13) || u == 32 || u == 0x85 || u == 0xa0 || u == 0x1680 || (0x2000 <= u && u
        <= 0x200a) || u == 0x2028 || u == 0x2029 || u == 0x202f || u == 0x205f || u == 0x3000
}

pub fn digit_char(c: char) -> (b: bool)
    ensures
        b == is_digit_char(c),
{
    let u = c as u32;
    48 <= u && u <= 57
}

pub fn alpha_char(c: char) -> (b: bool)
    ensures
        b == is_alpha_char(c),
{
    let u = c as u32;
    (65 <= u && u <= 90) || (97 <= u && u <= 122)
}

pub fn symbol_punct_char(c: char) -> (b: bool)
    ensures
        b == is_symbol_punct(c),
{
    c == '!' || c == '?' || c == '+' || c == '-' || c == '*' || c == '/' || c == '='
        || c == '<' || c == '>'
}

pub fn symbol_char(c: char) -> (b: bool)
    ensures
        b == is_symbol_char(c),
{
    alpha_char(c) || digit_char(c) || symbol_punct_char(c)
}

// ---------------------------------------------------------------------------
// Integer literals
// ---------------------------------------------------------------------------

/// Every character of `s` is a decimal digit.
pub open spec fn all_digits(s: Seq<char>) -> bool {
    forall|i: int| 0 <= i < s.len() ==> is_digit_char(#[trigger] s[i])
}

/// The value of a run of decimal digits, most significant first.
pub open spec fn digits_val(s: Seq<char>) -> int
    decreases s.len(),
{
    if s.len() == 0 {
        0
    } else {
        10 * digits_val(s.drop_last()) + digit_val(s.last())
    }
}

/// The digit part of a literal: everything after an optional sign.
pub open spec fn int_body(s: Seq<char>) -> Seq<char> {
    if s.len() > 0 && (s[0] == '+' || s[0] == '-') {
        s.drop_first()
    } else {
        s
    }
}

/// Whether the literal carries a minus sign.
pub open spec fn is_neg_literal(s: Seq<char>) -> bool {
    s.len() > 0 && s[0] == '-'
}

/// `s` is a 64-bit signed decimal literal: an optional sign, then one or more
/// digits, with a value that fits in an `i64`.
pub open spec fn is_int_literal(s: Seq<char>) -> bool {
    let b = int_body(s);
    b.len() > 0 && all_digits(b) && (if is_neg_literal(s) {
        digits_val(b) <= 0x8000_0000_0000_0000
    } else {
        digits_val(b) <= 0x7fff_ffff_ffff_ffff
    })
}

/// The signed value of an integer literal.
pub open spec fn int_literal_val(s: Seq<char>) -> int {
    if is_neg_literal(s) {
        -digits_val(int_body(s))
    } else {
        digits_val(int_body(s))
    }
}

// ---------------------------------------------------------------------------
// Symbol and string texts
// ---------------------------------------------------------------------------

/// `s` is acceptable as a symbol name: nonempty, does not start with a digit,
/// and holds only letters, digits and the allowed punctuation.
pub open spec fn is_symbol_text(s: Seq<char>) -> bool {
    s.len() > 0 && !is_digit_char(s[0]) && (forall|i: int|
        0 <= i < s.len() ==> is_symbol_char(#[trigger] s[i]))
}

/// Drop every leading double quote.
pub open spec fn trim_leading_quotes(s: Seq<char>) -> Seq<char>
    decreases s.len(),
{
    if s.len() > 0 && s[0] == '"' {
        trim_leading_quotes(s.drop_first())
    } else {
        s
    }
}

/// Drop every trailing double quote.
pub open spec fn trim_trailing_quotes(s: Seq<char>) -> Seq<char>
    decreases s.len(),
{
    if s.len() > 0 && s.last() == '"' {
        trim_trailing_quotes(s.drop_last())
    } else {
        s
    }
}

/// The contents of a quoted text: the raw run with the quotes at both ends
/// stripped.
pub open spec fn trim_quotes(s: Seq<char>) -> Seq<char> {
    trim_trailing_quotes(trim_leading_quotes(s))
}

// ---------------------------------------------------------------------------
// Tokens
// ---------------------------------------------------------------------------

/// The mathematical model of a token.
pub enum TokV {
    LPAREN,
    RPAREN,
    QUOTE,
    DOT,
    NUMBER { val: int },
    SYMBOL { name: Seq<char> },
    STRING { name: Seq<char> },
    OTHER { name: Seq<char> },
}

/// A lexical token.
#[derive(Debug, Clone, PartialEq)]
pub enum Token {
    /// `(`
    LPAREN,
    /// `)`
    RPAREN,
    /// `'`
    QUOTE,
    /// `.`
    DOT,
    /// A 64-bit integer literal.
    NUMBER { val: i64 },
    /// A bareword.
    SYMBOL { buf: String },
    /// A quoted text.
    STRING { buf: String },
    /// An unclassifiable run; callers reject it as a lexical error.
    OTHER { buf: String },
}

impl View for Token {
    type V = TokV;

    open spec fn view(&self) -> TokV {
        match self {
            Token::LPAREN => TokV::LPAREN,
            Token::RPAREN => TokV::RPAREN,
            Token::QUOTE => TokV::QUOTE,
            Token::DOT => TokV::DOT,
            Token::NUMBER { val } => TokV::NUMBER { val: *val as int },
            Token::SYMBOL { buf } => TokV::SYMBOL { name: buf@ },
            Token::STRING { buf } => TokV::STRING { name: buf@ },
            Token::OTHER { buf } => TokV::OTHER { name: buf@ },
        }
    }
}

/// How a raw run of characters is read: an integer literal wins, then a
/// symbol; a run quoted at both ends is a string; anything else is
/// unclassifiable.
pub open spec fn classify(s: Seq<char>) -> TokV {
    if is_int_literal(s) {
        TokV::NUMBER { val: int_literal_val(s) }
    } else if is_symbol_text(s) {
        TokV::SYMBOL { name: s }
    } else if s.len() > 0 && s[0] == '"' && s.last() == '"' {
        TokV::STRING { name: trim_quotes(s) }
    } else {
        TokV::OTHER { name: s }
    }
}

// ---------------------------------------------------------------------------
// Helper lemmas
// ---------------------------------------------------------------------------

pub proof fn lemma_digits_val_nonneg(s: Seq<char>)
    requires
        all_digits(s),
    ensures
        digits_val(s) >= 0,
    decreases s.len(),
{
    if s.len() > 0 {
        assert(all_digits(s.drop_last())) by {
            assert(forall|i: int|
                0 <= i < s.len() - 1 ==> s.drop_last()[i] == #[trigger] s[i]);
        }
        lemma_digits_val_nonneg(s.drop_last());
    }
}

pub proof fn lemma_trim_leading_quotes(s: Seq<char>, k: int)
    requires
        0 <= k <= s.len(),
        forall|i: int| 0 <= i < k ==> #[trigger] s[i] == '"',
        k == s.len() || s[k] != '"',
    ensures
        trim_leading_quotes(s) == s.skip(k),
    decreases k,
{
    if k == 0 {
        assert(s.skip(0) =~= s);
    } else {
        lemma_trim_leading_quotes(s.drop_first(), k - 1);
        assert(s.drop_first().skip(k - 1) =~= s.skip(k));
    }
}

pub proof fn lemma_trim_trailing_quotes(s: Seq<char>, k: int)
    requires
        0 <= k <= s.len(),
        forall|i: int| k <= i < s.len() ==> #[trigger] s[i] == '"',
        k == 0 || s[k - 1] != '"',
    ensures
        trim_trailing_quotes(s) == s.take(k),
    decreases s.len() - k,
{
    if k == s.len() {
        assert(s.take(k) =~= s);
    } else {
        assert(s.drop_last() =~= s.take(s.len() - 1));
        lemma_trim_trailing_quotes(s.take(s.len() - 1), k);
    }
}

// ---------------------------------------------------------------------------
// Executable classification
// ---------------------------------------------------------------------------

/// Relies on `String::from_iter`: the returned string holds exactly the given
/// characters, in order.
#[verifier::external_body]
pub(crate) fn string_from_chars(v: Vec<char>) -> (r: String)
    ensures
        r@ == v@,
{
    String::from_iter(v)
}

/// Whether `c` is one of the punctuation characters allowed in symbols.
pub fn is_symch(c: &char) -> (b: bool)
    ensures
        b == is_symbol_punct(*c),
{
    symbol_punct_char(*c)
}

/// Whether the run may stand as a symbol name.
pub fn is_symboltoken(s: &Vec<char>) -> (b: bool)
    ensures
        b == is_symbol_text(s@),
{
    let n = s.len();
    if n == 0 {
        return false;
    }
    if digit_char(s[0]) {
        return false;
    }
    let mut i: usize = 0;
    while i < n
        invariant
            0 <= i <= n,
            n == s@.len(),
            forall|j: int| 0 <= j < i ==> is_symbol_char(#[trigger] s@[j]),
        decreases n - i,
    {
        if !symbol_char(s[i]) {
            return false;
        }
        i += 1;
    }
    true
}

/// Reads a signed 64-bit decimal literal, or reports that the run is none.
pub fn parse_int_chars(s: &Vec<char>) -> (r: Option<i64>)
    ensures
        match r {
            Some(v) => is_int_literal(s@) && v as int == int_literal_val(s@),
            None => !is_int_literal(s@),
        },
{
    let n = s.len();
    if n == 0 {
        return None;
    }
    let first = s[0];
    let neg = first == '-';
    let start: usize = if first == '-' || first == '+' {
        1
    } else {
        0
    };
    let ghost body = int_body(s@);
    proof {
        assert(body =~= s@.skip(start as int));
    }
    if start >= n {
        return None;
    }
    let limit: u128 = if neg {
        0x8000_0000_0000_0000
    } else {
        0x7fff_ffff_ffff_ffff
    };
    let mut mag: u128 = 0;
    let mut over: bool = false;
    let mut i: usize = start;
    while i < n
        invariant
            start <= i <= n,
            n == s@.len(),
            start == if s@[0] == '-' || s@[0] == '+' { 1int } else { 0int },
            body == s@.skip(start as int),
            neg == (s@[0] == '-'),
            limit == if neg { 0x8000_0000_0000_0000u128 } else { 0x7fff_ffff_ffff_ffffu128 },
            all_digits(s@.subrange(start as int, i as int)),
            !over ==> mag as int == digits_val(s@.subrange(start as int, i as int)) && mag
                <= limit,
            over ==> digits_val(s@.subrange(start as int, i as int)) > limit,
        decreases n - i,
    {
        let c = s[i];
        if !digit_char(c) {
            proof {
                assert(body[i - start] == s@[i as int]);
                assert(!all_digits(body));
            }
            return None;
        }
        let ghost pre = s@.subrange(start as int, i as int);
        let ghost post = s@.subrange(start as int, i + 1int);
        proof {
            assert(post.drop_last() =~= pre);
            assert(post.last() == s@[i as int]);
            lemma_digits_val_nonneg(pre);
            assert(all_digits(post));
        }
        if over {
            proof {
                lemma_digits_val_nonneg(post);
            }
        } else {
            let d = (c as u32) - 48;
            mag = mag * 10 + (d as u128);
            if mag > limit {
                over = true;
            }
        }
        i += 1;
    }
    proof {
        assert(s@.subrange(start as int, n as int) =~= body);
    }
    if over {
        return None;
    }
    if neg {
        if mag == 0x8000_0000_0000_0000 {
            Some(i64::MIN)
        } else {
            Some(-(mag as i64))
        }
    } else {
        Some(mag as i64)
    }
}

impl Token {
    /// Classifies a raw run of characters into a token.
    pub fn new(s: Vec<char>) -> (t: Token)
        ensures
            t@ == classify(s@),
    {
        match parse_int_chars(&s) {
            Some(v) => Token::NUMBER { val: v },
            None => {
                if is_symboltoken(&s) {
                    Token::SYMBOL { buf: string_from_chars(s) }
                } else {
                    let n = s.len();
                    if n > 0 && s[0] == '"' && s[n - 1] == '"' {
                        let mut lo: usize = 0;
                        while lo < n && s[lo] == '"'
                            invariant
                                0 <= lo <= n,
                                n == s@.len(),
                                forall|i: int| 0 <= i < lo ==> #[trigger] s@[i] == '"',
                            decreases n - lo,
                        {
                            lo += 1;
                        }
                        let mut hi: usize = n;
                        while hi > lo && s[hi - 1] == '"'
                            invariant
                                lo <= hi <= n,
                                n == s@.len(),
                                forall|i: int| 0 <= i < lo ==> #[trigger] s@[i] == '"',
                                forall|i: int| hi <= i < n ==> #[trigger] s@[i] == '"',
                            decreases hi,
                        {
                            hi -= 1;
                        }
                        proof {
                            lemma_trim_leading_quotes(s@, lo as int);
                            assert(forall|i: int|
                                hi - lo <= i < s@.skip(lo as int).len() ==> #[trigger] s@.skip(
                                    lo as int,
                                )[i] == '"');
                            lemma_trim_trailing_quotes(s@.skip(lo as int), hi - lo);
                        }
                        let mut v: Vec<char> = Vec::new();
                        let mut i: usize = lo;
                        while i < hi
                            invariant
                                lo <= i <= hi <= n,
                                n == s@.len(),
                                v@ == s@.subrange(lo as int, i as int),
                            decreases hi - i,
                        {
                            v.push(s[i]);
                            proof {
                                assert(v@ =~= s@.subrange(lo as int, i + 1int));
                            }
                            i += 1;
                        }
                        proof {
                            assert(s@.skip(lo as int).take(hi - lo) =~= s@.subrange(
                                lo as int,
                                hi as int,
                            ));
                        }
                        Token::STRING { buf: string_from_chars(v) }
                    } else {
                        Token::OTHER { buf: string_from_chars(s) }
                    }
                }
            },
        }
    }

    /// The punctuation characters allowed inside a symbol name.
    pub fn symbol_chars() -> (v: Vec<char>)
        ensures
            v@ == seq!['!', '?', '+', '-', '*', '/', '=', '<', '>'],
    {
        let mut v: Vec<char> = Vec::new();
        v.push('!');
        v.push('?');
        v.push('+');
        v.push('-');
        v.push('*');
        v.push('/');
        v.push('=');
        v.push('<');
        v.push('>');
        proof {
            assert(v@ =~= seq!['!', '?', '+', '-', '*', '/', '=', '<', '>']);
        }
        v
    }

    /// The characters that end a bareword besides whitespace.
    pub fn separate_chars() -> (v: Vec<char>)
        ensures
            v@ == seq!['(', ')'],
    {
        let mut v: Vec<char> = Vec::new();
        v.push('(');
        v.push(')');
        proof {
            assert(v@ =~= seq!['(', ')']);
        }
        v
    }

    /// The fixed one-character tokens.
    pub fn find(c: &char) -> (r: Option<Token>)
        ensures
            *c == '(' ==> r == Some(Token::LPAREN),
            *c == ')' ==> r == Some(Token::RPAREN),
            *c == '\'' ==> r == Some(Token::QUOTE),
            *c == '.' ==> r == Some(Token::DOT),
            !(*c == '(' || *c == ')' || *c == '\'' || *c == '.') ==> r is None,
    {
        match c {
            '(' => Some(Token::LPAREN),
            ')' => Some(Token::RPAREN),
            '\'' => Some(Token::QUOTE),
            '.' => Some(Token::DOT),
            _ => None,
        }
    }
}

} // verus!
