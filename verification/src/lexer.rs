//! The lexer: turns a character stream into tokens, one per call.

use vstd::prelude::*;
use crate::token::{classify, is_ws_char, ws_char, TokV, Token};
use vstd::string::StrSliceExecFns;

verus! {

// ---------------------------------------------------------------------------
// The token stream of a character sequence
// ---------------------------------------------------------------------------

/// A character that ends a bareword: whitespace or a parenthesis.
pub open spec fn is_break_char(c: char) -> bool {
    is_ws_char(c) || c == '(' || c == ')'
}

/// One of the four one-character tokens.
pub open spec fn is_punct_char(c: char) -> bool {
    c == '(' || c == ')' || c == '\'' || c == '.'
}

pub open spec fn punct_tok(c: char) -> TokV {
    if c == '(' {
        TokV::LPAREN
    } else if c == ')' {
        TokV::RPAREN
    } else if c == '\'' {
        TokV::QUOTE
    } else {
        TokV::DOT
    }
}

/// The length of the maximal run of non-break characters at the head of `s`.
pub open spec fn run_len(s: Seq<char>) -> nat
    decreases s.len(),
{
    if s.len() == 0 || is_break_char(s[0]) {
        0
    } else {
        1 + run_len(s.drop_first())
    }
}

/// Scanning a quoted text that opened just before `s`: the number of
/// characters before the closing quote, where a quote right after a backslash
/// does not close.  `prev` is the character just before `s`.  If no quote
/// closes, the whole of `s` belongs to the text.
pub open spec fn str_body_len(s: Seq<char>, prev: char) -> nat
    decreases s.len(),
{
    if s.len() == 0 {
        0
    } else if s[0] == '"' && prev != '\\' {
        0
    } else {
        1 + str_body_len(s.drop_first(), s[0])
    }
}

pub fn break_char(c: char) -> (b: bool)
    ensures
        b == is_break_char(c),
{
    ws_char(c) || c == '(' || c == ')'
}

pub proof fn lemma_run_len_le(s: Seq<char>)
    ensures
        run_len(s) <= s.len(),
    decreases s.len(),
{
    if s.len() > 0 && !is_break_char(s[0]) {
        lemma_run_len_le(s.drop_first());
    }
}

pub proof fn lemma_str_body_len_le(s: Seq<char>, prev: char)
    ensures
        str_body_len(s, prev) <= s.len(),
    decreases s.len(),
{
    if s.len() > 0 && !(s[0] == '"' && prev != '\\') {
        lemma_str_body_len_le(s.drop_first(), s[0]);
    }
}

/// `run_len` is the least break position.
pub proof fn lemma_run_len_index(s: Seq<char>, j: int)
    requires
        0 <= j <= s.len(),
        forall|i: int| 0 <= i < j ==> !is_break_char(#[trigger] s[i]),
        j == s.len() || is_break_char(s[j]),
    ensures
        run_len(s) == j,
    decreases j,
{
    if j == 0 {
    } else {
        assert(!is_break_char(s[0]));
        lemma_run_len_index(s.drop_first(), j - 1);
    }
}

/// `str_body_len` is the least closing-quote position.
pub proof fn lemma_str_body_len_index(s: Seq<char>, prev: char, j: int)
    requires
        0 <= j <= s.len(),
        forall|i: int|
            0 <= i < j ==> !(#[trigger] s[i] == '"' && (if i == 0 {
                prev
            } else {
                s[i - 1]
            }) != '\\'),
        j == s.len() || (s[j] == '"' && (if j == 0 {
            prev
        } else {
            s[j - 1]
        }) != '\\'),
    ensures
        str_body_len(s, prev) == j,
    decreases j,
{
    if j == 0 {
    } else {
        assert(!(s[0] == '"' && prev != '\\'));
        assert(forall|i: int|
            0 <= i < j - 1 ==> !(#[trigger] s.drop_first()[i] == '"' && (if i == 0 {
                s[0]
            } else {
                s.drop_first()[i - 1]
            }) != '\\')) by {
            assert(forall|i: int| 0 <= i < s.len() - 1 ==> s.drop_first()[i] == #[trigger] s[i + 1]);
        }
        lemma_str_body_len_index(s.drop_first(), s[0], j - 1);
    }
}

/// The sequence of tokens that a character stream holds, in order.
pub open spec fn tokens_of(s: Seq<char>) -> Seq<TokV>
    decreases s.len(),
{
    if s.len() == 0 {
        Seq::empty()
    } else if is_ws_char(s[0]) {
        tokens_of(s.drop_first())
    } else if is_punct_char(s[0]) {
        seq![punct_tok(s[0])] + tokens_of(s.drop_first())
    } else if s[0] == '"' {
        let n = 1 + str_body_len(s.skip(1), '"');
        proof {
            lemma_str_body_len_le(s.skip(1), '"');
        }
        if n < s.len() {
            seq![classify(s.take(n + 1int))] + tokens_of(s.skip(n + 1int))
        } else {
            seq![classify(s)]
        }
    } else {
        let n = 1 + run_len(s.skip(1));
        proof {
            lemma_run_len_le(s.skip(1));
        }
        seq![classify(s.take(n as int))] + tokens_of(s.skip(n as int))
    }
}

// ---------------------------------------------------------------------------
// The token source abstraction
// ---------------------------------------------------------------------------

/// A source of tokens.  `toks` is the stream still to come; each `token` call
/// hands out its head.
pub trait Tokenize: Sized {
    spec fn toks(&self) -> Seq<TokV>;

    fn token(&mut self) -> (r: Option<Token>)
        ensures
            match r {
                Some(t) => {
                    &&& old(self).toks().len() > 0
                    &&& t@ == old(self).toks()[0]
                    &&& final(self).toks() == old(self).toks().drop_first()
                },
                None => {
                    &&& old(self).toks().len() == 0
                    &&& final(self).toks() == old(self).toks()
                },
            },
    ;
}

// ---------------------------------------------------------------------------
// The lexer
// ---------------------------------------------------------------------------

/// Reads tokens off a fixed character buffer, advancing a cursor.
#[derive(Debug)]
pub struct Lexer {
    input: Vec<char>,
    position: usize,
}

impl Lexer {
    /// The characters not yet consumed.
    pub closed spec fn remaining(&self) -> Seq<char> {
        if self.position <= self.input@.len() {
            self.input@.skip(self.position as int)
        } else {
            Seq::empty()
        }
    }

    pub fn new(input: String) -> (l: Lexer)
        ensures
            l.toks() == tokens_of(input@),
    {
        let st = input.as_str();
        let n = st.unicode_len();
        let mut v: Vec<char> = Vec::new();
        let mut i: usize = 0;
        while i < n
            invariant
                0 <= i <= n,
                n == st@.len(),
                st@ == input@,
                v@ == input@.take(i as int),
            decreases n - i,
        {
            let c = st.get_char(i);
            v.push(c);
            proof {
                assert(v@ =~= input@.take(i + 1int));
            }
            i += 1;
        }
        proof {
            assert(input@.take(n as int) =~= input@);
        }
        let l = Lexer { input: v, position: 0 };
        proof {
            assert(l.remaining() =~= input@);
        }
        l
    }
}

impl Tokenize for Lexer {
    open spec fn toks(&self) -> Seq<TokV> {
        tokens_of(self.remaining())
    }

    #[verifier::rlimit(60)]
    fn token(&mut self) -> (r: Option<Token>) {
        let n = self.input.len();
        if self.position >= n {
            return None;
        }
        // skip whitespace
        while self.position < n && ws_char(self.input[self.position])
            invariant
                n == self.input@.len(),
                self.position <= n,
                self.input == old(self).input,
                tokens_of(self.remaining()) == old(self).toks(),
            decreases n - self.position,
        {
            proof {
                assert(self.remaining().drop_first() =~= self.input@.skip(self.position + 1int));
            }
            self.position = self.position + 1;
        }
        if self.position >= n {
            return None;
        }
        let ghost s = self.remaining();
        let start = self.position;
        let c = self.input[start];
        // the one-character tokens
        let fixed = Token::find(&c);
        match fixed {
            Some(t) => {
                proof {
                    assert(s.drop_first() =~= self.input@.skip(start + 1int));
                }
                self.position = start + 1;
                return Some(t);
            },
            None => {},
        }
        if c == '"' {
            // a quoted text: scan for the closing quote, where a quote right
            // after a backslash does not close
            let mut j: usize = start + 1;
            while j < n && !(self.input[j] == '"' && self.input[j - 1] != '\\')
                invariant
                    start + 1 <= j <= n,
                    n == self.input@.len(),
                    self.input == old(self).input,
                    self.position == start < n,
                    self.input@[start as int] == '"',
                    forall|i: int|
                        start + 1 <= i < j ==> !(#[trigger] self.input@[i] == '"'
                            && self.input@[i - 1] != '\\'),
                decreases n - j,
            {
                j += 1;
            }
            proof {
                let body = s.skip(1);
                assert(body =~= self.input@.skip(start + 1int));
                assert(forall|i: int|
                    0 <= i < j - start - 1 ==> !(#[trigger] body[i] == '"' && (if i == 0 {
                        '"'
                    } else {
                        body[i - 1]
                    }) != '\\')) by {
                    assert(forall|i: int|
                        0 <= i < body.len() ==> #[trigger] body[i] == self.input@[start + 1 + i]);
                    assert(self.input@[start as int] == '"');
                }
                if j < n {
                    assert(body[j - start - 1] == '"' && (if j - start - 1 == 0 {
                        '"'
                    } else {
                        body[j - start - 2]
                    }) != '\\');
                }
                lemma_str_body_len_index(body, '"', j - start - 1);
            }
            // collect the run, closing quote included when there is one
            let end: usize = if j < n {
                j + 1
            } else {
                n
            };
            let mut buf: Vec<char> = Vec::new();
            let mut i: usize = start;
            while i < end
                invariant
                    start <= i <= end <= n,
                    n == self.input@.len(),
                    self.input == old(self).input,
                    self.position == start,
                    buf@ == self.input@.subrange(start as int, i as int),
                decreases end - i,
            {
                buf.push(self.input[i]);
                proof {
                    assert(buf@ =~= self.input@.subrange(start as int, i + 1int));
                }
                i += 1;
            }
            self.position = end;
            let t = Token::new(buf);
            proof {
                if j < n {
                    assert(s.take(j - start + 1int) =~= self.input@.subrange(
                        start as int,
                        end as int,
                    ));
                    assert(self.remaining() =~= s.skip(j - start + 1int));
                } else {
                    assert(s =~= self.input@.subrange(start as int, end as int));
                    assert(self.remaining() =~= Seq::<char>::empty());
                }
            }
            return Some(t);
        }
        // a bareword: a maximal run of non-break characters
        let mut j: usize = start + 1;
        while j < n && !break_char(self.input[j])
            invariant
                start + 1 <= j <= n,
                n == self.input@.len(),
                self.input == old(self).input,
                self.position == start < n,
                forall|i: int| start + 1 <= i < j ==> !is_break_char(#[trigger] self.input@[i]),
            decreases n - j,
        {
            j += 1;
        }
        proof {
            let body = s.skip(1);
            assert(body =~= self.input@.skip(start + 1int));
            assert(forall|i: int|
                0 <= i < j - start - 1 ==> !is_break_char(#[trigger] body[i])) by {
                assert(forall|i: int|
                    0 <= i < body.len() ==> #[trigger] body[i] == self.input@[start + 1 + i]);
            }
            if j < n {
                assert(is_break_char(body[j - start - 1]));
            }
            lemma_run_len_index(body, j - start - 1);
        }
        let mut buf: Vec<char> = Vec::new();
        let mut i: usize = start;
        while i < j
            invariant
                start <= i <= j <= n,
                n == self.input@.len(),
                self.input == old(self).input,
                self.position == start,
                buf@ == self.input@.subrange(start as int, i as int),
            decreases j - i,
        {
            buf.push(self.input[i]);
            proof {
                assert(buf@ =~= self.input@.subrange(start as int, i + 1int));
            }
            i += 1;
        }
        self.position = j;
        let t = Token::new(buf);
        proof {
            assert(s.take(j - start) =~= self.input@.subrange(start as int, j as int));
            assert(self.remaining() =~= s.skip(j - start));
        }
        Some(t)
    }
}

} // verus!
