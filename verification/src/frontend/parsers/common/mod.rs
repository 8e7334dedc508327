//! Terminals of the grammar: whitespace, fixed pieces of text, identifiers,
//! and the parse-error type that every parser of this crate returns.
//!
//! Every parser is given twice: as a spec function over the input characters
//! and a position, which is the grammar itself, and as an executable function
//! that is proved to compute exactly what the spec function says.
use vstd::prelude::*;

use crate::frontend::parsers::expr::{exprs_view, Expr, SpecExpr};
use crate::frontend::parsers::types::BasicType;
use crate::text::{str_to_chars, string_from_chars};

pub mod string;

verus! {

/// Keywords of the language.
#[derive(Clone, Copy, Debug, PartialEq, Eq)]
pub enum Keyword {
    Cond,
    CondElse,
    Loop,
    Decl,
    Type(BasicType),
    Func,
}

impl Keyword {
    pub open spec fn spec_text(self) -> Seq<char> {
        match self {
            Keyword::Cond => seq!['i', 'f'],
            Keyword::CondElse => seq!['e', 'l', 's', 'e'],
            Keyword::Loop => seq!['w', 'h', 'i', 'l', 'e'],
            Keyword::Decl => seq!['l', 'e', 't'],
            Keyword::Type(t) => t.spec_name(),
            Keyword::Func => seq!['f', 'u', 'n'],
        }
    }

    /// The text of the keyword.
    pub fn as_str(self) -> (r: &'static str)
        ensures
            r@ == self.spec_text(),
    {
        match self {
            Keyword::Cond => {
                proof {
                    reveal_strlit("if");
                }
                "if"
            },
            Keyword::CondElse => {
                proof {
                    reveal_strlit("else");
                }
                "else"
            },
            Keyword::Loop => {
                proof {
                    reveal_strlit("while");
                }
                "while"
            },
            Keyword::Decl => {
                proof {
                    reveal_strlit("let");
                }
                "let"
            },
            Keyword::Type(t) => t.as_str(),
            Keyword::Func => {
                proof {
                    reveal_strlit("fun");
                }
                "fun"
            },
        }
    }
}

/// The fixed pieces of text that the grammar matches literally.
#[derive(Clone, Copy, Debug, PartialEq, Eq)]
pub enum Token {
    Keyword(Keyword),
    Void,
    True,
    False,
    Arrow,
    Underscore,
    Colon,
    Comma,
    LParen,
    RParen,
    LBracket,
    RBracket,
    Plus,
    Minus,
    Star,
    Slash,
    Bang,
}

impl Token {
    pub open spec fn spec_text(self) -> Seq<char> {
        match self {
            Token::Keyword(k) => k.spec_text(),
            Token::Void => seq!['v', 'o', 'i', 'd'],
            Token::True => seq!['t', 'r', 'u', 'e'],
            Token::False => seq!['f', 'a', 'l', 's', 'e'],
            Token::Arrow => seq!['-', '>'],
            Token::Underscore => seq!['_'],
            Token::Colon => seq![':'],
            Token::Comma => seq![','],
            Token::LParen => seq!['('],
            Token::RParen => seq![')'],
            Token::LBracket => seq!['['],
            Token::RBracket => seq![']'],
            Token::Plus => seq!['+'],
            Token::Minus => seq!['-'],
            Token::Star => seq!['*'],
            Token::Slash => seq!['/'],
            Token::Bang => seq!['!'],
        }
    }

    /// The text of the token.
    pub fn as_str(self) -> (r: &'static str)
        ensures
            r@ == self.spec_text(),
    {
        match self {
            Token::Keyword(k) => k.as_str(),
            Token::Void => {
                proof {
                    reveal_strlit("void");
                }
                "void"
            },
            Token::True => {
                proof {
                    reveal_strlit("true");
                }
                "true"
            },
            Token::False => {
                proof {
                    reveal_strlit("false");
                }
                "false"
            },
            Token::Arrow => {
                proof {
                    reveal_strlit("->");
                }
                "->"
            },
            Token::Underscore => {
                proof {
                    reveal_strlit("_");
                }
                "_"
            },
            Token::Colon => {
                proof {
                    reveal_strlit(":");
                }
                ":"
            },
            Token::Comma => {
                proof {
                    reveal_strlit(",");
                }
                ","
            },
            Token::LParen => {
                proof {
                    reveal_strlit("(");
                }
                "("
            },
            Token::RParen => {
                proof {
                    reveal_strlit(")");
                }
                ")"
            },
            Token::LBracket => {
                proof {
                    reveal_strlit("[");
                }
                "["
            },
            Token::RBracket => {
                proof {
                    reveal_strlit("]");
                }
                "]"
            },
            Token::Plus => {
                proof {
                    reveal_strlit("+");
                }
                "+"
            },
            Token::Minus => {
                proof {
                    reveal_strlit("-");
                }
                "-"
            },
            Token::Star => {
                proof {
                    reveal_strlit("*");
                }
                "*"
            },
            Token::Slash => {
                proof {
                    reveal_strlit("/");
                }
                "/"
            },
            Token::Bang => {
                proof {
                    reveal_strlit("!");
                }
                "!"
            },
        }
    }
}

/// Messages that name what a part of the grammar was looking for.
#[derive(Clone, Copy, Debug, PartialEq, Eq)]
pub enum ContextMsg {
    Type,
    BasicType,
    ParameterType,
}

/// What a parser expected to find where it failed.
#[derive(Clone, Copy, Debug, PartialEq, Eq)]
pub enum Expectation {
    Char(char),
    Tag(Token),
    Digit,
    Something,
    Context(ContextMsg),
}

/// A parse failure: the position (in characters) where it happened, what was
/// expected there, and whether it is fatal (a fatal failure is not
/// backtracked over by alternatives and repetitions).
#[derive(Clone, Copy, Debug, PartialEq, Eq)]
pub struct ParseError {
    pub pos: usize,
    pub expected: Expectation,
    pub fatal: bool,
}

/// A spec parse result: the number of characters consumed and the value.
pub type SRes<T> = Result<(nat, T), ParseError>;

/// An executable parse result: the position after the parsed text and the value.
pub type PResult<T> = Result<(usize, T), ParseError>;

/// `r`, the executable result of a parser started at `p`, is the spec
/// result `sr`, values compared by their views.
pub open spec fn res_view<T: View>(r: PResult<T>, p: int, sr: SRes<T::V>) -> bool {
    match (r, sr) {
        (Ok((q, v)), Ok((n, w))) => q == p + n && v@ == w,
        (Err(e), Err(g)) => e == g,
        _ => false,
    }
}

/// `r`, the executable result of a parser started at `p`, is the spec
/// result `sr`, values compared directly.
pub open spec fn res_eq<V>(r: PResult<V>, p: int, sr: SRes<V>) -> bool {
    match (r, sr) {
        (Ok((q, v)), Ok((n, w))) => q == p + n && v == w,
        (Err(e), Err(g)) => e == g,
        _ => false,
    }
}

/// `r`, the executable result of a list parser started at `p`, is the spec
/// result `sr`.
pub open spec fn res_list(r: PResult<Vec<Expr>>, p: int, sr: SRes<Seq<SpecExpr>>) -> bool {
    match (r, sr) {
        (Ok((q, v)), Ok((n, w))) => q == p + n && exprs_view(v@) == w,
        (Err(e), Err(g)) => e == g,
        _ => false,
    }
}

/// An executable result started at `p` ends between `p` and the end of the input.
pub open spec fn res_bounded<T>(r: PResult<T>, p: int, len: int) -> bool {
    match r {
        Ok((q, _)) => p <= q <= len,
        Err(e) => e.pos <= len,
    }
}

/// A non-fatal failure at `p`.
pub open spec fn fail(p: int, e: Expectation) -> ParseError {
    ParseError { pos: p as usize, expected: e, fatal: false }
}

/// The characters left from `p` on; every recursion of the grammar decreases
/// this or stays at the same position in a lower-ranked rule.
pub open spec fn rem(s: Seq<char>, p: int) -> int {
    if p < s.len() {
        s.len() - p
    } else {
        0
    }
}

pub open spec fn is_ws(c: char) -> bool {
    c == ' ' || c == '\t' || c == '\r' || c == '\n'
}

/// The length of the run of whitespace at `p`.
pub open spec fn ws_len(s: Seq<char>, p: int) -> nat
    decreases rem(s, p),
{
    if 0 <= p < s.len() && is_ws(s[p]) {
        1 + ws_len(s, p + 1)
    } else {
        0
    }
}

pub open spec fn char_at(s: Seq<char>, p: int, c: char) -> bool {
    0 <= p < s.len() && s[p] == c
}

/// `char(c)`: the single character `c`.
pub open spec fn spec_char(s: Seq<char>, p: int, c: char) -> SRes<()> {
    if char_at(s, p, c) {
        Ok((1, ()))
    } else {
        Err(fail(p, Expectation::Char(c)))
    }
}

/// The text of `t` stands at `p` (when there is room for it).
#[verifier::opaque]
pub open spec fn tag_matches(s: Seq<char>, p: int, t: Token) -> bool {
    s.subrange(p, p + t.spec_text().len()) == t.spec_text()
}

pub open spec fn tag_at(s: Seq<char>, p: int, t: Token) -> bool {
    0 <= p && p + t.spec_text().len() <= s.len() && tag_matches(s, p, t)
}

/// `tag(t)`: the text of `t`.
pub open spec fn spec_tag(s: Seq<char>, p: int, t: Token) -> SRes<()> {
    if tag_at(s, p, t) {
        Ok((t.spec_text().len(), ()))
    } else {
        Err(fail(p, Expectation::Tag(t)))
    }
}

/// `ws(char(c))`: `c` with any whitespace before and after it.
pub open spec fn spec_sym(s: Seq<char>, p: int, c: char) -> SRes<()> {
    let w = ws_len(s, p);
    match spec_char(s, p + w, c) {
        Ok(_) => Ok((w + 1 + ws_len(s, p + w + 1), ())),
        Err(e) => Err(e),
    }
}

/// `ws(tag(t))`: the text of `t` with any whitespace before and after it.
pub open spec fn spec_ws_tag(s: Seq<char>, p: int, t: Token) -> SRes<()> {
    let w = ws_len(s, p);
    match spec_tag(s, p + w, t) {
        Ok((n, _)) => Ok((w + n + ws_len(s, p + w + n), ())),
        Err(e) => Err(e),
    }
}

pub open spec fn is_alpha(c: char) -> bool {
    ('a' <= c && c <= 'z') || ('A' <= c && c <= 'Z')
}

pub open spec fn is_digit(c: char) -> bool {
    '0' <= c && c <= '9'
}

pub open spec fn is_ident_start(c: char) -> bool {
    is_alpha(c) || c == '_'
}

pub open spec fn is_ident_char(c: char) -> bool {
    is_alpha(c) || is_digit(c) || c == '_'
}

/// The length of the run of identifier characters at `p`.
pub open spec fn ident_tail(s: Seq<char>, p: int) -> nat
    decreases rem(s, p),
{
    if 0 <= p < s.len() && is_ident_char(s[p]) {
        1 + ident_tail(s, p + 1)
    } else {
        0
    }
}

/// An identifier: a letter or `_`, then letters, digits and `_`, as many as
/// there are. Keywords are not excluded.
pub open spec fn spec_ident(s: Seq<char>, p: int) -> SRes<Seq<char>> {
    if 0 <= p < s.len() && is_ident_start(s[p]) {
        let n = 1 + ident_tail(s, p + 1);
        Ok((n, s.subrange(p, p + n)))
    } else {
        Err(fail(p, Expectation::Tag(Token::Underscore)))
    }
}

/// Skips the whitespace at `p`; returns the position after it.
pub fn ws(s: &Vec<char>, p: usize) -> (q: usize)
    requires
        p <= s.len(),
    ensures
        q == p + ws_len(s@, p as int),
        q <= s.len(),
{
    let mut q = p;
    while q < s.len() && (s[q] == ' ' || s[q] == '\t' || s[q] == '\r' || s[q] == '\n')
        invariant
            p <= q <= s.len(),
            ws_len(s@, p as int) == (q - p) + ws_len(s@, q as int),
        decreases s.len() - q,
    {
        q = q + 1;
    }
    q
}

/// `char(c)` at `p`.
pub fn char_p(s: &Vec<char>, p: usize, c: char) -> (r: PResult<()>)
    requires
        p <= s.len(),
    ensures
        res_eq(r, p as int, spec_char(s@, p as int, c)),
        r matches Ok((q, _)) ==> q == p + 1,
        res_bounded(r, p as int, s.len() as int),
{
    if p < s.len() && s[p] == c {
        Ok((p + 1, ()))
    } else {
        Err(ParseError { pos: p, expected: Expectation::Char(c), fatal: false })
    }
}

/// `tag(t)` at `p`.
pub fn tag_p(s: &Vec<char>, p: usize, t: Token) -> (r: PResult<()>)
    requires
        p <= s.len(),
    ensures
        res_eq(r, p as int, spec_tag(s@, p as int, t)),
        r matches Ok((q, _)) ==> q > p,
        res_bounded(r, p as int, s.len() as int),
{
    proof {
        reveal(tag_matches);
    }
    let txt = str_to_chars(t.as_str());
    if txt.len() > s.len() - p {
        return Err(ParseError { pos: p, expected: Expectation::Tag(t), fatal: false });
    }
    let mut i: usize = 0;
    while i < txt.len()
        invariant
            i <= txt.len(),
            p + txt.len() <= s.len(),
            txt@ == t.spec_text(),
            s@.subrange(p as int, p + i) == txt@.take(i as int),
        decreases txt.len() - i,
    {
        if s[p + i] != txt[i] {
            proof {
                reveal(tag_matches);
            }
            assert(s@.subrange(p as int, p + txt.len())[i as int] != txt@[i as int]);
            return Err(ParseError { pos: p, expected: Expectation::Tag(t), fatal: false });
        }
        i = i + 1;
        assert(s@.subrange(p as int, p + i) == txt@.take(i as int));
    }
    assert(txt@.take(i as int) == txt@);
    proof {
        reveal(tag_matches);
    }
    Ok((p + txt.len(), ()))
}

/// `ws(char(c))` at `p`.
pub fn sym_p(s: &Vec<char>, p: usize, c: char) -> (r: PResult<()>)
    requires
        p <= s.len(),
    ensures
        res_eq(r, p as int, spec_sym(s@, p as int, c)),
        r matches Ok((q, _)) ==> q > p,
        res_bounded(r, p as int, s.len() as int),
{
    let a = ws(s, p);
    match char_p(s, a, c) {
        Ok((b, _)) => Ok((ws(s, b), ())),
        Err(e) => Err(e),
    }
}

/// `ws(tag(t))` at `p`.
pub fn ws_tag_p(s: &Vec<char>, p: usize, t: Token) -> (r: PResult<()>)
    requires
        p <= s.len(),
    ensures
        res_eq(r, p as int, spec_ws_tag(s@, p as int, t)),
        r matches Ok((q, _)) ==> q > p,
        res_bounded(r, p as int, s.len() as int),
{
    let a = ws(s, p);
    match tag_p(s, a, t) {
        Ok((b, _)) => Ok((ws(s, b), ())),
        Err(e) => Err(e),
    }
}

pub fn char_is_ident_start(c: char) -> (b: bool)
    ensures
        b == is_ident_start(c),
{
    ('a' <= c && c <= 'z') || ('A' <= c && c <= 'Z') || c == '_'
}

pub fn char_is_ident_char(c: char) -> (b: bool)
    ensures
        b == is_ident_char(c),
{
    ('a' <= c && c <= 'z') || ('A' <= c && c <= 'Z') || ('0' <= c && c <= '9') || c == '_'
}

/// An identifier at `p`.
pub fn ident_p(s: &Vec<char>, p: usize) -> (r: PResult<String>)
    requires
        p <= s.len(),
    ensures
        res_view(r, p as int, spec_ident(s@, p as int)),
        res_bounded(r, p as int, s.len() as int),
        r matches Ok((q, _)) ==> q > p,
{
    if p < s.len() && char_is_ident_start(s[p]) {
        let mut v: Vec<char> = Vec::new();
        v.push(s[p]);
        let mut q = p + 1;
        while q < s.len() && char_is_ident_char(s[q])
            invariant
                p < q <= s.len(),
                v@ == s@.subrange(p as int, q as int),
                1 + ident_tail(s@, p + 1) == (q - p) + ident_tail(s@, q as int),
            decreases s.len() - q,
        {
            v.push(s[q]);
            q = q + 1;
            assert(v@ == s@.subrange(p as int, q as int));
        }
        Ok((q, string_from_chars(v.as_slice())))
    } else {
        Err(ParseError { pos: p, expected: Expectation::Tag(Token::Underscore), fatal: false })
    }
}

/// An identifier at the start of `input`.
pub fn parse_ident(input: &str) -> (r: PResult<String>)
    ensures
        res_view(r, 0, spec_ident(input@, 0)),
{
    let s = str_to_chars(input);
    ident_p(&s, 0)
}

} // verus!
