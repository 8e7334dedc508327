//! Types of the language and the parser for type annotations.
use vstd::prelude::*;

use crate::frontend::parsers::common::{
    fail, rem, res_bounded, res_eq, tag_at, tag_matches, tag_p, ContextMsg,
    Expectation, Keyword, PResult, ParseError, SRes, Token,
};
use crate::text::{extend_chars, str_to_chars, string_from_chars};

verus! {

/// The basic (non-array) types of the language.
#[derive(Copy, Clone, Debug, PartialEq, Eq, Hash)]
pub enum BasicType {
    Int,
    Bool,
    Char,
    String,
}

impl BasicType {
    /// The keyword that names the type in source text.
    pub open spec fn spec_name(self) -> Seq<char> {
        match self {
            BasicType::Int => seq!['i', 'n', 't'],
            BasicType::Bool => seq!['b', 'o', 'o', 'l'],
            BasicType::Char => seq!['c', 'h', 'a', 'r'],
            BasicType::String => seq!['s', 't', 'r', 'i', 'n', 'g'],
        }
    }

    pub fn as_str(self) -> (r: &'static str)
        ensures
            r@ == self.spec_name(),
    {
        match self {
            BasicType::Int => {
                proof {
                    reveal_strlit("int");
                }
                "int"
            },
            BasicType::Bool => {
                proof {
                    reveal_strlit("bool");
                }
                "bool"
            },
            BasicType::Char => {
                proof {
                    reveal_strlit("char");
                }
                "char"
            },
            BasicType::String => {
                proof {
                    reveal_strlit("string");
                }
                "string"
            },
        }
    }
}

/// A type: `void`, a basic type, or an array of a type.
#[derive(Debug, PartialEq, Eq, Hash)]
pub enum Type {
    Void,
    BasicType(BasicType),
    Array(Box<Type>),
}

/// How a type is written in source text.
pub open spec fn type_text(t: Type) -> Seq<char>
    decreases t,
{
    match t {
        Type::Void => seq!['v', 'o', 'i', 'd'],
        Type::BasicType(b) => b.spec_name(),
        Type::Array(inner) => seq!['['] + type_text(*inner) + seq![']'],
    }
}

impl Type {
    /// How the type is written in source text, e.g. `[int]`.
    pub fn to_string(&self) -> (r: String)
        ensures
            r@ == type_text(*self),
    {
        let mut v: Vec<char> = Vec::new();
        self.write_text(&mut v);
        string_from_chars(v.as_slice())
    }

    fn write_text(&self, v: &mut Vec<char>)
        ensures
            final(v)@ == old(v)@ + type_text(*self),
        decreases self,
    {
        match self {
            Type::Void => {
                proof {
                    reveal_strlit("void");
                }
                extend_chars(v, "void");
            },
            Type::BasicType(b) => {
                extend_chars(v, b.as_str());
            },
            Type::Array(inner) => {
                let ghost v0 = v@;
                v.push('[');
                inner.write_text(v);
                v.push(']');
                assert(v@ == v0 + type_text(*self));
            },
        }
    }

    /// An exact copy of the type.
    pub fn copy(&self) -> (r: Type)
        ensures
            r == *self,
        decreases self,
    {
        match self {
            Type::Void => Type::Void,
            Type::BasicType(b) => Type::BasicType(*b),
            Type::Array(inner) => Type::Array(Box::new(inner.copy())),
        }
    }

    /// Structural equality of types.
    pub fn equals(&self, other: &Type) -> (r: bool)
        ensures
            r == (*self == *other),
        decreases self,
    {
        match (self, other) {
            (Type::Void, Type::Void) => true,
            (Type::BasicType(a), Type::BasicType(b)) => basic_equals(*a, *b),
            (Type::Array(a), Type::Array(b)) => a.equals(b),
            _ => false,
        }
    }
}

/// Equality of basic types.
pub fn basic_equals(a: BasicType, b: BasicType) -> (r: bool)
    ensures
        r == (a == b),
{
    match (a, b) {
        (BasicType::Int, BasicType::Int) => true,
        (BasicType::Bool, BasicType::Bool) => true,
        (BasicType::Char, BasicType::Char) => true,
        (BasicType::String, BasicType::String) => true,
        _ => false,
    }
}

pub open spec fn basic_token(b: BasicType) -> Token {
    Token::Keyword(Keyword::Type(b))
}

/// A basic type: the first of `int`, `bool`, `char`, `string` that the
/// input starts with at `p`.
pub open spec fn spec_basic_type(s: Seq<char>, p: int) -> SRes<BasicType> {
    if tag_at(s, p, basic_token(BasicType::Int)) {
        Ok((3, BasicType::Int))
    } else if tag_at(s, p, basic_token(BasicType::Bool)) {
        Ok((4, BasicType::Bool))
    } else if tag_at(s, p, basic_token(BasicType::Char)) {
        Ok((4, BasicType::Char))
    } else if tag_at(s, p, basic_token(BasicType::String)) {
        Ok((6, BasicType::String))
    } else {
        Err(fail(p, Expectation::Context(ContextMsg::BasicType)))
    }
}

/// A type: `void`, a basic type, or `[` type `]`.
pub open spec fn spec_type(s: Seq<char>, p: int) -> SRes<Type>
    decreases rem(s, p), 1int,
{
    if tag_at(s, p, Token::Void) {
        Ok((4, Type::Void))
    } else {
        match spec_basic_type(s, p) {
            Ok((n, b)) => Ok((n, Type::BasicType(b))),
            Err(_) => match spec_array_type(s, p) {
                Ok(r) => Ok(r),
                Err(_) => Err(fail(p, Expectation::Context(ContextMsg::Type))),
            },
        }
    }
}

/// An array type: `[` type `]`.
pub open spec fn spec_array_type(s: Seq<char>, p: int) -> SRes<Type>
    decreases rem(s, p), 0int,
{
    if tag_at(s, p, Token::LBracket) {
        match spec_type(s, p + 1) {
            Ok((n, t)) => if tag_at(s, p + 1 + n, Token::RBracket) {
                Ok((n + 2, Type::Array(Box::new(t))))
            } else {
                Err(fail(p + 1 + n, Expectation::Tag(Token::RBracket)))
            },
            Err(e) => Err(e),
        }
    } else {
        Err(fail(p, Expectation::Tag(Token::LBracket)))
    }
}

fn basic_type_p(s: &Vec<char>, p: usize) -> (r: PResult<BasicType>)
    requires
        p <= s.len(),
    ensures
        res_eq(r, p as int, spec_basic_type(s@, p as int)),
        res_bounded(r, p as int, s.len() as int),
{
    if let Ok((q, _)) = tag_p(s, p, Token::Keyword(Keyword::Type(BasicType::Int))) {
        return Ok((q, BasicType::Int));
    }
    if let Ok((q, _)) = tag_p(s, p, Token::Keyword(Keyword::Type(BasicType::Bool))) {
        return Ok((q, BasicType::Bool));
    }
    if let Ok((q, _)) = tag_p(s, p, Token::Keyword(Keyword::Type(BasicType::Char))) {
        return Ok((q, BasicType::Char));
    }
    if let Ok((q, _)) = tag_p(s, p, Token::Keyword(Keyword::Type(BasicType::String))) {
        return Ok((q, BasicType::String));
    }
    Err(ParseError { pos: p, expected: Expectation::Context(ContextMsg::BasicType), fatal: false })
}

/// A type at `p`.
pub fn type_p(s: &Vec<char>, p: usize) -> (r: PResult<Type>)
    requires
        p <= s.len(),
    ensures
        res_eq(r, p as int, spec_type(s@, p as int)),
        res_bounded(r, p as int, s.len() as int),
    decreases s.len() - p, 1int,
{
    if let Ok((q, _)) = tag_p(s, p, Token::Void) {
        return Ok((q, Type::Void));
    }
    if let Ok((q, b)) = basic_type_p(s, p) {
        return Ok((q, Type::BasicType(b)));
    }
    match array_type_p(s, p) {
        Ok(r) => Ok(r),
        Err(_) => Err(
            ParseError { pos: p, expected: Expectation::Context(ContextMsg::Type), fatal: false },
        ),
    }
}

fn array_type_p(s: &Vec<char>, p: usize) -> (r: PResult<Type>)
    requires
        p <= s.len(),
    ensures
        res_eq(r, p as int, spec_array_type(s@, p as int)),
        res_bounded(r, p as int, s.len() as int),
    decreases s.len() - p, 0int,
{
    match tag_p(s, p, Token::LBracket) {
        Err(e) => Err(e),
        Ok((a, _)) => match type_p(s, a) {
            Err(e) => Err(e),
            Ok((b, t)) => match tag_p(s, b, Token::RBracket) {
                Err(e) => Err(e),
                Ok((c, _)) => Ok((c, Type::Array(Box::new(t)))),
            },
        },
    }
}

/// A type at the start of `input`.
pub fn parse_type(input: &str) -> (r: PResult<Type>)
    ensures
        res_eq(r, 0, spec_type(input@, 0)),
{
    let s = str_to_chars(input);
    type_p(&s, 0)
}

proof fn lemma_tag_differs(s: Seq<char>, p: int, t: Token)
    requires
        0 <= p < s.len(),
        t.spec_text().len() > 0,
        s[p] != t.spec_text()[0],
    ensures
        !tag_at(s, p, t),
{
    reveal(tag_matches);
    if tag_at(s, p, t) {
        assert(s.subrange(p, p + t.spec_text().len())[0] == s[p]);
    }
}

proof fn lemma_tag_here(s: Seq<char>, p: int, t: Token)
    requires
        0 <= p,
        p + t.spec_text().len() <= s.len(),
        s.subrange(p, p + t.spec_text().len()) == t.spec_text(),
    ensures
        tag_at(s, p, t),
{
    reveal(tag_matches);
}

/// Law: a type's text parses back to the type. Wherever `type_text(t)`
/// (the text `to_string` gives) stands in `s`, the type parser reads
/// exactly that text and gives `t`; so `parse_type` of `t.to_string()`
/// gives `t` and consumes the whole text.
pub proof fn law_type_text_parses_back(t: Type, s: Seq<char>, p: int)
    requires
        0 <= p,
        p + type_text(t).len() <= s.len(),
        s.subrange(p, p + type_text(t).len()) == type_text(t),
    ensures
        spec_type(s, p) == Ok::<(nat, Type), ParseError>((type_text(t).len(), t)),
    decreases t,
{
    let text = type_text(t);
    assert(s[p] == text[0]) by {
        assert(s.subrange(p, p + text.len())[0] == s[p]);
    }
    let int_t = basic_token(BasicType::Int);
    let bool_t = basic_token(BasicType::Bool);
    let char_t = basic_token(BasicType::Char);
    let string_t = basic_token(BasicType::String);
    match t {
        Type::Void => {
            lemma_tag_here(s, p, Token::Void);
        },
        Type::BasicType(b) => {
            lemma_tag_differs(s, p, Token::Void);
            match b {
                BasicType::Int => {
                    lemma_tag_here(s, p, int_t);
                },
                BasicType::Bool => {
                    lemma_tag_differs(s, p, int_t);
                    lemma_tag_here(s, p, bool_t);
                },
                BasicType::Char => {
                    lemma_tag_differs(s, p, int_t);
                    lemma_tag_differs(s, p, bool_t);
                    lemma_tag_here(s, p, char_t);
                },
                BasicType::String => {
                    lemma_tag_differs(s, p, int_t);
                    lemma_tag_differs(s, p, bool_t);
                    lemma_tag_differs(s, p, char_t);
                    lemma_tag_here(s, p, string_t);
                },
            }
        },
        Type::Array(inner) => {
            let it = type_text(*inner);
            lemma_tag_differs(s, p, Token::Void);
            lemma_tag_differs(s, p, int_t);
            lemma_tag_differs(s, p, bool_t);
            lemma_tag_differs(s, p, char_t);
            lemma_tag_differs(s, p, string_t);
            assert(s.subrange(p, p + 1) =~= seq!['[']);
            lemma_tag_here(s, p, Token::LBracket);
            assert(s.subrange(p + 1, p + 1 + it.len()) =~= it) by {
                assert forall|i: int| 0 <= i < it.len() implies s.subrange(p + 1, p + 1 + it.len())[i]
                    == it[i] by {
                    assert(s.subrange(p, p + text.len())[1 + i] == s[p + 1 + i]);
                    assert(text[1 + i] == it[i]);
                }
            }
            law_type_text_parses_back(*inner, s, p + 1);
            assert(s[p + 1 + it.len()] == ']') by {
                assert(s.subrange(p, p + text.len())[1 + it.len() as int] == s[p + 1 + it.len()]);
            }
            assert(s.subrange(p + 1 + it.len(), p + 2 + it.len()) =~= seq![']']);
            lemma_tag_here(s, p + 1 + it.len(), Token::RBracket);
        },
    }
}

} // verus!
