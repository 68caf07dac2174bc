//! The closed set of lexical categories.
use vstd::prelude::*;
use vstd::string::StringExecFns;
use crate::span::Span;
use crate::text::{push_signed_decimal, push_str, signed_decimal};

verus! {

#[derive(Debug, PartialEq)]
pub enum TokenKind {
    Eof,
    Boolean(bool),
    Integer(i64),
    Identifier(String),
    KwIf,
    KwThen,
    KwElse,
    KwWhile,
    KwDo,
    LParen,
    RParen,
    Comma,
    Colon,
    Equal,
    RArrow,
    Operator(String),
    Separator,
    BlockStart,
    BlockEnd,
}

/// The mathematical value of a `TokenKind`: its text payloads as character sequences.
pub enum Kind {
    Eof,
    Boolean(bool),
    Integer(int),
    Identifier(Seq<char>),
    KwIf,
    KwThen,
    KwElse,
    KwWhile,
    KwDo,
    LParen,
    RParen,
    Comma,
    Colon,
    Equal,
    RArrow,
    Operator(Seq<char>),
    Separator,
    BlockStart,
    BlockEnd,
}

impl View for TokenKind {
    type V = Kind;

    open spec fn view(&self) -> Kind {
        match self {
            TokenKind::Eof => Kind::Eof,
            TokenKind::Boolean(b) => Kind::Boolean(*b),
            TokenKind::Integer(i) => Kind::Integer(*i as int),
            TokenKind::Identifier(s) => Kind::Identifier(s@),
            TokenKind::KwIf => Kind::KwIf,
            TokenKind::KwThen => Kind::KwThen,
            TokenKind::KwElse => Kind::KwElse,
            TokenKind::KwWhile => Kind::KwWhile,
            TokenKind::KwDo => Kind::KwDo,
            TokenKind::LParen => Kind::LParen,
            TokenKind::RParen => Kind::RParen,
            TokenKind::Comma => Kind::Comma,
            TokenKind::Colon => Kind::Colon,
            TokenKind::Equal => Kind::Equal,
            TokenKind::RArrow => Kind::RArrow,
            TokenKind::Operator(s) => Kind::Operator(s@),
            TokenKind::Separator => Kind::Separator,
            TokenKind::BlockStart => Kind::BlockStart,
            TokenKind::BlockEnd => Kind::BlockEnd,
        }
    }
}

/// The diagnostic name of each kind of token.
pub open spec fn kind_name(k: Kind) -> Seq<char> {
    match k {
        Kind::Eof => "end of file"@,
        Kind::Boolean(b) => "boolean ("@ + (if b { "true"@ } else { "false"@ }) + ")"@,
        Kind::Integer(i) => "integer ("@ + signed_decimal(i) + ")"@,
        Kind::Identifier(s) => "identifier ("@ + s + ")"@,
        Kind::KwIf => "keyword (if)"@,
        Kind::KwThen => "keyword (then)"@,
        Kind::KwElse => "keyword (else)"@,
        Kind::KwWhile => "keyword (while)"@,
        Kind::KwDo => "keyword (do)"@,
        Kind::LParen => "left parenthesis"@,
        Kind::RParen => "right parenthesis"@,
        Kind::Comma => "comma"@,
        Kind::Colon => "colon"@,
        Kind::Equal => "equal sign"@,
        Kind::RArrow => "right arrow"@,
        Kind::Operator(s) => "operator ("@ + s + ")"@,
        Kind::Separator => "newline"@,
        Kind::BlockStart => "start of block"@,
        Kind::BlockEnd => "end of block"@,
    }
}

fn wrapped(prefix: &str, middle: &String) -> (r: String)
    ensures
        r@ == prefix@ + middle@ + ")"@,
{
    let mut s = String::from_str(prefix);
    push_str(&mut s, middle.as_str());
    push_str(&mut s, ")");
    s
}

impl TokenKind {
    /// A human-readable name, used in diagnostics only.
    pub fn name(&self) -> (r: String)
        ensures
            r@ == kind_name(self@),
    {
        match self {
            TokenKind::Eof => String::from_str("end of file"),
            TokenKind::Boolean(b) => {
                let mut s = String::from_str("boolean (");
                if *b {
                    push_str(&mut s, "true");
                } else {
                    push_str(&mut s, "false");
                }
                push_str(&mut s, ")");
                s
            },
            TokenKind::Integer(i) => {
                let mut s = String::from_str("integer (");
                push_signed_decimal(&mut s, *i);
                push_str(&mut s, ")");
                s
            },
            TokenKind::Identifier(i) => wrapped("identifier (", i),
            TokenKind::KwIf => String::from_str("keyword (if)"),
            TokenKind::KwThen => String::from_str("keyword (then)"),
            TokenKind::KwElse => String::from_str("keyword (else)"),
            TokenKind::KwWhile => String::from_str("keyword (while)"),
            TokenKind::KwDo => String::from_str("keyword (do)"),
            TokenKind::LParen => String::from_str("left parenthesis"),
            TokenKind::RParen => String::from_str("right parenthesis"),
            TokenKind::Comma => String::from_str("comma"),
            TokenKind::Colon => String::from_str("colon"),
            TokenKind::Equal => String::from_str("equal sign"),
            TokenKind::RArrow => String::from_str("right arrow"),
            TokenKind::Operator(op) => wrapped("operator (", op),
            TokenKind::Separator => String::from_str("newline"),
            TokenKind::BlockStart => String::from_str("start of block"),
            TokenKind::BlockEnd => String::from_str("end of block"),
        }
    }
}

impl TokenKind {
    /// An equal copy.
    pub fn duplicate(&self) -> (r: TokenKind)
        ensures
            r@ == self@,
    {
        match self {
            TokenKind::Eof => TokenKind::Eof,
            TokenKind::Boolean(b) => TokenKind::Boolean(*b),
            TokenKind::Integer(i) => TokenKind::Integer(*i),
            TokenKind::Identifier(s) => TokenKind::Identifier(s.clone()),
            TokenKind::KwIf => TokenKind::KwIf,
            TokenKind::KwThen => TokenKind::KwThen,
            TokenKind::KwElse => TokenKind::KwElse,
            TokenKind::KwWhile => TokenKind::KwWhile,
            TokenKind::KwDo => TokenKind::KwDo,
            TokenKind::LParen => TokenKind::LParen,
            TokenKind::RParen => TokenKind::RParen,
            TokenKind::Comma => TokenKind::Comma,
            TokenKind::Colon => TokenKind::Colon,
            TokenKind::Equal => TokenKind::Equal,
            TokenKind::RArrow => TokenKind::RArrow,
            TokenKind::Operator(s) => TokenKind::Operator(s.clone()),
            TokenKind::Separator => TokenKind::Separator,
            TokenKind::BlockStart => TokenKind::BlockStart,
            TokenKind::BlockEnd => TokenKind::BlockEnd,
        }
    }

    /// Whether two kinds are equal, payloads included.
    pub fn same(&self, other: &TokenKind) -> (r: bool)
        ensures
            r == (self@ == other@),
    {
        match (self, other) {
            (TokenKind::Eof, TokenKind::Eof) => true,
            (TokenKind::Boolean(a), TokenKind::Boolean(b)) => *a == *b,
            (TokenKind::Integer(a), TokenKind::Integer(b)) => *a == *b,
            (TokenKind::Identifier(a), TokenKind::Identifier(b)) => *a == *b,
            (TokenKind::KwIf, TokenKind::KwIf) => true,
            (TokenKind::KwThen, TokenKind::KwThen) => true,
            (TokenKind::KwElse, TokenKind::KwElse) => true,
            (TokenKind::KwWhile, TokenKind::KwWhile) => true,
            (TokenKind::KwDo, TokenKind::KwDo) => true,
            (TokenKind::LParen, TokenKind::LParen) => true,
            (TokenKind::RParen, TokenKind::RParen) => true,
            (TokenKind::Comma, TokenKind::Comma) => true,
            (TokenKind::Colon, TokenKind::Colon) => true,
            (TokenKind::Equal, TokenKind::Equal) => true,
            (TokenKind::RArrow, TokenKind::RArrow) => true,
            (TokenKind::Operator(a), TokenKind::Operator(b)) => *a == *b,
            (TokenKind::Separator, TokenKind::Separator) => true,
            (TokenKind::BlockStart, TokenKind::BlockStart) => true,
            (TokenKind::BlockEnd, TokenKind::BlockEnd) => true,
            _ => false,
        }
    }
}

#[derive(Debug)]
pub struct Token {
    pub kind: TokenKind,
    pub span: Span,
}

/// The mathematical value of a `Token`.
pub struct TokenView {
    pub kind: Kind,
    pub span: Span,
}

impl View for Token {
    type V = TokenView;

    open spec fn view(&self) -> TokenView {
        TokenView { kind: self.kind@, span: self.span }
    }
}

} // verus!
