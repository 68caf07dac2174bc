//! Diagnostics: a title, labelled spans (the first one is the primary location) and a note.
use vstd::prelude::*;
use vstd::string::StringExecFns;
use crate::layout::LexError;
use crate::parser::SyntaxError;
use crate::span::Span;
use crate::text::{decimal, hex, push_decimal, push_hex, push_str};
use crate::token::{kind_name, Kind, TokenKind};

verus! {

pub struct Diagnostic {
    pub title: String,
    pub labels: Vec<(String, Span)>,
    pub note: String,
}

pub struct DiagnosticView {
    pub title: Seq<char>,
    pub labels: Seq<(Seq<char>, Span)>,
    pub note: Seq<char>,
}

impl View for Diagnostic {
    type V = DiagnosticView;

    open spec fn view(&self) -> DiagnosticView {
        DiagnosticView {
            title: self.title@,
            labels: self.labels@.map_values(|l: (String, Span)| (l.0@, l.1)),
            note: self.note@,
        }
    }
}

/// The Unicode name of a character, where it has one.
pub uninterp spec fn unicode_name(c: char) -> Option<Seq<char>>;

/// Relies on unicode_names2::name: looks up the name of `c` in the Unicode character database.
#[verifier::external_body]
fn char_name(c: char) -> (r: Option<String>)
    ensures
        match r {
            Some(s) => unicode_name(c) == Some(s@),
            None => unicode_name(c) is None,
        },
{
    match unicode_names2::name(c) {
        Some(n) => Some(n.to_string()),
        None => None,
    }
}

/// The name of `c`, or nothing where it has none.
pub open spec fn name_or_empty(c: char) -> Seq<char> {
    match unicode_name(c) {
        Some(s) => s,
        None => Seq::empty(),
    }
}

pub open spec fn single(title: Seq<char>, msg: Seq<char>, span: Span, note: Seq<char>) -> DiagnosticView {
    DiagnosticView { title, labels: seq![(msg, span)], note }
}

pub open spec fn found_msg(k: Kind) -> Seq<char> {
    "found: "@ + kind_name(k)
}

fn make(title: &str, msg: String, span: Span, note: String) -> (r: Diagnostic)
    ensures
        r@ == single(title@, msg@, span, note@),
{
    let mut labels: Vec<(String, Span)> = Vec::new();
    let ghost m = msg@;
    labels.push((msg, span));
    let r = Diagnostic { title: String::from_str(title), labels, note };
    assert(r@.labels =~= seq![(m, span)]);
    r
}

fn concat(a: &str, b: &String) -> (r: String)
    ensures
        r@ == a@ + b@,
{
    let mut s = String::from_str(a);
    push_str(&mut s, b.as_str());
    s
}

fn found(kind: &TokenKind) -> (r: String)
    ensures
        r@ == found_msg(kind@),
{
    concat("found: ", &kind.name())
}

pub fn inconsistent_indent(indent: usize, span: Span) -> (r: Diagnostic)
    ensures
        r@ == single(
            "inconsistent indent"@,
            "indent level: "@ + decimal(indent as nat),
            span,
            "indent level does not match any of the previous indent levels"@,
        ),
{
    let mut msg = String::from_str("indent level: ");
    push_decimal(&mut msg, indent as u64);
    let note = String::from_str("indent level does not match any of the previous indent levels");
    make("inconsistent indent", msg, span, note)
}

pub fn insufficient_indent(indent: usize, min_indent: usize, span: Span) -> (r: Diagnostic)
    ensures
        r@ == single(
            "insufficient indent"@,
            "indent level: "@ + decimal(indent as nat),
            span,
            "indent level needs to be at least "@ + decimal(min_indent as nat),
        ),
{
    let mut msg = String::from_str("indent level: ");
    push_decimal(&mut msg, indent as u64);
    let mut note = String::from_str("indent level needs to be at least ");
    push_decimal(&mut note, min_indent as u64);
    make("insufficient indent", msg, span, note)
}

pub open spec fn unrecognized_view(c: char, name: Seq<char>, span: Span) -> DiagnosticView {
    single(
        "unrecognized character"@,
        "character: "@ + name + " (0x"@ + hex(c as u32 as nat) + ")"@,
        span,
        "character is not recognized as a valid identifier or symbol"@,
    )
}

/// The diagnostic for `c`, given its Unicode name (empty where it has none).
pub fn unrecognized_character_named(c: char, name: &str, span: Span) -> (r: Diagnostic)
    ensures
        r@ == unrecognized_view(c, name@, span),
{
    let mut msg = String::from_str("character: ");
    push_str(&mut msg, name);
    push_str(&mut msg, " (0x");
    push_hex(&mut msg, c as u32 as u64);
    push_str(&mut msg, ")");
    let note = String::from_str("character is not recognized as a valid identifier or symbol");
    make("unrecognized character", msg, span, note)
}

pub fn unrecognized_character(c: char, span: Span) -> (r: Diagnostic)
    ensures
        r@ == unrecognized_view(c, name_or_empty(c), span),
{
    let name = match char_name(c) {
        Some(n) => n,
        None => String::new(),
    };
    unrecognized_character_named(c, name.as_str(), span)
}

pub fn integer_out_of_range(span: Span) -> (r: Diagnostic)
    ensures
        r@ == single(
            "integer out of range"@,
            "integer literal"@,
            span,
            "integer literals must be at most 9223372036854775807"@,
        ),
{
    let msg = String::from_str("integer literal");
    let note = String::from_str("integer literals must be at most 9223372036854775807");
    make("integer out of range", msg, span, note)
}

/// Invalid declaration: the primary label is on the token that follows the identifier.
pub fn invalid_declaration(kind: &TokenKind, span1: Span, span2: Span) -> (r: Diagnostic)
    ensures
        r@ == (DiagnosticView {
            title: "invalid declaration"@,
            labels: seq![(found_msg(kind@), span2), ("identifier to be defined"@, span1)],
            note: "identifier must be followed by left parenthesis or colon"@,
        }),
{
    let mut labels: Vec<(String, Span)> = Vec::new();
    let msg = found(kind);
    let ghost m = msg@;
    labels.push((msg, span2));
    labels.push((String::from_str("identifier to be defined"), span1));
    let r = Diagnostic {
        title: String::from_str("invalid declaration"),
        labels,
        note: String::from_str("identifier must be followed by left parenthesis or colon"),
    };
    assert(r@.labels =~= seq![(m, span2), ("identifier to be defined"@, span1)]);
    r
}

pub fn invalid_expr(kind: &TokenKind, span: Span) -> (r: Diagnostic)
    ensures
        r@ == single(
            "invalid expression"@,
            found_msg(kind@),
            span,
            "expected expression, but found "@ + kind_name(kind@),
        ),
{
    make("invalid expression", found(kind), span, concat("expected expression, but found ", &kind.name()))
}

pub fn invalid_identifier(kind: &TokenKind, span: Span) -> (r: Diagnostic)
    ensures
        r@ == single(
            "invalid identifier"@,
            found_msg(kind@),
            span,
            "expected identifier, but found "@ + kind_name(kind@),
        ),
{
    make("invalid identifier", found(kind), span, concat("expected identifier, but found ", &kind.name()))
}

pub fn invalid_infix_expr(kind: &TokenKind, span: Span) -> (r: Diagnostic)
    ensures
        r@ == single(
            "invalid infix expression"@,
            found_msg(kind@),
            span,
            "expected infix expression, but found "@ + kind_name(kind@),
        ),
{
    make(
        "invalid infix expression",
        found(kind),
        span,
        concat("expected infix expression, but found ", &kind.name()),
    )
}

pub fn invalid_type(kind: &TokenKind, span: Span) -> (r: Diagnostic)
    ensures
        r@ == single(
            "invalid type"@,
            found_msg(kind@),
            span,
            "types must start with identifier or left parenthesis"@,
        ),
{
    make(
        "invalid type",
        found(kind),
        span,
        String::from_str("types must start with identifier or left parenthesis"),
    )
}

pub fn unexpected_token(actual: &TokenKind, expected: &TokenKind, span: Span) -> (r: Diagnostic)
    ensures
        r@ == single(
            "unexpected token"@,
            found_msg(actual@),
            span,
            "expected "@ + kind_name(expected@) + ", but found "@ + kind_name(actual@),
        ),
{
    let mut note = String::from_str("expected ");
    push_str(&mut note, expected.name().as_str());
    push_str(&mut note, ", but found ");
    push_str(&mut note, actual.name().as_str());
    make("unexpected token", found(actual), span, note)
}

/// The diagnostic that reports a lexical error.
pub open spec fn lex_error_view(e: LexError) -> DiagnosticView {
    match e {
        LexError::InconsistentIndent { indent, span } => single(
            "inconsistent indent"@,
            "indent level: "@ + decimal(indent as nat),
            span,
            "indent level does not match any of the previous indent levels"@,
        ),
        LexError::InsufficientIndent { indent, min_indent, span } => single(
            "insufficient indent"@,
            "indent level: "@ + decimal(indent as nat),
            span,
            "indent level needs to be at least "@ + decimal(min_indent as nat),
        ),
        LexError::UnrecognizedCharacter { c, span } => unrecognized_view(c, name_or_empty(c), span),
        LexError::IntegerOutOfRange { span } => single(
            "integer out of range"@,
            "integer literal"@,
            span,
            "integer literals must be at most 9223372036854775807"@,
        ),
    }
}

pub fn lex_diagnostic(e: LexError) -> (r: Diagnostic)
    ensures
        r@ == lex_error_view(e),
{
    match e {
        LexError::InconsistentIndent { indent, span } => inconsistent_indent(indent, span),
        LexError::InsufficientIndent { indent, min_indent, span } => insufficient_indent(
            indent,
            min_indent,
            span,
        ),
        LexError::UnrecognizedCharacter { c, span } => unrecognized_character(c, span),
        LexError::IntegerOutOfRange { span } => integer_out_of_range(span),
    }
}

/// The diagnostic that reports a failed parse.
pub fn syntax_diagnostic(e: &SyntaxError) -> (r: Diagnostic)
    ensures
        match e {
            SyntaxError::Lexical(l) => r@ == lex_error_view(*l),
            SyntaxError::InvalidDeclaration { found, identifier, span } => r@.title
                == "invalid declaration"@ && r@.labels[0] == (found_msg(found@), *span)
                && r@.labels[1] == ("identifier to be defined"@, *identifier),
            SyntaxError::InvalidType { found, span } => r@ == single(
                "invalid type"@,
                found_msg(found@),
                *span,
                "types must start with identifier or left parenthesis"@,
            ),
            SyntaxError::InvalidExpr { found, span } => r@.title == "invalid expression"@
                && r@.labels == seq![(found_msg(found@), *span)],
            SyntaxError::InvalidInfixExpr { found, span } => r@.title
                == "invalid infix expression"@ && r@.labels == seq![(found_msg(found@), *span)],
            SyntaxError::InvalidIdentifier { found, span } => r@.title == "invalid identifier"@
                && r@.labels == seq![(found_msg(found@), *span)],
            SyntaxError::UnexpectedToken { actual, expected, span } => r@ == single(
                "unexpected token"@,
                found_msg(actual@),
                *span,
                "expected "@ + kind_name(expected@) + ", but found "@ + kind_name(actual@),
            ),
        },
        r@.labels.len() > 0,
{
    match e {
        SyntaxError::Lexical(l) => lex_diagnostic(*l),
        SyntaxError::InvalidDeclaration { found, identifier, span } => invalid_declaration(
            found,
            *identifier,
            *span,
        ),
        SyntaxError::InvalidType { found, span } => invalid_type(found, *span),
        SyntaxError::InvalidExpr { found, span } => invalid_expr(found, *span),
        SyntaxError::InvalidInfixExpr { found, span } => invalid_infix_expr(found, *span),
        SyntaxError::InvalidIdentifier { found, span } => invalid_identifier(found, *span),
        SyntaxError::UnexpectedToken { actual, expected, span } => unexpected_token(
            actual,
            expected,
            *span,
        ),
    }
}

} // verus!
