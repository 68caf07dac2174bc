//! Front end of a small indentation-sensitive, expression-oriented language:
//! a layout-aware lexer and an operator-precedence parser producing a spanned AST.
pub mod ast;
pub mod diagnostic;
mod expr;
pub mod grammar;
pub mod laws;
pub mod layout;
pub mod lexer;
pub mod parser;
pub mod reader;
pub mod span;
pub mod text;
pub mod token;

use vstd::prelude::*;
use crate::ast::Ast;
use crate::grammar::{decl_is, program_s};
use crate::diagnostic::{found_msg, lex_error_view, syntax_diagnostic, Diagnostic};
use crate::laws::no_error;
use crate::layout::{lex, LexError};
use crate::lexer::{items_view, Lexer};
use crate::parser::{misdeclared, Parser};
use crate::reader::{byte_len, Reader};
use crate::token::Token;

verus! {

/// Parses a whole source text into its declarations, or the first error as a diagnostic.
pub fn parse(source: &str) -> (r: Result<Ast, Diagnostic>)
    requires
        byte_len(source@) < usize::MAX,
    ensures
        match program_s(lex(source@)) {
            Ok(ds) => r matches Ok(ast) && ast@.len() == ds.len() && forall|k: int|
                0 <= k < ds.len() ==> decl_is(#[trigger] ast@[k], ds[k]),
            Err(j) => r matches Err(d) && (j < lex(source@).len() ==> match lex(source@)[j as int] {
                Err(e) => d@ == lex_error_view(e),
                Ok(_) => true,
            }),
        },
        r is Ok ==> no_error(lex(source@)),
        r matches Err(d) ==> d@.labels.len() > 0,
        ({
            let l = lex(source@);
            misdeclared(l) ==> (r matches Err(d) && d@.title == "invalid declaration"@ && (
            l[1] matches Ok(t) && d@.labels[0] == (found_msg(t.kind), t.span)) && (l[0] matches Ok(
                t,
            ) && d@.labels[1] == ("identifier to be defined"@, t.span)))
        }),
{
    let mut parser = Parser::new(source);
    proof {
        assert(parser.pos() == 0);
    }
    match parser.parse() {
        Ok(ast) => Ok(ast),
        Err(e) => Err(syntax_diagnostic(&e)),
    }
}

/// The whole token stream of `source`, ending with the end-of-file token or the first
/// lexical error.
pub fn tokenize(source: &str) -> (r: Vec<Result<Token, LexError>>)
    requires
        byte_len(source@) < usize::MAX,
    ensures
        items_view(r@) == lex(source@),
{
    let mut lexer = Lexer::new(Reader::new(source));
    let mut out: Vec<Result<Token, LexError>> = Vec::new();
    loop
        invariant
            lexer.wf(),
            items_view(out@) + lexer.upcoming() == lex(source@),
        decreases lexer.upcoming().len(),
    {
        let ghost up = lexer.upcoming();
        let ghost before = out@;
        let it = lexer.next();
        let stop = match &it {
            Ok(t) => match t.kind {
                crate::token::TokenKind::Eof => true,
                _ => false,
            },
            Err(_) => true,
        };
        out.push(it);
        proof {
            assert(items_view(out@) =~= items_view(before).push(up[0]));
            if stop {
                assert(up =~= seq![up[0]]);
                assert(items_view(out@) + Seq::empty() =~= lex(source@));
            } else {
                assert(items_view(out@) + lexer.upcoming() =~= lex(source@));
            }
        }
        if stop {
            assert(items_view(out@) =~= lex(source@));
            return out;
        }
    }
}

} // verus!
