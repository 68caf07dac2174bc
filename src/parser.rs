//! Recursive descent over the lexer's tokens, with precedence climbing for operators.
use vstd::prelude::*;
use crate::ast::{Ast, Decl, DeclKind, FnDef, Identifier, Ty, TyDecl, TyKind};
use crate::grammar::{
    at, decl_is, decl_s, decls_s, fn_def_is, fn_def_s, ident_is, ident_of, kind_at,
    lemma_prepend_empty, lemma_prepend_push, params_of, params_s, prepend, skip, span_at, ty_is,
    ty_s, tys_s, DeclV, FnDefV, IdentV, TyKindV, TyV,
};
use crate::laws::{lemma_stream_only_last_stops, no_error};
use crate::layout::{is_stop, lex, Item, LexError};
use crate::lexer::Lexer;
use crate::reader::{byte_len, Reader};
use crate::span::Span;
use crate::token::{Kind, Token, TokenKind, TokenView};

verus! {

/// Why a parse failed: a lexical error, or a syntax error with the offending token.
#[derive(Debug)]
pub enum SyntaxError {
    Lexical(LexError),
    InvalidDeclaration { found: TokenKind, identifier: Span, span: Span },
    InvalidType { found: TokenKind, span: Span },
    InvalidExpr { found: TokenKind, span: Span },
    InvalidInfixExpr { found: TokenKind, span: Span },
    InvalidIdentifier { found: TokenKind, span: Span },
    UnexpectedToken { actual: TokenKind, expected: TokenKind, span: Span },
}

/// The next item is a token of kind `k`.
pub open spec fn next_is(up: Seq<Item>, k: Kind) -> bool {
    up.len() > 0 && (up[0] matches Ok(t) && t.kind == k)
}

/// The error for a token that was expected to be of kind `expected`.
pub open spec fn unexpected(r: SyntaxError, it: Item, expected: Kind) -> bool {
    match it {
        Ok(t) => r matches SyntaxError::UnexpectedToken { actual, expected: e, span } && actual@
            == t.kind && e@ == expected && span == t.span,
        Err(e) => r == SyntaxError::Lexical(e),
    }
}

/// An identifier followed by a token that can start neither a function nor a type declaration.
pub open spec fn misdeclared(up: Seq<Item>) -> bool {
    &&& up.len() > 1
    &&& up[0] matches Ok(t) && t.kind is Identifier
    &&& up[1] matches Ok(t) && !(t.kind is LParen) && !(t.kind is Colon)
}

/// Tokens that can begin an expression.
pub open spec fn starts_expr(k: Kind) -> bool {
    match k {
        Kind::Boolean(_) | Kind::Integer(_) | Kind::Identifier(_) | Kind::KwIf | Kind::KwWhile
        | Kind::LParen | Kind::Operator(_) | Kind::BlockStart => true,
        _ => false,
    }
}

/// A failure at position `j` of the stream `t` is reported as the lexical error there, if
/// the item there is one.
pub open spec fn failed_at(t: Seq<Item>, j: nat, e: SyntaxError) -> bool {
    j < t.len() ==> match t[j as int] {
        Err(le) => e == SyntaxError::Lexical(le),
        Ok(_) => true,
    }
}

pub struct Parser {
    pub lexer: Lexer,
}

impl Parser {
    /// The lexer is well formed, and what is still to be read is the rest of the source's
    /// token stream.
    pub open spec fn wf(&self) -> bool {
        &&& self.lexer.wf()
        &&& self.upcoming().len() <= lex(self.lexer.chars()).len()
        &&& self.upcoming() == lex(self.lexer.chars()).subrange(
            lex(self.lexer.chars()).len() - self.upcoming().len(),
            lex(self.lexer.chars()).len() as int,
        )
    }

    /// The items still to be read.
    pub open spec fn upcoming(&self) -> Seq<Item> {
        self.lexer.upcoming()
    }

    /// The token stream of the whole source.
    pub open spec fn stream(&self) -> Seq<Item> {
        lex(self.lexer.chars())
    }

    /// How many items of the stream have been read.
    pub open spec fn pos(&self) -> nat {
        (self.stream().len() - self.upcoming().len()) as nat
    }

    pub(crate) proof fn lemma_front(&self)
        requires
            self.wf(),
        ensures
            self.upcoming().len() > 0,
            self.pos() < self.stream().len(),
            self.upcoming()[0] == self.stream()[self.pos() as int],
            match self.upcoming()[0] {
                Ok(tv) => kind_at(self.stream(), self.pos()) == Some(tv.kind) && span_at(
                    self.stream(),
                    self.pos(),
                ) == tv.span,
                Err(_) => kind_at(self.stream(), self.pos()) is None,
            },
            forall|k: Kind| #[trigger] at(self.stream(), self.pos(), k) == next_is(self.upcoming(), k),
    {
        self.lexer.lemma_upcoming_nonempty();
    }

    pub fn new(source: &str) -> (r: Parser)
        requires
            byte_len(source@) < usize::MAX,
        ensures
            r.wf(),
            r.upcoming() == lex(source@),
            r.lexer.chars() == source@,
    {
        let reader = Reader::new(source);
        let lexer = Lexer::new(reader);
        let r = Parser { lexer };
        assert(r.upcoming() =~= lex(source@).subrange(0, lex(source@).len() as int));
        r
    }

    /// Consumes the next token, which is known to be no stop.
    pub(crate) fn advance(&mut self) -> (t: Token)
        requires
            old(self).wf(),
            old(self).upcoming().len() > 0,
            !is_stop(old(self).upcoming()[0]),
        ensures
            final(self).wf(),
            final(self).lexer.chars() == old(self).lexer.chars(),
            Ok::<TokenView, LexError>(t@) == old(self).upcoming()[0],
            final(self).upcoming() == old(self).upcoming().drop_first(),
    {
        let ghost l = lex(self.lexer.chars());
        let ghost up = self.upcoming();
        match self.lexer.next() {
            Ok(t) => {
                proof {
                    assert(self.upcoming() =~= l.subrange(
                        l.len() - self.upcoming().len(),
                        l.len() as int,
                    ));
                }
                t
            },
            Err(_) => {
                proof {
                    assert(false);
                }
                Token { kind: TokenKind::Eof, span: Span(0, 0) }
            },
        }
    }

    pub(crate) fn kind_is(&mut self, kind: &TokenKind) -> (r: bool)
        requires
            old(self).wf(),
        ensures
            final(self).wf(),
            final(self).lexer.chars() == old(self).lexer.chars(),
            final(self).upcoming() == old(self).upcoming(),
            r == next_is(old(self).upcoming(), kind@),
    {
        match self.lexer.peek() {
            Ok(t) => t.kind.same(kind),
            Err(_) => false,
        }
    }

    /// Consumes the next token if it is of kind `kind`.
    pub(crate) fn discard(&mut self, kind: TokenKind)
        requires
            old(self).wf(),
            !(kind@ is Eof),
        ensures
            final(self).wf(),
            final(self).lexer.chars() == old(self).lexer.chars(),
            final(self).upcoming() == if next_is(old(self).upcoming(), kind@) {
                old(self).upcoming().drop_first()
            } else {
                old(self).upcoming()
            },
    {
        if self.kind_is(&kind) {
            self.advance();
        }
    }

    /// Consumes and returns the next token, which must be of kind `kind`.
    pub(crate) fn consume(&mut self, kind: TokenKind) -> (r: Result<Token, SyntaxError>)
        requires
            old(self).wf(),
            !(kind@ is Eof),
        ensures
            final(self).wf(),
            final(self).lexer.chars() == old(self).lexer.chars(),
            old(self).upcoming().len() > 0,
            next_is(old(self).upcoming(), kind@) ==> (r matches Ok(t) && Ok::<TokenView, LexError>(
                t@,
            ) == old(self).upcoming()[0] && final(self).upcoming() == old(
                self,
            ).upcoming().drop_first()),
            !next_is(old(self).upcoming(), kind@) ==> (r matches Err(e) && unexpected(
                e,
                old(self).upcoming()[0],
                kind@,
            )) && final(self).upcoming() == old(self).upcoming(),
    {
        let found = match self.lexer.peek() {
            Ok(t) => {
                if t.kind.same(&kind) {
                    None
                } else {
                    Some((t.kind.duplicate(), t.span))
                }
            },
            Err(e) => return Err(SyntaxError::Lexical(e)),
        };
        match found {
            None => Ok(self.advance()),
            Some((actual, span)) => Err(SyntaxError::UnexpectedToken { actual, expected: kind, span }),
        }
    }

    /// The kind and span of the next token, or the pending lexical error.
    pub(crate) fn look(&mut self) -> (r: Result<(TokenKind, Span), SyntaxError>)
        requires
            old(self).wf(),
        ensures
            final(self).wf(),
            final(self).lexer.chars() == old(self).lexer.chars(),
            final(self).upcoming() == old(self).upcoming(),
            old(self).upcoming().len() > 0,
            match old(self).upcoming()[0] {
                Ok(t) => r matches Ok(p) && p.0@ == t.kind && p.1 == t.span,
                Err(e) => r == Err::<(TokenKind, Span), SyntaxError>(SyntaxError::Lexical(e)),
            },
    {
        match self.lexer.peek() {
            Ok(t) => Ok((t.kind.duplicate(), t.span)),
            Err(e) => Err(SyntaxError::Lexical(e)),
        }
    }

    pub(crate) fn parse_identifier(&mut self) -> (r: Result<Identifier, SyntaxError>)
        requires
            old(self).wf(),
        ensures
            r is Ok ==> final(self).wf(),
            final(self).lexer.chars() == old(self).lexer.chars(),
            old(self).upcoming().len() > 0,
            match old(self).upcoming()[0] {
                Ok(t) => match t.kind {
                    Kind::Identifier(name) => r matches Ok(id) && id.name@ == name && id.span
                        == t.span && final(self).upcoming() == old(self).upcoming().drop_first(),
                    _ => r matches Err(SyntaxError::InvalidIdentifier { found, span }) && found@
                        == t.kind && span == t.span,
                },
                Err(e) => r == Err::<Identifier, SyntaxError>(SyntaxError::Lexical(e)),
            },
    {
        let ghost l = lex(self.lexer.chars());
        match self.lexer.next() {
            Ok(token) => match token.kind {
                TokenKind::Identifier(name) => {
                    proof {
                        assert(self.upcoming() =~= l.subrange(
                            l.len() - self.upcoming().len(),
                            l.len() as int,
                        ));
                    }
                    Ok(Identifier { name, span: token.span })
                },
                kind => Err(SyntaxError::InvalidIdentifier { found: kind, span: token.span }),
            },
            Err(e) => Err(SyntaxError::Lexical(e)),
        }
    }

    /// A type: a name, a tuple of types, or a function type `params -> result`.
    #[verifier::rlimit(100)]
    fn parse_ty(&mut self) -> (r: Result<Ty, SyntaxError>)
        requires
            old(self).wf(),
        ensures
            r is Ok ==> final(self).wf(),
            final(self).lexer.chars() == old(self).lexer.chars(),
            r is Ok ==> final(self).upcoming().len() < old(self).upcoming().len(),
            match ty_s(old(self).stream(), old(self).pos()) {
                Ok((v, j)) => (r matches Ok(ty) && ty_is(ty, v)) && final(self).pos() == j,
                Err(j) => r matches Err(e) && failed_at(old(self).stream(), j, e),
            },
        decreases old(self).upcoming().len(),
    {
        let ghost l = self.stream();
        let ghost i0 = self.pos();
        proof {
            self.lemma_front();
        }
        let (kind, start) = match self.look() {
            Ok(p) => p,
            Err(e) => return Err(e),
        };
        let ghost lv: TyV;
        let lhs = match kind {
            TokenKind::Identifier(name) => {
                self.advance();
                let ty = Ty { kind: TyKind::Single(name), span: start };
                proof {
                    lv = TyV { kind: TyKindV::Single(name@), span: start };
                }
                ty
            },
            TokenKind::LParen => {
                self.advance();
                let mut tys: Vec<Ty> = Vec::new();
                let ghost mut vs: Seq<TyV> = seq![];
                while !self.kind_is(&TokenKind::RParen)
                    invariant
                        self.wf(),
                        self.lexer.chars() == old(self).lexer.chars(),
                        l == self.stream(),
                        l == old(self).stream(),
                        i0 == old(self).pos(),
                        i0 < self.pos(),
                        i0 < l.len(),
                        at(l, i0, Kind::LParen),
                        self.upcoming().len() < old(self).upcoming().len(),
                        tys_s(l, i0 + 1) == prepend(vs, tys_s(l, self.pos())),
                        tys@.len() == vs.len(),
                        forall|k: int| 0 <= k < tys@.len() ==> ty_is(#[trigger] tys@[k], vs[k]),
                    decreases self.upcoming().len(),
                {
                    proof {
                        self.lemma_front();
                    }
                    let ghost p = self.pos();
                    let ty = match self.parse_ty() {
                        Ok(ty) => ty,
                        Err(e) => {
                            proof {
                                assert(tys_s(l, p) == Err::<(Seq<TyV>, nat), nat>(ty_s(l, p)->Err_0));
                            }
                            return Err(e);
                        },
                    };
                    let ghost v = ty_s(l, p)->Ok_0.0;
                    let ghost j = ty_s(l, p)->Ok_0.1;
                    let ghost before = tys@;
                    tys.push(ty);
                    proof {
                        self.lemma_front();
                    }
                    self.discard(TokenKind::Comma);
                    proof {
                        assert(self.pos() == skip(l, j, Kind::Comma));
                        lemma_prepend_push(vs, v, tys_s(l, self.pos()));
                        vs = vs.push(v);
                        assert forall|k: int| 0 <= k < tys@.len() implies ty_is(#[trigger] tys@[k], vs[k]) by {
                            if k < before.len() {
                                assert(tys@[k] == before[k]);
                            }
                        }
                    }
                }
                proof {
                    self.lemma_front();
                    lemma_prepend_empty(vs, self.pos());
                }
                let token = match self.consume(TokenKind::RParen) {
                    Ok(t) => t,
                    Err(e) => return Err(e),
                };
                let ty = Ty { kind: TyKind::Tuple(tys), span: Span::between(start, token.span) };
                proof {
                    lv = TyV { kind: TyKindV::Tuple(vs), span: ty.span };
                    assert(ty_is(ty, lv));
                }
                ty
            },
            found => return Err(SyntaxError::InvalidType { found, span: start }),
        };
        proof {
            self.lemma_front();
            assert(ty_is(lhs, lv));
            assert(i0 < self.pos());
        }
        let ghost j = self.pos();
        if self.kind_is(&TokenKind::RArrow) {
            self.advance();
            let rhs = match self.parse_ty() {
                Ok(ty) => ty,
                Err(e) => return Err(e),
            };
            let ghost rv = ty_s(l, j + 1)->Ok_0.0;
            let end = rhs.span;
            let ghost old_lhs = lhs;
            let kind = match lhs.kind {
                TyKind::Tuple(tys) => TyKind::Function(tys, Box::new(rhs)),
                other => {
                    let mut single: Vec<Ty> = Vec::new();
                    single.push(Ty { kind: other, span: lhs.span });
                    proof {
                        assert(single@[0] == old_lhs);
                    }
                    TyKind::Function(single, Box::new(rhs))
                },
            };
            let result = Ty { kind, span: Span::between(start, end) };
            proof {
                let fv = TyV {
                    kind: TyKindV::Function(params_of(lv), Box::new(rv)),
                    span: result.span,
                };
                assert(ty_is(result, fv));
                assert(ty_s(l, i0) == Ok::<(TyV, nat), nat>((fv, self.pos())));
            }
            Ok(result)
        } else {
            proof {
                assert(ty_s(l, i0) == Ok::<(TyV, nat), nat>((lv, j)));
            }
            Ok(lhs)
        }
    }

    /// `: type`, with the declared name already read.
    pub(crate) fn parse_ty_decl(&mut self, identifier: Identifier) -> (r: Result<TyDecl, SyntaxError>)
        requires
            old(self).wf(),
            at(old(self).stream(), old(self).pos(), Kind::Colon),
        ensures
            r is Ok ==> final(self).wf(),
            final(self).lexer.chars() == old(self).lexer.chars(),
            r is Ok ==> final(self).upcoming().len() < old(self).upcoming().len(),
            match ty_s(old(self).stream(), old(self).pos() + 1) {
                Ok((v, j)) => (r matches Ok(d) && ty_is(d.ty, v) && d.identifier == identifier
                    && d.span == crate::span::span_between(identifier.span, v.span))
                    && final(self).pos() == j,
                Err(j) => r matches Err(e) && failed_at(old(self).stream(), j, e),
            },
    {
        proof {
            self.lemma_front();
        }
        match self.consume(TokenKind::Colon) {
            Ok(_) => {},
            Err(e) => return Err(e),
        }
        let ty = match self.parse_ty() {
            Ok(ty) => ty,
            Err(e) => return Err(e),
        };
        let span = Span::between(identifier.span, ty.span);
        Ok(TyDecl { identifier, ty, span })
    }

    /// Parses the whole source: declarations, each optionally followed by a separator, up to
    /// the end of file.
    pub fn parse(&mut self) -> (r: Result<Ast, SyntaxError>)
        requires
            old(self).wf(),
        ensures
            match decls_s(old(self).stream(), old(self).pos()) {
                Ok((ds, _)) => r matches Ok(ast) && ast@.len() == ds.len() && forall|k: int|
                    0 <= k < ds.len() ==> decl_is(#[trigger] ast@[k], ds[k]),
                Err(j) => r matches Err(e) && failed_at(old(self).stream(), j, e),
            },
            r is Ok ==> final(self).wf() && next_is(final(self).upcoming(), Kind::Eof),
            r is Ok ==> no_error(lex(old(self).lexer.chars())),
            ({
                let up = old(self).upcoming();
                misdeclared(up) ==> (r matches Err(
                    SyntaxError::InvalidDeclaration { found, identifier, span },
                ) && up[1] matches Ok(t) && found@ == t.kind && span == t.span && (up[0] matches Ok(
                    t0,
                ) && identifier == t0.span))
            }),
    {
        let ghost l = self.stream();
        let ghost i0 = self.pos();
        let mut ast: Vec<Decl> = Vec::new();
        let ghost mut dvs: Seq<DeclV> = seq![];
        proof {
            lemma_prepend_empty(dvs, i0);
            assert(prepend(dvs, decls_s(l, i0)) == decls_s(l, i0)) by {
                match decls_s(l, i0) {
                    Ok((ys, k)) => {
                        assert(dvs + ys =~= ys);
                    },
                    Err(_) => {},
                }
            }
        }
        while !self.lexer.eof()
            invariant
                self.wf(),
                self.lexer.chars() == old(self).lexer.chars(),
                l == self.stream(),
                l == old(self).stream(),
                i0 == old(self).pos(),
                decls_s(l, i0) == prepend(dvs, decls_s(l, self.pos())),
                ast@.len() == dvs.len(),
                forall|k: int| 0 <= k < ast@.len() ==> decl_is(#[trigger] ast@[k], dvs[k]),
                ast@.len() == 0 ==> self.upcoming() == old(self).upcoming(),
                ast@.len() > 0 ==> !misdeclared(old(self).upcoming()),
            decreases self.upcoming().len(),
        {
            proof {
                self.lemma_front();
            }
            let ghost p = self.pos();
            let decl = match self.parse_decl() {
                Ok(d) => d,
                Err(e) => return Err(e),
            };
            let ghost v = decl_s(l, p)->Ok_0.0;
            let ghost j = decl_s(l, p)->Ok_0.1;
            let ghost before = ast@;
            ast.push(decl);
            proof {
                self.lemma_front();
            }
            self.discard(TokenKind::Separator);
            proof {
                assert(self.pos() == skip(l, j, Kind::Separator));
                lemma_prepend_push(dvs, v, decls_s(l, self.pos()));
                dvs = dvs.push(v);
                assert forall|k: int| 0 <= k < ast@.len() implies decl_is(#[trigger] ast@[k], dvs[k]) by {
                    if k < before.len() {
                        assert(ast@[k] == before[k]);
                    }
                }
            }
        }
        proof {
            self.lemma_front();
            lemma_prepend_empty(dvs, self.pos());
            lemma_stream_only_last_stops(self.lexer.chars());
            assert(l[l.len() - self.upcoming().len()] == self.upcoming()[0]);
        }
        Ok(ast)
    }

    /// A top-level declaration: `name(params) = body` or `name: type`.
    fn parse_decl(&mut self) -> (r: Result<Decl, SyntaxError>)
        requires
            old(self).wf(),
        ensures
            r is Ok ==> final(self).wf(),
            final(self).lexer.chars() == old(self).lexer.chars(),
            r is Ok ==> final(self).upcoming().len() < old(self).upcoming().len(),
            match decl_s(old(self).stream(), old(self).pos()) {
                Ok((v, j)) => (r matches Ok(d) && decl_is(d, v)) && final(self).pos() == j,
                Err(j) => r matches Err(e) && failed_at(old(self).stream(), j, e),
            },
            ({
                let up = old(self).upcoming();
                misdeclared(up) ==> (r matches Err(
                    SyntaxError::InvalidDeclaration { found, identifier, span },
                ) && up[1] matches Ok(t) && found@ == t.kind && span == t.span && (up[0] matches Ok(
                    t0,
                ) && identifier == t0.span))
            }),
    {
        let ghost l = self.stream();
        let ghost i = self.pos();
        proof {
            self.lemma_front();
        }
        let identifier = match self.parse_identifier() {
            Ok(i) => i,
            Err(e) => return Err(e),
        };
        proof {
            self.lemma_front();
        }
        let (kind, span) = match self.look() {
            Ok(p) => p,
            Err(e) => return Err(e),
        };
        match kind {
            TokenKind::LParen => {
                let fn_def = match self.parse_fn_def(identifier) {
                    Ok(f) => f,
                    Err(e) => return Err(e),
                };
                let span = fn_def.span;
                Ok(Decl { kind: DeclKind::Fn(fn_def), span })
            },
            TokenKind::Colon => {
                let ty_decl = match self.parse_ty_decl(identifier) {
                    Ok(d) => d,
                    Err(e) => return Err(e),
                };
                let span = ty_decl.span;
                Ok(Decl { kind: DeclKind::Ty(ty_decl), span })
            },
            found => Err(SyntaxError::InvalidDeclaration { found, identifier: identifier.span, span }),
        }
    }

    /// `(params) = body`, with the defined name already read.
    fn parse_fn_def(&mut self, func: Identifier) -> (r: Result<FnDef, SyntaxError>)
        requires
            old(self).wf(),
            at(old(self).stream(), old(self).pos(), Kind::LParen),
        ensures
            r is Ok ==> final(self).wf(),
            final(self).lexer.chars() == old(self).lexer.chars(),
            r is Ok ==> final(self).upcoming().len() < old(self).upcoming().len(),
            match fn_def_s(old(self).stream(), old(self).pos(), ident_of(func)) {
                Ok((v, j)) => (r matches Ok(f) && fn_def_is(f, v)) && final(self).pos() == j,
                Err(j) => r matches Err(e) && failed_at(old(self).stream(), j, e),
            },
    {
        let ghost l = self.stream();
        let ghost i0 = self.pos();
        proof {
            self.lemma_front();
        }
        self.advance();
        let mut params: Vec<Identifier> = Vec::new();
        let ghost mut pvs: Seq<IdentV> = seq![];
        while !self.kind_is(&TokenKind::RParen)
            invariant
                self.wf(),
                self.lexer.chars() == old(self).lexer.chars(),
                l == self.stream(),
                l == old(self).stream(),
                i0 == old(self).pos(),
                i0 < self.pos(),
                at(l, i0, Kind::LParen),
                self.upcoming().len() < old(self).upcoming().len(),
                params_s(l, i0 + 1) == prepend(pvs, params_s(l, self.pos())),
                params@.len() == pvs.len(),
                forall|k: int| 0 <= k < params@.len() ==> ident_is(#[trigger] params@[k], pvs[k]),
            decreases self.upcoming().len(),
        {
            proof {
                self.lemma_front();
            }
            let ghost p = self.pos();
            let identifier = match self.parse_identifier() {
                Ok(i) => i,
                Err(e) => return Err(e),
            };
            let ghost v = ident_of(identifier);
            let ghost before = params@;
            params.push(identifier);
            proof {
                self.lemma_front();
            }
            self.discard(TokenKind::Comma);
            proof {
                assert(self.pos() == skip(l, p + 1, Kind::Comma));
                lemma_prepend_push(pvs, v, params_s(l, self.pos()));
                pvs = pvs.push(v);
                assert forall|k: int| 0 <= k < params@.len() implies ident_is(#[trigger] params@[k], pvs[k]) by {
                    if k < before.len() {
                        assert(params@[k] == before[k]);
                    }
                }
            }
        }
        proof {
            self.lemma_front();
            lemma_prepend_empty(pvs, self.pos());
        }
        let ghost j = self.pos();
        match self.consume(TokenKind::RParen) {
            Ok(_) => {},
            Err(e) => return Err(e),
        }
        proof {
            self.lemma_front();
        }
        match self.consume(TokenKind::Equal) {
            Ok(_) => {},
            Err(e) => return Err(e),
        }
        let body = match self.parse_expr(0) {
            Ok(e) => e,
            Err(e) => return Err(e),
        };
        let span = Span::between(func.span, body.span);
        Ok(FnDef { func, params, body, span })
    }
}

} // verus!
