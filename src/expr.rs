//! Expressions and statements: recursive descent with precedence climbing for operators.
use vstd::prelude::*;
use crate::ast::{BinaryOp, Expr, ExprKind, Identifier, OpAssoc, Stmt, StmtKind, VarDef};
use crate::grammar::{
    args_s, at, block_s, else_at, expr_is, expr_s, ident_of, if_s, if_tail_s, infix_s, kind_at,
    lemma_prepend_empty, lemma_prepend_push, prepend, primary_s, skip, span_at, stmt_is, stmt_s,
    stmts_s, while_s, ExprKindV, ExprV, StmtV,
};
use crate::parser::{failed_at, starts_expr, Parser, SyntaxError};
use crate::span::{span_between, Span};
use crate::token::{Kind, TokenKind};

verus! {

impl Parser {
    /// `= expr`, with the defined name already read.
    fn parse_var_def(&mut self, identifier: Identifier) -> (r: Result<VarDef, SyntaxError>)
        requires
            old(self).wf(),
            at(old(self).stream(), old(self).pos(), Kind::Equal),
        ensures
            r is Ok ==> final(self).wf(),
            final(self).lexer.chars() == old(self).lexer.chars(),
            r is Ok ==> final(self).upcoming().len() < old(self).upcoming().len(),
            match expr_s(old(self).stream(), old(self).pos() + 1, 0) {
                Ok((v, j)) => (r matches Ok(d) && d.var == identifier && expr_is(d.value, v)
                    && d.span == span_between(identifier.span, v.span)) && final(self).pos() == j,
                Err(j) => r matches Err(e) && failed_at(old(self).stream(), j, e),
            },
        decreases old(self).upcoming().len(), 0nat,
    {
        proof {
            self.lemma_front();
        }
        match self.consume(TokenKind::Equal) {
            Ok(_) => {},
            Err(e) => return Err(e),
        }
        let expr = match self.parse_expr(0) {
            Ok(e) => e,
            Err(e) => return Err(e),
        };
        let span = Span::between(identifier.span, expr.span);
        Ok(VarDef { var: identifier, value: expr, span })
    }

    /// A statement: a type declaration, a variable definition, or an expression.
    #[verifier::rlimit(100)]
    pub(crate) fn parse_stmt(&mut self) -> (r: Result<Stmt, SyntaxError>)
        requires
            old(self).wf(),
        ensures
            r is Ok ==> final(self).wf(),
            final(self).lexer.chars() == old(self).lexer.chars(),
            r is Ok ==> final(self).upcoming().len() < old(self).upcoming().len(),
            match stmt_s(old(self).stream(), old(self).pos()) {
                Ok((v, j)) => (r matches Ok(st) && stmt_is(st, v)) && final(self).pos() == j,
                Err(j) => r matches Err(e) && failed_at(old(self).stream(), j, e),
            },
        decreases old(self).upcoming().len(), 4nat,
    {
        let ghost l = self.stream();
        let ghost i = self.pos();
        proof {
            self.lemma_front();
        }
        let is_identifier = match self.lexer.peek() {
            Ok(t) => match t.kind {
                TokenKind::Identifier(_) => true,
                _ => false,
            },
            Err(e) => {
                proof {
                    assert(primary_s(l, i) == Err::<(ExprV, nat), nat>(i));
                    assert(expr_s(l, i, 0) == Err::<(ExprV, nat), nat>(i));
                }
                return Err(SyntaxError::Lexical(e));
            },
        };
        if is_identifier {
            let identifier = match self.parse_identifier() {
                Ok(i) => i,
                Err(e) => return Err(e),
            };
            let ghost id = ident_of(identifier);
            proof {
                self.lemma_front();
            }
            if self.kind_is(&TokenKind::Colon) {
                let ty_decl = match self.parse_ty_decl(identifier) {
                    Ok(d) => d,
                    Err(e) => return Err(e),
                };
                let span = ty_decl.span;
                Ok(Stmt { kind: StmtKind::TyDecl(ty_decl), span })
            } else if self.kind_is(&TokenKind::Equal) {
                let var_def = match self.parse_var_def(identifier) {
                    Ok(d) => d,
                    Err(e) => return Err(e),
                };
                let span = var_def.span;
                Ok(Stmt { kind: StmtKind::VarDef(var_def), span })
            } else {
                let ghost lv = ExprV { kind: ExprKindV::Identifier(id.name), span: id.span };
                let lhs = Expr { kind: ExprKind::Identifier(identifier.name), span: identifier.span };
                let expr = match self.parse_infix(lhs, 0, Ghost(lv)) {
                    Ok(e) => e,
                    Err(e) => return Err(e),
                };
                let span = expr.span;
                Ok(Stmt { kind: StmtKind::Expr(expr), span })
            }
        } else {
            let expr = match self.parse_expr(0) {
                Ok(e) => e,
                Err(e) => return Err(e),
            };
            let span = expr.span;
            Ok(Stmt { kind: StmtKind::Expr(expr), span })
        }
    }

    /// A primary or prefix form, followed by any calls and by operators that bind tighter than
    /// `prec`.
    pub(crate) fn parse_expr(&mut self, prec: usize) -> (r: Result<Expr, SyntaxError>)
        requires
            old(self).wf(),
        ensures
            r is Ok ==> final(self).wf(),
            final(self).lexer.chars() == old(self).lexer.chars(),
            r is Ok ==> final(self).upcoming().len() < old(self).upcoming().len(),
            match expr_s(old(self).stream(), old(self).pos(), prec as nat) {
                Ok((v, j)) => (r matches Ok(e) && expr_is(e, v)) && final(self).pos() == j,
                Err(j) => r matches Err(e) && failed_at(old(self).stream(), j, e),
            },
        decreases old(self).upcoming().len(), 3nat,
    {
        let ghost l = self.stream();
        let ghost i = self.pos();
        let (lhs, lv) = match self.parse_primary() {
            Ok(p) => p,
            Err(e) => return Err(e),
        };
        proof {
            assert(expr_s(l, i, prec as nat) == infix_s(l, self.pos(), lv@.span, lv@, prec as nat));
        }
        self.parse_infix(lhs, prec, lv)
    }

    /// A literal, a name, a keyword form, a parenthesised expression, a prefix operator applied
    /// to the expression after it, or a block.
    #[verifier::rlimit(100)]
    fn parse_primary(&mut self) -> (r: Result<(Expr, Ghost<ExprV>), SyntaxError>)
        requires
            old(self).wf(),
        ensures
            r is Ok ==> final(self).wf(),
            final(self).lexer.chars() == old(self).lexer.chars(),
            r is Ok ==> final(self).upcoming().len() < old(self).upcoming().len(),
            match primary_s(old(self).stream(), old(self).pos()) {
                Ok((v, j)) => (r matches Ok(p) && p.1@ == v && expr_is(p.0, v))
                    && final(self).pos() == j,
                Err(j) => r matches Err(e) && failed_at(old(self).stream(), j, e),
            },
            old(self).upcoming().len() > 0,
            match old(self).upcoming()[0] {
                Ok(t) => !starts_expr(t.kind) ==> (r matches Err(
                    SyntaxError::InvalidExpr { found, span },
                ) && found@ == t.kind && span == t.span),
                Err(_) => true,
            },
        decreases old(self).upcoming().len(), 2nat,
    {
        let ghost l = self.stream();
        let ghost i = self.pos();
        proof {
            self.lemma_front();
        }
        let (kind, start) = match self.look() {
            Ok(p) => p,
            Err(e) => return Err(e),
        };
        let ghost lv: ExprV;
        let lhs = match kind {
            TokenKind::Boolean(b) => {
                self.advance();
                proof {
                    lv = ExprV { kind: ExprKindV::Boolean(b), span: start };
                }
                Expr { kind: ExprKind::Boolean(b), span: start }
            },
            TokenKind::Integer(n) => {
                self.advance();
                proof {
                    lv = ExprV { kind: ExprKindV::Integer(n as int), span: start };
                }
                Expr { kind: ExprKind::Integer(n), span: start }
            },
            TokenKind::Identifier(name) => {
                self.advance();
                proof {
                    lv = ExprV { kind: ExprKindV::Identifier(name@), span: start };
                }
                Expr { kind: ExprKind::Identifier(name), span: start }
            },
            TokenKind::KwIf => {
                let e = match self.parse_if(start) {
                    Ok(e) => e,
                    Err(e) => return Err(e),
                };
                proof {
                    lv = if_s(l, i)->Ok_0.0;
                }
                e
            },
            TokenKind::KwWhile => {
                let e = match self.parse_while(start) {
                    Ok(e) => e,
                    Err(e) => return Err(e),
                };
                proof {
                    lv = while_s(l, i)->Ok_0.0;
                }
                e
            },
            TokenKind::BlockStart => {
                let e = match self.parse_block(start) {
                    Ok(e) => e,
                    Err(e) => return Err(e),
                };
                proof {
                    lv = block_s(l, i)->Ok_0.0;
                }
                e
            },
            TokenKind::LParen => {
                self.advance();
                let inner = match self.parse_expr(0) {
                    Ok(e) => e,
                    Err(e) => return Err(e),
                };
                let ghost iv = expr_s(l, i + 1, 0)->Ok_0.0;
                let ghost k = inner.kind;
                proof {
                    self.lemma_front();
                }
                let token = match self.consume(TokenKind::RParen) {
                    Ok(t) => t,
                    Err(e) => return Err(e),
                };
                let widened = Expr { kind: inner.kind, span: Span::between(start, token.span) };
                proof {
                    lv = ExprV { kind: iv.kind, span: widened.span };
                    assert(widened.kind == k);
                    assert(expr_is(widened, lv));
                }
                widened
            },
            TokenKind::Operator(op) => {
                self.advance();
                let ghost o = op@;
                let func = Expr { kind: ExprKind::Identifier(op), span: start };
                let arg = match self.parse_expr(0) {
                    Ok(e) => e,
                    Err(e) => return Err(e),
                };
                let ghost av = expr_s(l, i + 1, 0)->Ok_0.0;
                let ghost a = arg;
                let end = arg.span;
                let mut operands: Vec<Expr> = Vec::new();
                operands.push(arg);
                assert(operands@ =~= seq![a]);
                let bf = Box::new(func);
                let call = Expr { kind: ExprKind::Call(bf, operands), span: Span::between(start, end) };
                proof {
                    let fv = ExprV { kind: ExprKindV::Identifier(o), span: start };
                    assert(expr_is(*bf, fv));
                    lv = ExprV { kind: ExprKindV::Call(Box::new(fv), seq![av]), span: call.span };
                    assert(expr_is(call, lv));
                }
                call
            },
            found => return Err(SyntaxError::InvalidExpr { found, span: start }),
        };
        proof {
            self.lemma_front();
            assert(primary_s(l, i) == Ok::<(ExprV, nat), nat>((lv, self.pos())));
        }
        Ok((lhs, Ghost(lv)))
    }

    /// `if cond then expr`, with an optional `else expr` that may sit on its own line.
    #[verifier::rlimit(100)]
    fn parse_if(&mut self, start: Span) -> (r: Result<Expr, SyntaxError>)
        requires
            old(self).wf(),
            at(old(self).stream(), old(self).pos(), Kind::KwIf),
            start == span_at(old(self).stream(), old(self).pos()),
        ensures
            r is Ok ==> final(self).wf(),
            final(self).lexer.chars() == old(self).lexer.chars(),
            r is Ok ==> final(self).upcoming().len() < old(self).upcoming().len(),
            match if_s(old(self).stream(), old(self).pos()) {
                Ok((v, j)) => (r matches Ok(e) && expr_is(e, v)) && final(self).pos() == j,
                Err(j) => r matches Err(e) && failed_at(old(self).stream(), j, e),
            },
        decreases old(self).upcoming().len(), 1nat,
    {
        let ghost l = self.stream();
        let ghost i = self.pos();
        proof {
            self.lemma_front();
        }
        self.advance();
        let cond = match self.parse_expr(0) {
            Ok(e) => e,
            Err(e) => return Err(e),
        };
        let ghost cv = expr_s(l, i + 1, 0)->Ok_0.0;
        proof {
            self.lemma_front();
        }
        self.discard(TokenKind::Separator);
        proof {
            self.lemma_front();
        }
        match self.consume(TokenKind::KwThen) {
            Ok(_) => {},
            Err(e) => return Err(e),
        }
        let ghost j1 = (self.pos() - 1) as nat;
        let then_expr = match self.parse_expr(0) {
            Ok(e) => e,
            Err(e) => return Err(e),
        };
        let ghost tv = expr_s(l, j1 + 1, 0)->Ok_0.0;
        proof {
            assert(if_s(l, i) == if_tail_s(l, i, cv, tv, self.pos()));
        }
        self.parse_else(start, cond, then_expr, Ghost(i), Ghost(cv), Ghost(tv))
    }

    /// After `if cond then expr`: an optional `else expr`, directly or after one separator. A
    /// separator that no `else` follows stays unread.
    #[verifier::rlimit(100)]
    fn parse_else(
        &mut self,
        start: Span,
        cond: Expr,
        then_expr: Expr,
        i: Ghost<nat>,
        cv: Ghost<ExprV>,
        tv: Ghost<ExprV>,
    ) -> (r: Result<Expr, SyntaxError>)
        requires
            old(self).wf(),
            i@ < old(self).pos(),
            start == span_at(old(self).stream(), i@),
            expr_is(cond, cv@),
            expr_is(then_expr, tv@),
        ensures
            r is Ok ==> final(self).wf(),
            final(self).lexer.chars() == old(self).lexer.chars(),
            r is Ok ==> final(self).upcoming().len() <= old(self).upcoming().len(),
            match if_tail_s(old(self).stream(), i@, cv@, tv@, old(self).pos()) {
                Ok((v, j)) => (r matches Ok(e) && expr_is(e, v)) && final(self).pos() == j,
                Err(j) => r matches Err(e) && failed_at(old(self).stream(), j, e),
            },
        decreases old(self).upcoming().len(), 0nat,
    {
        let ghost l = self.stream();
        let ghost k = self.pos();
        let mut end = then_expr.span;
        proof {
            self.lemma_front();
        }
        if self.kind_is(&TokenKind::Separator) {
            let ghost before = self.upcoming();
            let sep = match self.consume(TokenKind::Separator) {
                Ok(t) => t,
                Err(e) => return Err(e),
            };
            proof {
                self.lemma_front();
            }
            if !self.kind_is(&TokenKind::KwElse) {
                self.lexer.restore(sep);
                proof {
                    assert(self.upcoming() =~= before);
                }
            }
        }
        let ghost q = self.pos();
        proof {
            self.lemma_front();
            assert(else_at(l, k) == if at(l, q, Kind::KwElse) {
                Some(q)
            } else {
                None::<nat>
            });
        }
        let ghost mut ev: Option<ExprV> = None;
        let else_expr = if self.kind_is(&TokenKind::KwElse) {
            self.advance();
            let else_expr = match self.parse_expr(0) {
                Ok(e) => e,
                Err(e) => return Err(e),
            };
            proof {
                ev = Some(expr_s(l, q + 1, 0)->Ok_0.0);
            }
            end = else_expr.span;
            Some(Box::new(else_expr))
        } else {
            None
        };
        let result = Expr {
            kind: ExprKind::If(Box::new(cond), Box::new(then_expr), else_expr),
            span: Span::between(start, end),
        };
        proof {
            let v = ExprV {
                kind: ExprKindV::If(
                    Box::new(cv@),
                    Box::new(tv@),
                    match ev {
                        Some(x) => Some(Box::new(x)),
                        None => None,
                    },
                ),
                span: result.span,
            };
            assert(expr_is(result, v));
            assert(if_tail_s(l, i@, cv@, tv@, k) == Ok::<(ExprV, nat), nat>((v, self.pos())));
        }
        Ok(result)
    }

    /// `while cond do body`.
    #[verifier::rlimit(100)]
    fn parse_while(&mut self, start: Span) -> (r: Result<Expr, SyntaxError>)
        requires
            old(self).wf(),
            at(old(self).stream(), old(self).pos(), Kind::KwWhile),
            start == span_at(old(self).stream(), old(self).pos()),
        ensures
            r is Ok ==> final(self).wf(),
            final(self).lexer.chars() == old(self).lexer.chars(),
            r is Ok ==> final(self).upcoming().len() < old(self).upcoming().len(),
            match while_s(old(self).stream(), old(self).pos()) {
                Ok((v, j)) => (r matches Ok(e) && expr_is(e, v)) && final(self).pos() == j,
                Err(j) => r matches Err(e) && failed_at(old(self).stream(), j, e),
            },
        decreases old(self).upcoming().len(), 1nat,
    {
        let ghost l = self.stream();
        let ghost i = self.pos();
        proof {
            self.lemma_front();
        }
        self.advance();
        let cond = match self.parse_expr(0) {
            Ok(e) => e,
            Err(e) => return Err(e),
        };
        let ghost cv = expr_s(l, i + 1, 0)->Ok_0.0;
        proof {
            self.lemma_front();
        }
        self.discard(TokenKind::Separator);
        proof {
            self.lemma_front();
        }
        match self.consume(TokenKind::KwDo) {
            Ok(_) => {},
            Err(e) => return Err(e),
        }
        let ghost j1 = (self.pos() - 1) as nat;
        let body = match self.parse_expr(0) {
            Ok(e) => e,
            Err(e) => return Err(e),
        };
        let ghost bv = expr_s(l, j1 + 1, 0)->Ok_0.0;
        let end = body.span;
        let result = Expr {
            kind: ExprKind::While(Box::new(cond), Box::new(body)),
            span: Span::between(start, end),
        };
        proof {
            let v = ExprV {
                kind: ExprKindV::While(Box::new(cv), Box::new(bv)),
                span: result.span,
            };
            assert(expr_is(result, v));
            assert(while_s(l, i) == Ok::<(ExprV, nat), nat>((v, self.pos())));
        }
        Ok(result)
    }

    /// An indented block of statements, up to its end.
    #[verifier::rlimit(100)]
    fn parse_block(&mut self, start: Span) -> (r: Result<Expr, SyntaxError>)
        requires
            old(self).wf(),
            at(old(self).stream(), old(self).pos(), Kind::BlockStart),
            start == span_at(old(self).stream(), old(self).pos()),
        ensures
            r is Ok ==> final(self).wf(),
            final(self).lexer.chars() == old(self).lexer.chars(),
            r is Ok ==> final(self).upcoming().len() < old(self).upcoming().len(),
            match block_s(old(self).stream(), old(self).pos()) {
                Ok((v, j)) => (r matches Ok(e) && expr_is(e, v)) && final(self).pos() == j,
                Err(j) => r matches Err(e) && failed_at(old(self).stream(), j, e),
            },
        decreases old(self).upcoming().len(), 1nat,
    {
        let ghost l = self.stream();
        let ghost i = self.pos();
        proof {
            self.lemma_front();
        }
        self.advance();
        let mut stmts: Vec<Stmt> = Vec::new();
        let ghost mut svs: Seq<StmtV> = seq![];
        proof {
            assert(stmts_s(l, i + 1) == prepend(svs, stmts_s(l, self.pos()))) by {
                match stmts_s(l, i + 1) {
                    Ok((ys, k)) => {
                        assert(svs + ys =~= ys);
                    },
                    Err(_) => {},
                }
            }
        }
        while !self.kind_is(&TokenKind::BlockEnd)
            invariant
                self.wf(),
                self.lexer.chars() == old(self).lexer.chars(),
                l == self.stream(),
                l == old(self).stream(),
                i == old(self).pos(),
                i < self.pos(),
                i < l.len(),
                at(l, i, Kind::BlockStart),
                start == span_at(l, i),
                self.upcoming().len() < old(self).upcoming().len(),
                stmts_s(l, i + 1) == prepend(svs, stmts_s(l, self.pos())),
                stmts@.len() == svs.len(),
                forall|k: int| 0 <= k < stmts@.len() ==> stmt_is(#[trigger] stmts@[k], svs[k]),
            decreases self.upcoming().len(),
        {
            proof {
                self.lemma_front();
            }
            let ghost p = self.pos();
            let stmt = match self.parse_stmt() {
                Ok(st) => st,
                Err(e) => {
                    proof {
                        assert(stmts_s(l, p) == Err::<(Seq<StmtV>, nat), nat>(stmt_s(l, p)->Err_0));
                    }
                    return Err(e);
                },
            };
            let ghost v = stmt_s(l, p)->Ok_0.0;
            let ghost j = stmt_s(l, p)->Ok_0.1;
            let ghost before = stmts@;
            stmts.push(stmt);
            proof {
                self.lemma_front();
            }
            self.discard(TokenKind::Separator);
            proof {
                assert(self.pos() == skip(l, j, Kind::Separator));
                lemma_prepend_push(svs, v, stmts_s(l, self.pos()));
                svs = svs.push(v);
                assert forall|k: int| 0 <= k < stmts@.len() implies stmt_is(#[trigger] stmts@[k], svs[k]) by {
                    if k < before.len() {
                        assert(stmts@[k] == before[k]);
                    }
                }
            }
        }
        proof {
            self.lemma_front();
            lemma_prepend_empty(svs, self.pos());
        }
        let token = match self.consume(TokenKind::BlockEnd) {
            Ok(t) => t,
            Err(e) => return Err(e),
        };
        let result = Expr { kind: ExprKind::Block(stmts), span: Span::between(start, token.span) };
        proof {
            let v = ExprV { kind: ExprKindV::Block(svs), span: result.span };
            assert(expr_is(result, v));
        }
        Ok(result)
    }

    /// `(args)`: comma-separated arguments, a trailing comma allowed, and the closing
    /// parenthesis, whose span comes back with them.
    #[verifier::rlimit(100)]
    fn parse_args(&mut self) -> (r: Result<(Vec<Expr>, Span), SyntaxError>)
        requires
            old(self).wf(),
            at(old(self).stream(), old(self).pos(), Kind::LParen),
        ensures
            r is Ok ==> final(self).wf(),
            final(self).lexer.chars() == old(self).lexer.chars(),
            r is Ok ==> final(self).upcoming().len() < old(self).upcoming().len(),
            r is Ok ==> final(self).pos() >= old(self).pos() + 2,
            match args_s(old(self).stream(), old(self).pos() + 1) {
                Ok((vs, j)) => if at(old(self).stream(), j, Kind::RParen) {
                    (r matches Ok(p) && p.0@.len() == vs.len() && (forall|k: int|
                        0 <= k < vs.len() ==> expr_is(#[trigger] p.0@[k], vs[k])) && p.1
                        == span_at(old(self).stream(), j)) && final(self).pos() == j + 1
                } else {
                    r matches Err(e) && failed_at(old(self).stream(), j, e)
                },
                Err(j) => r matches Err(e) && failed_at(old(self).stream(), j, e),
            },
        decreases old(self).upcoming().len(), 0nat,
    {
        let ghost l = self.stream();
        let ghost i = self.pos();
        proof {
            self.lemma_front();
        }
        self.advance();
        let mut args: Vec<Expr> = Vec::new();
        let ghost mut avs: Seq<ExprV> = seq![];
        proof {
            assert(args_s(l, i + 1) == prepend(avs, args_s(l, self.pos()))) by {
                match args_s(l, i + 1) {
                    Ok((ys, k)) => {
                        assert(avs + ys =~= ys);
                    },
                    Err(_) => {},
                }
            }
        }
        while !self.kind_is(&TokenKind::RParen)
            invariant
                self.wf(),
                self.lexer.chars() == old(self).lexer.chars(),
                l == self.stream(),
                l == old(self).stream(),
                i == old(self).pos(),
                i < self.pos(),
                self.upcoming().len() < old(self).upcoming().len(),
                args_s(l, i + 1) == prepend(avs, args_s(l, self.pos())),
                args@.len() == avs.len(),
                forall|k: int| 0 <= k < args@.len() ==> expr_is(#[trigger] args@[k], avs[k]),
            decreases self.upcoming().len(),
        {
            proof {
                self.lemma_front();
            }
            let ghost p = self.pos();
            let arg = match self.parse_expr(0) {
                Ok(e) => e,
                Err(e) => {
                    proof {
                        assert(args_s(l, p) == Err::<(Seq<ExprV>, nat), nat>(expr_s(l, p, 0)->Err_0));
                    }
                    return Err(e);
                },
            };
            let ghost v = expr_s(l, p, 0)->Ok_0.0;
            let ghost j = expr_s(l, p, 0)->Ok_0.1;
            let ghost before = args@;
            args.push(arg);
            proof {
                self.lemma_front();
            }
            self.discard(TokenKind::Comma);
            proof {
                assert(self.pos() == skip(l, j, Kind::Comma));
                lemma_prepend_push(avs, v, args_s(l, self.pos()));
                avs = avs.push(v);
                assert forall|k: int| 0 <= k < args@.len() implies expr_is(#[trigger] args@[k], avs[k]) by {
                    if k < before.len() {
                        assert(args@[k] == before[k]);
                    }
                }
            }
        }
        proof {
            self.lemma_front();
            lemma_prepend_empty(avs, self.pos());
        }
        let token = match self.consume(TokenKind::RParen) {
            Ok(t) => t,
            Err(e) => return Err(e),
        };
        Ok((args, token.span))
    }

    /// Extends `lhs` with calls `(args)` and with operators that bind tighter than `prec`,
    /// each rewritten as a call of the operator's name.
    #[verifier::rlimit(100)]
    pub(crate) fn parse_infix(&mut self, lhs: Expr, prec: usize, lv: Ghost<ExprV>) -> (r: Result<
        Expr,
        SyntaxError,
    >)
        requires
            old(self).wf(),
            expr_is(lhs, lv@),
        ensures
            r is Ok ==> final(self).wf(),
            final(self).lexer.chars() == old(self).lexer.chars(),
            r is Ok ==> final(self).upcoming().len() <= old(self).upcoming().len(),
            match infix_s(old(self).stream(), old(self).pos(), lv@.span, lv@, prec as nat) {
                Ok((v, j)) => (r matches Ok(e) && expr_is(e, v)) && final(self).pos() == j,
                Err(j) => r matches Err(e) && failed_at(old(self).stream(), j, e),
            },
        decreases old(self).upcoming().len(), 1nat,
    {
        let ghost l = self.stream();
        let ghost i0 = self.pos();
        let ghost v0 = lv@;
        let start = lhs.span;
        let mut lhs = lhs;
        let ghost mut cv = lv@;
        loop
            invariant
                self.wf(),
                self.lexer.chars() == old(self).lexer.chars(),
                l == self.stream(),
                l == old(self).stream(),
                i0 == old(self).pos(),
                v0 == lv@,
                start == v0.span,
                infix_s(l, i0, start, v0, prec as nat) == infix_s(l, self.pos(), start, cv, prec as nat),
                expr_is(lhs, cv),
                self.upcoming().len() <= old(self).upcoming().len(),
            ensures
                self.wf(),
                self.lexer.chars() == old(self).lexer.chars(),
                l == self.stream(),
                expr_is(lhs, cv),
                self.upcoming().len() <= old(self).upcoming().len(),
                infix_s(l, i0, start, v0, prec as nat) == Ok::<(ExprV, nat), nat>((cv, self.pos())),
            decreases self.upcoming().len(),
        {
            proof {
                self.lemma_front();
            }
            let ghost p = self.pos();
            let (kind, span) = match self.look() {
                Ok(p) => p,
                Err(e) => {
                    proof {
                        assert(infix_s(l, p, start, cv, prec as nat) == Err::<(ExprV, nat), nat>(p));
                    }
                    return Err(e);
                },
            };
            match kind {
                TokenKind::LParen => {
                    let (args, rp) = match self.parse_args() {
                        Ok(a) => a,
                        Err(e) => {
                            proof {
                                match args_s(l, p + 1) {
                                    Ok((vs, j)) => {
                                        assert(!at(l, j, Kind::RParen));
                                        assert(infix_s(l, p, start, cv, prec as nat) == Err::<(ExprV, nat), nat>(j));
                                    },
                                    Err(j) => {
                                        assert(infix_s(l, p, start, cv, prec as nat) == Err::<(ExprV, nat), nat>(j));
                                    },
                                }
                            }
                            return Err(e);
                        },
                    };
                    let ghost avs = args_s(l, p + 1)->Ok_0.0;
                    lhs = Expr { kind: ExprKind::Call(Box::new(lhs), args), span: Span::between(start, rp) };
                    proof {
                        cv = ExprV { kind: ExprKindV::Call(Box::new(cv), avs), span: lhs.span };
                        assert(expr_is(lhs, cv));
                    }
                },
                TokenKind::Operator(op) => {
                    let ghost o = op@;
                    let bin_op = BinaryOp { lexeme: op, span };
                    let op_prec = bin_op.prec();
                    match bin_op.assoc() {
                        OpAssoc::Left => {
                            if op_prec <= prec {
                                break ;
                            }
                        },
                        OpAssoc::Right => {
                            if op_prec < prec {
                                break ;
                            }
                        },
                    }
                    self.advance();
                    let rhs = match self.parse_expr(op_prec) {
                        Ok(e) => e,
                        Err(e) => return Err(e),
                    };
                    let ghost rv = expr_s(l, p + 1, op_prec as nat)->Ok_0.0;
                    let end = rhs.span;
                    let func = Expr { kind: ExprKind::Identifier(bin_op.lexeme), span: bin_op.span };
                    let ghost (a, b) = (lhs, rhs);
                    let mut operands: Vec<Expr> = Vec::new();
                    operands.push(lhs);
                    operands.push(rhs);
                    assert(operands@ =~= seq![a, b]);
                    let bf = Box::new(func);
                    lhs = Expr { kind: ExprKind::Call(bf, operands), span: Span::between(start, end) };
                    proof {
                        let fv = ExprV { kind: ExprKindV::Identifier(o), span: span_at(l, p) };
                        assert(expr_is(*bf, fv));
                        cv = ExprV { kind: ExprKindV::Call(Box::new(fv), seq![cv, rv]), span: lhs.span };
                        assert(expr_is(lhs, cv));
                    }
                },
                TokenKind::Eof | TokenKind::KwThen | TokenKind::KwElse | TokenKind::KwDo
                | TokenKind::RParen | TokenKind::Comma | TokenKind::Separator
                | TokenKind::BlockEnd => break ,
                found => return Err(SyntaxError::InvalidInfixExpr { found, span }),
            }
        }
        Ok(lhs)
    }
}

} // verus!
