//! The grammar as spec functions over a token stream: what a parse from position `i` yields
//! and where it ends, or the position at which it fails.
use vstd::prelude::*;
use crate::ast::{
    associativity, precedence, Decl, DeclKind, Expr, ExprKind, FnDef, Identifier, OpAssoc, Stmt,
    StmtKind, Ty, TyDecl, TyKind,
};
use crate::layout::Item;
use crate::span::{span_between, Span};
use crate::token::Kind;

verus! {

/// A parse result: the value and the position after it, or the position of the failure.
pub type Parse<V> = Result<(V, nat), nat>;

pub struct IdentV {
    pub name: Seq<char>,
    pub span: Span,
}

/// The value of a type as the grammar describes it.
pub struct TyV {
    pub kind: TyKindV,
    pub span: Span,
}

pub enum TyKindV {
    Single(Seq<char>),
    Tuple(Seq<TyV>),
    Function(Seq<TyV>, Box<TyV>),
}

pub struct TyDeclV {
    pub identifier: IdentV,
    pub ty: TyV,
    pub span: Span,
}

pub struct ExprV {
    pub kind: ExprKindV,
    pub span: Span,
}

pub enum ExprKindV {
    Boolean(bool),
    Integer(int),
    Identifier(Seq<char>),
    If(Box<ExprV>, Box<ExprV>, Option<Box<ExprV>>),
    While(Box<ExprV>, Box<ExprV>),
    Call(Box<ExprV>, Seq<ExprV>),
    Block(Seq<StmtV>),
}

pub struct VarDefV {
    pub var: IdentV,
    pub value: ExprV,
    pub span: Span,
}

pub struct StmtV {
    pub kind: StmtKindV,
    pub span: Span,
}

pub enum StmtKindV {
    TyDecl(TyDeclV),
    VarDef(VarDefV),
    Expr(ExprV),
}

pub struct FnDefV {
    pub func: IdentV,
    pub params: Seq<IdentV>,
    pub body: ExprV,
    pub span: Span,
}

pub enum DeclV {
    Ty(TyDeclV),
    Fn(FnDefV),
}

pub open spec fn kind_at(t: Seq<Item>, i: nat) -> Option<Kind> {
    if i < t.len() {
        match t[i as int] {
            Ok(tv) => Some(tv.kind),
            Err(_) => None,
        }
    } else {
        None
    }
}

pub open spec fn span_at(t: Seq<Item>, i: nat) -> Span {
    if i < t.len() {
        match t[i as int] {
            Ok(tv) => tv.span,
            Err(_) => Span(0, 0),
        }
    } else {
        Span(0, 0)
    }
}

pub open spec fn at(t: Seq<Item>, i: nat, k: Kind) -> bool {
    kind_at(t, i) == Some(k)
}

/// Past an optional token of kind `k`.
pub open spec fn skip(t: Seq<Item>, i: nat, k: Kind) -> nat {
    if at(t, i, k) {
        i + 1
    } else {
        i
    }
}

pub open spec fn prepend<T>(xs: Seq<T>, r: Parse<Seq<T>>) -> Parse<Seq<T>> {
    match r {
        Ok((ys, k)) => Ok((xs + ys, k)),
        Err(k) => Err(k),
    }
}

pub proof fn lemma_prepend_push<T>(xs: Seq<T>, x: T, r: Parse<Seq<T>>)
    ensures
        prepend(xs, prepend(seq![x], r)) == prepend(xs.push(x), r),
{
    match r {
        Ok((ys, k)) => {
            assert(xs + (seq![x] + ys) =~= xs.push(x) + ys);
        },
        Err(_) => {},
    }
}

pub proof fn lemma_prepend_empty<T>(xs: Seq<T>, k: nat)
    ensures
        prepend(xs, Ok((Seq::<T>::empty(), k))) == Ok::<(Seq<T>, nat), nat>((xs, k)),
{
    assert(xs + Seq::<T>::empty() =~= xs);
}

// Types

pub open spec fn params_of(l: TyV) -> Seq<TyV> {
    match l.kind {
        TyKindV::Tuple(ts) => ts,
        _ => seq![l],
    }
}

/// A type from `i`: a name or a tuple, then optionally `-> type`.
pub open spec fn ty_s(t: Seq<Item>, i: nat) -> Parse<TyV>
    decreases t.len() - i, 0nat,
{
    let head: Parse<TyV> = match kind_at(t, i) {
        Some(Kind::Identifier(n)) => Ok((TyV { kind: TyKindV::Single(n), span: span_at(t, i) }, i + 1)),
        Some(Kind::LParen) => match tys_s(t, i + 1) {
            Ok((ts, j)) => if at(t, j, Kind::RParen) {
                Ok((TyV { kind: TyKindV::Tuple(ts), span: span_between(span_at(t, i), span_at(t, j)) }, j + 1))
            } else {
                Err(j)
            },
            Err(j) => Err(j),
        },
        _ => Err(i),
    };
    match head {
        Ok((l, j)) => if at(t, j, Kind::RArrow) && i < j {
            match ty_s(t, j + 1) {
                Ok((r, k)) => Ok((
                    TyV {
                        kind: TyKindV::Function(params_of(l), Box::new(r)),
                        span: span_between(span_at(t, i), r.span),
                    },
                    k,
                )),
                Err(k) => Err(k),
            }
        } else {
            Ok((l, j))
        },
        Err(k) => Err(k),
    }
}

/// Comma-separated types up to a closing parenthesis (not consumed).
pub open spec fn tys_s(t: Seq<Item>, i: nat) -> Parse<Seq<TyV>>
    decreases t.len() - i, 1nat,
{
    if at(t, i, Kind::RParen) {
        Ok((seq![], i))
    } else {
        match ty_s(t, i) {
            Ok((x, j)) => {
                let j2 = skip(t, j, Kind::Comma);
                if i < j2 <= t.len() {
                    prepend(seq![x], tys_s(t, j2))
                } else {
                    Err(j2)
                }
            },
            Err(k) => Err(k),
        }
    }
}

// Expressions and statements

pub open spec fn binds_looser(op: Seq<char>, prec: nat) -> bool {
    match associativity(op) {
        OpAssoc::Left => precedence(op) <= prec,
        OpAssoc::Right => precedence(op) < prec,
    }
}

/// Tokens that end an expression without being part of it.
pub open spec fn ends_expr(k: Kind) -> bool {
    match k {
        Kind::Eof | Kind::KwThen | Kind::KwElse | Kind::KwDo | Kind::RParen | Kind::Comma
        | Kind::Separator | Kind::BlockEnd => true,
        _ => false,
    }
}

/// An expression from `i`, extended by calls and by operators that bind tighter than `prec`.
pub open spec fn expr_s(t: Seq<Item>, i: nat, prec: nat) -> Parse<ExprV>
    decreases t.len() - i, 3nat,
{
    match primary_s(t, i) {
        Ok((lhs, j)) => if i < j <= t.len() {
            infix_s(t, j, lhs.span, lhs, prec)
        } else {
            Err(j)
        },
        Err(k) => Err(k),
    }
}

/// A literal, a name, a keyword form, a parenthesised expression, a prefix operator or a block.
pub open spec fn primary_s(t: Seq<Item>, i: nat) -> Parse<ExprV>
    decreases t.len() - i, 2nat,
{
    let s = span_at(t, i);
    match kind_at(t, i) {
        Some(Kind::Boolean(b)) => Ok((ExprV { kind: ExprKindV::Boolean(b), span: s }, i + 1)),
        Some(Kind::Integer(n)) => Ok((ExprV { kind: ExprKindV::Integer(n), span: s }, i + 1)),
        Some(Kind::Identifier(n)) => Ok((ExprV { kind: ExprKindV::Identifier(n), span: s }, i + 1)),
        Some(Kind::KwIf) => if_s(t, i),
        Some(Kind::KwWhile) => while_s(t, i),
        Some(Kind::LParen) => match expr_s(t, i + 1, 0) {
            Ok((e, j)) => if at(t, j, Kind::RParen) {
                Ok((ExprV { kind: e.kind, span: span_between(s, span_at(t, j)) }, j + 1))
            } else {
                Err(j)
            },
            Err(k) => Err(k),
        },
        Some(Kind::Operator(op)) => match expr_s(t, i + 1, 0) {
            Ok((a, j)) => Ok((
                ExprV {
                    kind: ExprKindV::Call(
                        Box::new(ExprV { kind: ExprKindV::Identifier(op), span: s }),
                        seq![a],
                    ),
                    span: span_between(s, a.span),
                },
                j,
            )),
            Err(k) => Err(k),
        },
        Some(Kind::BlockStart) => block_s(t, i),
        _ => Err(i),
    }
}

/// Where the `else` of an `if` stands, after a `then` branch that ends at `k`: directly, or
/// after one separator.
pub open spec fn else_at(t: Seq<Item>, k: nat) -> Option<nat> {
    if at(t, k, Kind::Separator) && at(t, k + 1, Kind::KwElse) {
        Some(k + 1)
    } else if at(t, k, Kind::KwElse) {
        Some(k)
    } else {
        None
    }
}

/// The rest of an `if` at `i`, after a condition `c` and a `then` branch `th` that ends at `k`:
/// an optional `else` branch.
pub open spec fn if_tail_s(t: Seq<Item>, i: nat, c: ExprV, th: ExprV, k: nat) -> Parse<ExprV>
    decreases t.len() - i, 0nat,
{
    match else_at(t, k) {
        Some(m) => if i < m < t.len() {
            match expr_s(t, m + 1, 0) {
                Ok((el, n)) => Ok((
                    ExprV {
                        kind: ExprKindV::If(Box::new(c), Box::new(th), Some(Box::new(el))),
                        span: span_between(span_at(t, i), el.span),
                    },
                    n,
                )),
                Err(n) => Err(n),
            }
        } else {
            Err(m)
        },
        None => Ok((
            ExprV {
                kind: ExprKindV::If(Box::new(c), Box::new(th), None),
                span: span_between(span_at(t, i), th.span),
            },
            k,
        )),
    }
}

/// `if cond [separator] then expr [[separator] else expr]`, with `if` at `i`.
pub open spec fn if_s(t: Seq<Item>, i: nat) -> Parse<ExprV>
    decreases t.len() - i, 1nat,
{
    if i >= t.len() {
        Err(i)
    } else {
        match expr_s(t, i + 1, 0) {
            Ok((c, j)) => {
                let j1 = skip(t, j, Kind::Separator);
                if at(t, j1, Kind::KwThen) && i < j1 {
                    match expr_s(t, j1 + 1, 0) {
                        Ok((th, k)) => if_tail_s(t, i, c, th, k),
                        Err(k) => Err(k),
                    }
                } else {
                    Err(j1)
                }
            },
            Err(k) => Err(k),
        }
    }
}

/// `while cond [separator] do body`, with `while` at `i`.
pub open spec fn while_s(t: Seq<Item>, i: nat) -> Parse<ExprV>
    decreases t.len() - i, 1nat,
{
    if i >= t.len() {
        Err(i)
    } else {
        match expr_s(t, i + 1, 0) {
            Ok((c, j)) => {
                let j1 = skip(t, j, Kind::Separator);
                if at(t, j1, Kind::KwDo) && i < j1 {
                    match expr_s(t, j1 + 1, 0) {
                        Ok((b, k)) => Ok((
                            ExprV {
                                kind: ExprKindV::While(Box::new(c), Box::new(b)),
                                span: span_between(span_at(t, i), b.span),
                            },
                            k,
                        )),
                        Err(k) => Err(k),
                    }
                } else {
                    Err(j1)
                }
            },
            Err(k) => Err(k),
        }
    }
}

/// A block of statements, with its start at `i`, up to and including its end.
pub open spec fn block_s(t: Seq<Item>, i: nat) -> Parse<ExprV>
    decreases t.len() - i, 1nat,
{
    if i >= t.len() {
        Err(i)
    } else {
        match stmts_s(t, i + 1) {
            Ok((ss, j)) => if at(t, j, Kind::BlockEnd) {
                Ok((
                    ExprV {
                        kind: ExprKindV::Block(ss),
                        span: span_between(span_at(t, i), span_at(t, j)),
                    },
                    j + 1,
                ))
            } else {
                Err(j)
            },
            Err(k) => Err(k),
        }
    }
}

/// Statements, each optionally followed by a separator, up to the end of the block (not
/// consumed).
pub open spec fn stmts_s(t: Seq<Item>, i: nat) -> Parse<Seq<StmtV>>
    decreases t.len() - i, 5nat,
{
    if at(t, i, Kind::BlockEnd) {
        Ok((seq![], i))
    } else {
        match stmt_s(t, i) {
            Ok((st, j)) => {
                let j2 = skip(t, j, Kind::Separator);
                if i < j2 <= t.len() {
                    prepend(seq![st], stmts_s(t, j2))
                } else {
                    Err(j2)
                }
            },
            Err(k) => Err(k),
        }
    }
}

/// A type declaration `name: type`, with `name` at `i` and `:` at `i + 1`.
pub open spec fn ty_decl_s(t: Seq<Item>, i: nat, id: IdentV) -> Parse<TyDeclV> {
    match ty_s(t, i + 2) {
        Ok((ty, j)) => Ok((TyDeclV { identifier: id, ty, span: span_between(id.span, ty.span) }, j)),
        Err(k) => Err(k),
    }
}

/// A statement: `name: type`, `name = expr`, or an expression.
pub open spec fn stmt_s(t: Seq<Item>, i: nat) -> Parse<StmtV>
    decreases t.len() - i, 4nat,
{
    match kind_at(t, i) {
        Some(Kind::Identifier(n)) => {
            let id = IdentV { name: n, span: span_at(t, i) };
            if at(t, i + 1, Kind::Colon) {
                match ty_decl_s(t, i, id) {
                    Ok((d, j)) => Ok((StmtV { kind: StmtKindV::TyDecl(d), span: d.span }, j)),
                    Err(k) => Err(k),
                }
            } else if at(t, i + 1, Kind::Equal) {
                match expr_s(t, i + 2, 0) {
                    Ok((e, j)) => {
                        let s = span_between(id.span, e.span);
                        Ok((StmtV { kind: StmtKindV::VarDef(VarDefV { var: id, value: e, span: s }), span: s }, j))
                    },
                    Err(k) => Err(k),
                }
            } else {
                let lhs = ExprV { kind: ExprKindV::Identifier(n), span: id.span };
                match infix_s(t, i + 1, id.span, lhs, 0) {
                    Ok((e, j)) => Ok((StmtV { kind: StmtKindV::Expr(e), span: e.span }, j)),
                    Err(k) => Err(k),
                }
            }
        },
        _ => match expr_s(t, i, 0) {
            Ok((e, j)) => Ok((StmtV { kind: StmtKindV::Expr(e), span: e.span }, j)),
            Err(k) => Err(k),
        },
    }
}

/// Calls and operators after an operand `lhs` whose span began with `start`.
pub open spec fn infix_s(t: Seq<Item>, i: nat, start: Span, lhs: ExprV, prec: nat) -> Parse<ExprV>
    decreases t.len() - i, 0nat,
{
    match kind_at(t, i) {
        Some(Kind::LParen) => match args_s(t, i + 1) {
            Ok((args, j)) => if at(t, j, Kind::RParen) && i < j {
                infix_s(
                    t,
                    j + 1,
                    start,
                    ExprV {
                        kind: ExprKindV::Call(Box::new(lhs), args),
                        span: span_between(start, span_at(t, j)),
                    },
                    prec,
                )
            } else {
                Err(j)
            },
            Err(k) => Err(k),
        },
        Some(Kind::Operator(op)) => if binds_looser(op, prec) {
            Ok((lhs, i))
        } else {
            match expr_s(t, i + 1, precedence(op)) {
                Ok((rhs, j)) => if i < j <= t.len() {
                    infix_s(
                        t,
                        j,
                        start,
                        ExprV {
                            kind: ExprKindV::Call(
                                Box::new(ExprV { kind: ExprKindV::Identifier(op), span: span_at(t, i) }),
                                seq![lhs, rhs],
                            ),
                            span: span_between(start, rhs.span),
                        },
                        prec,
                    )
                } else {
                    Err(j)
                },
                Err(k) => Err(k),
            }
        },
        Some(k) => if ends_expr(k) {
            Ok((lhs, i))
        } else {
            Err(i)
        },
        None => Err(i),
    }
}

/// Comma-separated arguments up to a closing parenthesis (not consumed).
pub open spec fn args_s(t: Seq<Item>, i: nat) -> Parse<Seq<ExprV>>
    decreases t.len() - i, 6nat,
{
    if at(t, i, Kind::RParen) {
        Ok((seq![], i))
    } else {
        match expr_s(t, i, 0) {
            Ok((a, j)) => {
                let j2 = skip(t, j, Kind::Comma);
                if i < j2 <= t.len() {
                    prepend(seq![a], args_s(t, j2))
                } else {
                    Err(j2)
                }
            },
            Err(k) => Err(k),
        }
    }
}

// Declarations

/// Parameter names, each optionally followed by a comma, up to a closing parenthesis (not
/// consumed).
pub open spec fn params_s(t: Seq<Item>, i: nat) -> Parse<Seq<IdentV>>
    decreases t.len() - i,
{
    if at(t, i, Kind::RParen) {
        Ok((seq![], i))
    } else {
        match kind_at(t, i) {
            Some(Kind::Identifier(n)) => {
                let j2 = skip(t, i + 1, Kind::Comma);
                if j2 <= t.len() {
                    prepend(seq![IdentV { name: n, span: span_at(t, i) }], params_s(t, j2))
                } else {
                    Err(j2)
                }
            },
            _ => Err(i),
        }
    }
}

/// `(params) = body` from `(` at `i`, defining `id`.
pub open spec fn fn_def_s(t: Seq<Item>, i: nat, id: IdentV) -> Parse<FnDefV> {
    match params_s(t, i + 1) {
        Ok((ps, j)) => if !at(t, j, Kind::RParen) {
            Err(j)
        } else if !at(t, j + 1, Kind::Equal) {
            Err(j + 1)
        } else {
            match expr_s(t, j + 2, 0) {
                Ok((body, k)) => Ok((
                    FnDefV { func: id, params: ps, body, span: span_between(id.span, body.span) },
                    k,
                )),
                Err(k) => Err(k),
            }
        },
        Err(k) => Err(k),
    }
}

/// A declaration: `name(params) = body` or `name: type`.
pub open spec fn decl_s(t: Seq<Item>, i: nat) -> Parse<DeclV> {
    match kind_at(t, i) {
        Some(Kind::Identifier(n)) => {
            let id = IdentV { name: n, span: span_at(t, i) };
            if at(t, i + 1, Kind::LParen) {
                match fn_def_s(t, i + 1, id) {
                    Ok((f, j)) => Ok((DeclV::Fn(f), j)),
                    Err(k) => Err(k),
                }
            } else if at(t, i + 1, Kind::Colon) {
                match ty_decl_s(t, i, id) {
                    Ok((d, j)) => Ok((DeclV::Ty(d), j)),
                    Err(k) => Err(k),
                }
            } else {
                Err(i + 1)
            }
        },
        _ => Err(i),
    }
}

/// Declarations, each optionally followed by a separator, up to the end of file.
pub open spec fn decls_s(t: Seq<Item>, i: nat) -> Parse<Seq<DeclV>>
    decreases t.len() - i,
{
    if at(t, i, Kind::Eof) {
        Ok((seq![], i))
    } else {
        match decl_s(t, i) {
            Ok((d, j)) => {
                let j2 = skip(t, j, Kind::Separator);
                if i < j2 <= t.len() {
                    prepend(seq![d], decls_s(t, j2))
                } else {
                    Err(j2)
                }
            },
            Err(k) => Err(k),
        }
    }
}

// The AST values that these describe

pub open spec fn ident_is(x: Identifier, v: IdentV) -> bool {
    x.name@ == v.name && x.span == v.span
}

pub open spec fn ident_of(x: Identifier) -> IdentV {
    IdentV { name: x.name@, span: x.span }
}

pub open spec fn ty_is(x: Ty, v: TyV) -> bool
    decreases x,
{
    x.span == v.span && match x.kind {
        TyKind::Single(n) => v.kind == TyKindV::Single(n@),
        TyKind::Tuple(ts) => v.kind matches TyKindV::Tuple(vs) && ts@.len() == vs.len() && forall|
            i: int,
        | 0 <= i < ts@.len() ==> ty_is(#[trigger] ts@[i], vs[i]),
        TyKind::Function(ps, r) => v.kind matches TyKindV::Function(vs, vr) && ty_is(*r, *vr)
            && ps@.len() == vs.len() && forall|i: int|
            0 <= i < ps@.len() ==> ty_is(#[trigger] ps@[i], vs[i]),
    }
}

pub open spec fn ty_decl_is(x: TyDecl, v: TyDeclV) -> bool {
    ident_is(x.identifier, v.identifier) && ty_is(x.ty, v.ty) && x.span == v.span
}

pub open spec fn expr_is(x: Expr, v: ExprV) -> bool
    decreases x,
{
    x.span == v.span && match x.kind {
        ExprKind::Boolean(b) => v.kind == ExprKindV::Boolean(b),
        ExprKind::Integer(n) => v.kind == ExprKindV::Integer(n as int),
        ExprKind::Identifier(n) => v.kind == ExprKindV::Identifier(n@),
        ExprKind::If(c, th, el) => v.kind matches ExprKindV::If(vc, vt, vel) && expr_is(*c, *vc)
            && expr_is(*th, *vt) && match el {
            Some(x) => vel matches Some(y) && expr_is(*x, *y),
            None => vel is None,
        },
        ExprKind::While(c, b) => v.kind matches ExprKindV::While(vc, vb) && expr_is(*c, *vc)
            && expr_is(*b, *vb),
        ExprKind::Call(f, args) => v.kind matches ExprKindV::Call(vf, vs) && expr_is(*f, *vf)
            && args@.len() == vs.len() && forall|i: int|
            0 <= i < args@.len() ==> expr_is(#[trigger] args@[i], vs[i]),
        ExprKind::Block(ss) => v.kind matches ExprKindV::Block(vs) && ss@.len() == vs.len()
            && forall|i: int| 0 <= i < ss@.len() ==> stmt_is(#[trigger] ss@[i], vs[i]),
    }
}

pub open spec fn stmt_is(x: Stmt, v: StmtV) -> bool
    decreases x,
{
    x.span == v.span && match x.kind {
        StmtKind::TyDecl(d) => v.kind matches StmtKindV::TyDecl(vd) && ty_decl_is(d, vd),
        StmtKind::VarDef(d) => v.kind matches StmtKindV::VarDef(vd) && ident_is(d.var, vd.var)
            && expr_is(d.value, vd.value) && d.span == vd.span,
        StmtKind::Expr(e) => v.kind matches StmtKindV::Expr(ve) && expr_is(e, ve),
    }
}

pub open spec fn fn_def_is(x: FnDef, v: FnDefV) -> bool {
    &&& ident_is(x.func, v.func)
    &&& x.params@.len() == v.params.len()
    &&& forall|i: int| 0 <= i < x.params@.len() ==> ident_is(#[trigger] x.params@[i], v.params[i])
    &&& expr_is(x.body, v.body)
    &&& x.span == v.span
}

pub open spec fn decl_is(x: Decl, v: DeclV) -> bool {
    match (x.kind, v) {
        (DeclKind::Ty(d), DeclV::Ty(vd)) => ty_decl_is(d, vd) && x.span == vd.span,
        (DeclKind::Fn(f), DeclV::Fn(vf)) => fn_def_is(f, vf) && x.span == vf.span,
        _ => false,
    }
}

/// A whole program: its declarations, or the position at which parsing fails.
pub open spec fn program_s(t: Seq<Item>) -> Result<Seq<DeclV>, nat> {
    match decls_s(t, 0) {
        Ok((ds, _)) => Ok(ds),
        Err(k) => Err(k),
    }
}

/// An operator that binds tighter than the current minimum precedence becomes a call of the
/// operator's name, at the operator's span, on the left operand and the right operand parsed at
/// the operator's own precedence; the call spans from the left operand to the right one.
pub proof fn lemma_operator_call(t: Seq<Item>, i: nat, lhs: ExprV, prec: nat, op: Seq<char>)
    requires
        kind_at(t, i) == Some(Kind::Operator(op)),
        !binds_looser(op, prec),
        expr_s(t, i + 1, precedence(op)) is Ok,
        i < expr_s(t, i + 1, precedence(op))->Ok_0.1 <= t.len(),
    ensures
        ({
            let (rhs, j) = expr_s(t, i + 1, precedence(op))->Ok_0;
            infix_s(t, i, lhs.span, lhs, prec) == infix_s(
                t,
                j,
                lhs.span,
                ExprV {
                    kind: ExprKindV::Call(
                        Box::new(ExprV { kind: ExprKindV::Identifier(op), span: span_at(t, i) }),
                        seq![lhs, rhs],
                    ),
                    span: span_between(lhs.span, rhs.span),
                },
                prec,
            )
        }),
{
}

} // verus!
