//! The abstract syntax tree: declarations, statements, expressions and types, each with a span.
use vstd::prelude::*;
use crate::span::Span;

verus! {

pub type Ast = Vec<Decl>;

#[derive(Debug)]
pub struct Decl {
    pub kind: DeclKind,
    pub span: Span,
}

#[derive(Debug)]
pub enum DeclKind {
    Ty(TyDecl),
    Fn(FnDef),
}

#[derive(Debug)]
pub struct Stmt {
    pub kind: StmtKind,
    pub span: Span,
}

#[derive(Debug)]
pub enum StmtKind {
    TyDecl(TyDecl),
    VarDef(VarDef),
    Expr(Expr),
}

#[derive(Debug)]
pub struct Expr {
    pub kind: ExprKind,
    pub span: Span,
}

#[derive(Debug)]
pub enum ExprKind {
    Boolean(bool),
    Integer(i64),
    Identifier(String),
    If(Box<Expr>, Box<Expr>, Option<Box<Expr>>),
    While(Box<Expr>, Box<Expr>),
    Call(Box<Expr>, Vec<Expr>),
    Block(Vec<Stmt>),
}

#[derive(Debug)]
pub struct Ty {
    pub kind: TyKind,
    pub span: Span,
}

#[derive(Debug)]
pub enum TyKind {
    Single(String),
    Tuple(Vec<Ty>),
    Function(Vec<Ty>, Box<Ty>),
}

#[derive(Debug)]
pub struct TyDecl {
    pub identifier: Identifier,
    pub ty: Ty,
    pub span: Span,
}

#[derive(Debug)]
pub struct FnDef {
    pub func: Identifier,
    pub params: Vec<Identifier>,
    pub body: Expr,
    pub span: Span,
}

#[derive(Debug)]
pub struct VarDef {
    pub var: Identifier,
    pub value: Expr,
    pub span: Span,
}

#[derive(Debug)]
pub struct Identifier {
    pub name: String,
    pub span: Span,
}

/// An operator occurrence, consulted for its precedence and associativity before it is
/// rewritten as a call.
#[derive(Debug)]
pub struct BinaryOp {
    pub lexeme: String,
    pub span: Span,
}

#[derive(Clone, Copy, Debug, PartialEq, Eq, Structural)]
pub enum OpAssoc {
    Left,
    Right,
}

/// Binding strength of an operator lexeme; higher binds tighter.
pub open spec fn precedence(op: Seq<char>) -> nat {
    if op == "||"@ {
        1
    } else if op == "&&"@ {
        2
    } else if op == "=="@ || op == "!="@ {
        3
    } else if op == "<"@ || op == "<="@ || op == ">"@ || op == ">="@ {
        4
    } else if op == "+"@ || op == "-"@ {
        5
    } else if op == "*"@ || op == "/"@ || op == "%"@ {
        6
    } else if op == "**"@ {
        7
    } else {
        8
    }
}

pub open spec fn associativity(op: Seq<char>) -> OpAssoc {
    if op == "**"@ {
        OpAssoc::Right
    } else {
        OpAssoc::Left
    }
}

fn is(s: &String, w: &str) -> (r: bool)
    ensures
        r == (s@ == w@),
{
    let t = String::from_str(w);
    *s == t
}

impl BinaryOp {
    pub fn assoc(&self) -> (r: OpAssoc)
        ensures
            r == associativity(self.lexeme@),
    {
        if is(&self.lexeme, "**") {
            OpAssoc::Right
        } else {
            OpAssoc::Left
        }
    }

    pub fn prec(&self) -> (r: usize)
        ensures
            r == precedence(self.lexeme@),
    {
        let op = &self.lexeme;
        if is(op, "||") {
            1
        } else if is(op, "&&") {
            2
        } else if is(op, "==") || is(op, "!=") {
            3
        } else if is(op, "<") || is(op, "<=") || is(op, ">") || is(op, ">=") {
            4
        } else if is(op, "+") || is(op, "-") {
            5
        } else if is(op, "*") || is(op, "/") || is(op, "%") {
            6
        } else if is(op, "**") {
            7
        } else {
            8
        }
    }
}

} // verus!
