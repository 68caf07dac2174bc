use rosy_syntax::ast::{Ast, BinaryOp, DeclKind, Expr, ExprKind, OpAssoc, Stmt, StmtKind, Ty, TyKind};
use rosy_syntax::diagnostic::{unrecognized_character, unrecognized_character_named, Diagnostic};
use rosy_syntax::layout::LexError;
use rosy_syntax::lexer::Lexer;
use rosy_syntax::reader::Reader;
use rosy_syntax::span::Span;
use rosy_syntax::token::{Token, TokenKind};
use rosy_syntax::{parse, tokenize};

fn show(e: &Expr) -> String {
    match &e.kind {
        ExprKind::Boolean(b) => format!("{b}"),
        ExprKind::Integer(i) => format!("{i}"),
        ExprKind::Identifier(name) => name.clone(),
        ExprKind::If(c, t, el) => match el {
            Some(x) => format!("(if {} {} {})", show(c), show(t), show(x)),
            None => format!("(if {} {})", show(c), show(t)),
        },
        ExprKind::While(c, b) => format!("(while {} {})", show(c), show(b)),
        ExprKind::Call(f, args) => {
            let mut parts = vec![show(f)];
            for a in args {
                parts.push(show(a));
            }
            format!("({})", parts.join(" "))
        },
        ExprKind::Block(stmts) => {
            let parts: Vec<String> = stmts.iter().map(show_stmt).collect();
            format!("{{{}}}", parts.join("; "))
        },
    }
}

fn show_stmt(s: &Stmt) -> String {
    match &s.kind {
        StmtKind::TyDecl(d) => format!("{}: {}", d.identifier.name, show_ty(&d.ty)),
        StmtKind::VarDef(v) => format!("{} = {}", v.var.name, show(&v.value)),
        StmtKind::Expr(e) => show(e),
    }
}

fn show_ty(t: &Ty) -> String {
    match &t.kind {
        TyKind::Single(n) => n.clone(),
        TyKind::Tuple(ts) => format!("({})", ts.iter().map(show_ty).collect::<Vec<_>>().join(", ")),
        TyKind::Function(ps, r) => {
            format!("[{}] -> {}", ps.iter().map(show_ty).collect::<Vec<_>>().join(", "), show_ty(r))
        },
    }
}

fn parse_ok(src: &str) -> Ast {
    match parse(src) {
        Ok(ast) => ast,
        Err(d) => panic!("unexpected error: {}", d.title),
    }
}

fn body(src: &str) -> String {
    let ast = parse_ok(src);
    assert_eq!(ast.len(), 1);
    match &ast[0].kind {
        DeclKind::Fn(f) => show(&f.body),
        DeclKind::Ty(_) => panic!("expected a function"),
    }
}

fn parse_err(src: &str) -> Diagnostic {
    match parse(src) {
        Ok(_) => panic!("expected an error"),
        Err(d) => d,
    }
}

fn kinds(src: &str) -> Vec<TokenKind> {
    tokenize(src)
        .into_iter()
        .map(|r| match r {
            Ok(t) => t.kind,
            Err(e) => panic!("lexical error: {:?}", e),
        })
        .collect()
}

#[test]
fn multiplication_binds_tighter_than_addition() {
    assert_eq!(body("f() = 1 + 2 * 3"), "(+ 1 (* 2 3))");
}

#[test]
fn power_is_right_associative() {
    assert_eq!(body("f() = 2 ** 3 ** 2"), "(** 2 (** 3 2))");
}

#[test]
fn subtraction_is_left_associative() {
    assert_eq!(body("f() = 1 - 2 - 3"), "(- (- 1 2) 3)");
}

#[test]
fn unknown_operators_bind_tightest() {
    assert_eq!(body("f() = a + b <> c"), "(+ a (<> b c))");
}

#[test]
fn comparison_below_arithmetic() {
    assert_eq!(body("f() = a < b + 1"), "(< a (+ b 1))");
}

#[test]
fn call_with_two_arguments() {
    assert_eq!(body("g() = f(x, y)"), "(f x y)");
}

#[test]
fn chained_calls() {
    assert_eq!(body("g() = f(x)(y)"), "((f x) y)");
}

#[test]
fn trailing_comma_in_arguments() {
    assert_eq!(body("g() = f(x, y,)"), "(f x y)");
}

#[test]
fn prefix_operator_is_a_call() {
    assert_eq!(body("g() = - x"), "(- x)");
}

#[test]
fn parentheses_group_without_a_node() {
    assert_eq!(body("g() = (1 + 2) * 3"), "(* (+ 1 2) 3)");
    let ast = parse_ok("g() = (1 + 2) * 3");
    if let DeclKind::Fn(f) = &ast[0].kind {
        assert_eq!(f.body.span, Span(6, 17));
        if let ExprKind::Call(_, args) = &f.body.kind {
            assert_eq!(args[0].span, Span(6, 13));
        } else {
            panic!("expected a call");
        }
    }
}

#[test]
fn inline_if_with_else() {
    assert_eq!(body("f(c) = if c then t else e"), "(if c t e)");
}

#[test]
fn else_on_its_own_line() {
    assert_eq!(body("f(c) =\n  if c then t\n  else e"), "{(if c t e)}");
}

#[test]
fn if_without_else() {
    assert_eq!(body("f(c) = if c then t"), "(if c t)");
}

#[test]
fn if_without_else_keeps_separator() {
    assert_eq!(body("f(c) =\n  if c then t\n  u"), "{(if c t); u}");
}

#[test]
fn while_loop() {
    assert_eq!(body("f(c) = while c do g(c)"), "(while c (g c))");
}

#[test]
fn block_with_statements() {
    let src = "f(x) =\n  y = x + 1\n  z: int\n  g(y)";
    assert_eq!(body(src), "{y = (+ x 1); z: int; (g y)}");
}

#[test]
fn nested_blocks() {
    let src = "f(x) =\n  if x then\n    a\n    b\n  else\n    c\ng: int";
    let ast = parse_ok(src);
    assert_eq!(ast.len(), 2);
    match &ast[0].kind {
        DeclKind::Fn(f) => assert_eq!(show(&f.body), "{(if x {a; b} {c})}"),
        DeclKind::Ty(_) => panic!("expected a function"),
    }
}

#[test]
fn type_declarations() {
    let ast = parse_ok("t: (a, b) -> c\nu: a -> b -> c\nv: (a, b)\nw: ()");
    let tys: Vec<String> = ast
        .iter()
        .map(|d| match &d.kind {
            DeclKind::Ty(t) => show_ty(&t.ty),
            DeclKind::Fn(_) => panic!("expected a type"),
        })
        .collect();
    assert_eq!(tys, vec!["[a, b] -> c", "[a] -> [b] -> c", "(a, b)", "()"]);
}

#[test]
fn declaration_spans() {
    let ast = parse_ok("add(a, b) = a + b\nt: x -> y");
    assert_eq!(ast.len(), 2);
    match &ast[0].kind {
        DeclKind::Fn(f) => {
            assert_eq!(f.span, Span(0, 17));
            assert_eq!(ast[0].span, f.span);
            assert_eq!(f.params.len(), 2);
            assert_eq!(f.body.span, Span(12, 17));
        },
        DeclKind::Ty(_) => panic!("expected a function"),
    }
    match &ast[1].kind {
        DeclKind::Ty(t) => {
            assert_eq!(t.span, Span(18, 27));
            assert_eq!(t.ty.span, Span(21, 27));
        },
        DeclKind::Fn(_) => panic!("expected a type"),
    }
}

#[test]
fn empty_source_has_no_declarations() {
    assert_eq!(parse_ok("").len(), 0);
    assert_eq!(parse_ok("  \n\n ").len(), 0);
}

#[test]
fn declaration_needs_parenthesis_or_colon() {
    let d = parse_err("x = 1");
    assert_eq!(d.title, "invalid declaration");
    assert_eq!(d.labels[0], (String::from("found: equal sign"), Span(2, 3)));
    assert_eq!(d.labels[1], (String::from("identifier to be defined"), Span(0, 1)));
}

#[test]
fn unrecognized_character_before_type_error() {
    let d = parse_err("x: @");
    assert_eq!(d.title, "unrecognized character");
    assert_eq!(d.labels[0], (String::from("character: COMMERCIAL AT (0x40)"), Span(3, 4)));
}

#[test]
fn invalid_type_start() {
    let d = parse_err("x: 1");
    assert_eq!(d.title, "invalid type");
    assert_eq!(d.labels[0], (String::from("found: integer (1)"), Span(3, 4)));
    assert_eq!(d.note, "types must start with identifier or left parenthesis");
}

#[test]
fn invalid_expression_start() {
    let d = parse_err("f() = )");
    assert_eq!(d.title, "invalid expression");
    assert_eq!(d.labels[0], (String::from("found: right parenthesis"), Span(6, 7)));
}

#[test]
fn invalid_infix_token() {
    let d = parse_err("f() = a b");
    assert_eq!(d.title, "invalid infix expression");
    assert_eq!(d.labels[0], (String::from("found: identifier (b)"), Span(8, 9)));
}

#[test]
fn invalid_identifier_at_top_level() {
    let d = parse_err("1");
    assert_eq!(d.title, "invalid identifier");
    assert_eq!(d.labels[0], (String::from("found: integer (1)"), Span(0, 1)));
}

#[test]
fn missing_then() {
    let d = parse_err("f(c) = if c else d");
    assert_eq!(d.title, "unexpected token");
    assert_eq!(d.note, "expected keyword (then), but found keyword (else)");
    assert_eq!(d.labels[0].1, Span(12, 16));
}

#[test]
fn dedent_between_levels_is_inconsistent() {
    let d = parse_err("f() =\n    a\n  b");
    assert_eq!(d.title, "inconsistent indent");
    assert_eq!(d.labels[0], (String::from("indent level: 2"), Span(12, 14)));
}

#[test]
fn dedent_between_levels_in_token_stream() {
    let items = tokenize("f() =\n    a\n  b");
    match items.last() {
        Some(Err(LexError::InconsistentIndent { indent, span })) => {
            assert_eq!(*indent, 2);
            assert_eq!(*span, Span(12, 14));
        },
        other => panic!("unexpected {:?}", other),
    }
}

#[test]
fn block_body_must_be_indented() {
    let d = parse_err("f() =\nx");
    assert_eq!(d.title, "insufficient indent");
    assert_eq!(d.labels[0], (String::from("indent level: 0"), Span(6, 6)));
    assert_eq!(d.note, "indent level needs to be at least 1");
}

#[test]
fn nested_body_must_pass_enclosing_indent() {
    let d = parse_err("f() =\n  if a then\n  b");
    assert_eq!(d.title, "insufficient indent");
    assert_eq!(d.note, "indent level needs to be at least 3");
}

#[test]
fn integer_literal_out_of_range() {
    let d = parse_err("f() = 99999999999999999999");
    assert_eq!(d.title, "integer out of range");
    assert_eq!(d.labels[0].1, Span(6, 26));
    assert_eq!(body("f() = 9223372036854775807"), "9223372036854775807");
}

#[test]
fn block_tokens_balance() {
    let ks = kinds("f(x) =\n  if x then\n    a\n  else\n    b\n      + c\ng: t");
    let starts = ks.iter().filter(|k| **k == TokenKind::BlockStart).count();
    let ends = ks.iter().filter(|k| **k == TokenKind::BlockEnd).count();
    assert_eq!(starts, 3);
    assert_eq!(starts, ends);
    assert_eq!(ks.last(), Some(&TokenKind::Eof));
}

#[test]
fn blocks_closed_before_eof() {
    let ks = kinds("f() =\n  a =\n    b");
    let n = ks.len();
    assert_eq!(ks[n - 3..], [TokenKind::BlockEnd, TokenKind::BlockEnd, TokenKind::Eof]);
}

#[test]
fn lexing_is_deterministic() {
    let src = "f(x) =\n  y = x ** 2\n  if y > 3 then y else -y";
    let a = tokenize(src);
    let b = tokenize(src);
    assert_eq!(a.len(), b.len());
    for (x, y) in a.iter().zip(b.iter()) {
        match (x, y) {
            (Ok(p), Ok(q)) => {
                assert_eq!(p.kind, q.kind);
                assert_eq!(p.span, q.span);
            },
            _ => panic!("unexpected lexical error"),
        }
    }
}

#[test]
fn token_classification() {
    let ks = kinds("if then else while do true false x' 42 ( ) , : = -> <= !x");
    assert_eq!(
        ks,
        vec![
            TokenKind::KwIf,
            TokenKind::KwThen,
            TokenKind::KwElse,
            TokenKind::KwWhile,
            TokenKind::KwDo,
            TokenKind::Boolean(true),
            TokenKind::Boolean(false),
            TokenKind::Identifier(String::from("x'")),
            TokenKind::Integer(42),
            TokenKind::LParen,
            TokenKind::RParen,
            TokenKind::Comma,
            TokenKind::Colon,
            TokenKind::Equal,
            TokenKind::RArrow,
            TokenKind::Operator(String::from("<=")),
            TokenKind::Operator(String::from("!")),
            TokenKind::Identifier(String::from("x")),
            TokenKind::Eof,
        ]
    );
}

#[test]
fn separators_at_equal_indent() {
    let ks = kinds("a: t\nb: u");
    assert_eq!(ks[3], TokenKind::Separator);
}

#[test]
fn token_names() {
    assert_eq!(TokenKind::Integer(-5).name(), "integer (-5)");
    assert_eq!(TokenKind::Integer(i64::MIN).name(), "integer (-9223372036854775808)");
    assert_eq!(TokenKind::Boolean(true).name(), "boolean (true)");
    assert_eq!(TokenKind::Identifier(String::from("foo")).name(), "identifier (foo)");
    assert_eq!(TokenKind::Operator(String::from("+")).name(), "operator (+)");
    assert_eq!(TokenKind::Separator.name(), "newline");
    assert_eq!(TokenKind::Eof.name(), "end of file");
}

#[test]
fn operator_table() {
    let op = |s: &str| BinaryOp { lexeme: String::from(s), span: Span(0, 0) };
    assert_eq!(op("||").prec(), 1);
    assert_eq!(op("&&").prec(), 2);
    assert_eq!(op("!=").prec(), 3);
    assert_eq!(op(">=").prec(), 4);
    assert_eq!(op("-").prec(), 5);
    assert_eq!(op("%").prec(), 6);
    assert_eq!(op("**").prec(), 7);
    assert_eq!(op("<>").prec(), 8);
    assert_eq!(op("**").assoc(), OpAssoc::Right);
    assert_eq!(op("+").assoc(), OpAssoc::Left);
}

#[test]
fn span_constructors() {
    assert_eq!(Span::new(2, 5), Span(2, 5));
    assert_eq!(Span::pair(4), Span(4, 4));
    assert_eq!(Span::between(Span(1, 3), Span(7, 9)), Span(1, 9));
}

#[test]
fn reader_tracks_offsets_lines_and_columns() {
    let mut r = Reader::new("a\né b");
    assert_eq!(r.next(), 'a');
    assert_eq!((r.index, r.ln, r.col), (1, 1, 2));
    assert_eq!(r.next(), '\n');
    assert_eq!((r.index, r.ln, r.col), (2, 2, 1));
    assert_eq!(r.next(), 'é');
    assert_eq!((r.index, r.ln, r.col), (4, 2, 2));
    r.skip_whitespace(false);
    assert_eq!(r.peek(), 'b');
    r.next();
    assert!(r.eof());
    assert_eq!(r.next(), '\0');
}

#[test]
fn reader_whitespace_stops_at_newline() {
    let mut r = Reader::new("  \n  x");
    r.skip_whitespace(false);
    assert_eq!(r.peek(), '\n');
    r.skip_whitespace(true);
    assert_eq!(r.peek(), 'x');
    assert_eq!(r.col, 3);
}

#[test]
fn unrecognized_non_ascii_span_is_in_bytes() {
    let d = parse_err("x: é");
    assert_eq!(d.labels[0], (String::from("character: LATIN SMALL LETTER E WITH ACUTE (0xe9)"), Span(3, 5)));
}

#[test]
fn unrecognized_character_message() {
    let d = unrecognized_character('&', Span(0, 1));
    assert_eq!(d.labels[0].0, "character: AMPERSAND (0x26)");
    let e = unrecognized_character_named('&', "SIGN", Span(0, 1));
    assert_eq!(e.labels[0].0, "character: SIGN (0x26)");
    assert_eq!(e.note, "character is not recognized as a valid identifier or symbol");
}

#[test]
fn restore_puts_token_in_front() {
    let mut lexer = Lexer::new(Reader::new("a b"));
    let first = lexer.next().ok().unwrap();
    assert_eq!(first.kind, TokenKind::Identifier(String::from("a")));
    lexer.restore(Token { kind: TokenKind::Comma, span: Span(9, 9) });
    match lexer.peek() {
        Ok(t) => assert_eq!((&t.kind, t.span), (&TokenKind::Comma, Span(9, 9))),
        Err(e) => panic!("unexpected {:?}", e),
    }
    assert!(matches!(lexer.next(), Ok(Token { kind: TokenKind::Comma, .. })));
    assert!(matches!(lexer.next(), Ok(Token { kind: TokenKind::Identifier(_), .. })));
    assert!(lexer.eof());
}

#[test]
fn statement_spans_in_block() {
    let ast = parse_ok("f(x) =\n  y = x + 1\n  g(y)");
    match &ast[0].kind {
        DeclKind::Fn(f) => match &f.body.kind {
            ExprKind::Block(stmts) => {
                assert_eq!(stmts.len(), 2);
                match &stmts[0].kind {
                    StmtKind::VarDef(v) => {
                        assert_eq!(v.span, Span(9, 18));
                        assert_eq!(stmts[0].span, v.span);
                        assert_eq!(v.value.span, Span(13, 18));
                    },
                    _ => panic!("expected a definition"),
                }
                assert_eq!(stmts[1].span, Span(21, 25));
                assert_eq!(f.body.span, Span(9, 25));
            },
            _ => panic!("expected a block"),
        },
        DeclKind::Ty(_) => panic!("expected a function"),
    }
}

#[test]
fn binary_operator_call_spans() {
    let ast = parse_ok("f() = a * b + c");
    match &ast[0].kind {
        DeclKind::Fn(f) => match &f.body.kind {
            ExprKind::Call(op, args) => {
                assert_eq!(op.span, Span(12, 13));
                assert_eq!(f.body.span, Span(6, 15));
                assert_eq!(args[0].span, Span(6, 11));
                assert_eq!(args[1].span, Span(14, 15));
            },
            _ => panic!("expected a call"),
        },
        DeclKind::Ty(_) => panic!("expected a function"),
    }
}
