//! The layout rule and token classification, stated over the source's code points.
use vstd::prelude::*;
use crate::reader::{char_at, col_at, is_ascii_ws, lemma_skip_ws, line_at, offset, skip_ws};
use crate::span::Span;
use crate::token::{Kind, TokenView};

verus! {

/// A lexical error: what went wrong, and where.
#[derive(Clone, Copy, Debug, PartialEq, Eq, Structural)]
pub enum LexError {
    /// A dedent whose column matches no enclosing block.
    InconsistentIndent { indent: usize, span: Span },
    /// A block body not indented further than its enclosing block.
    InsufficientIndent { indent: usize, min_indent: usize, span: Span },
    /// A character that starts no token.
    UnrecognizedCharacter { c: char, span: Span },
    /// A decimal literal beyond the range of a 64-bit signed integer.
    IntegerOutOfRange { span: Span },
}

/// One unit of the lexer's output.
pub type Item = Result<TokenView, LexError>;

pub open spec fn is_ident_start(c: char) -> bool {
    ('a' <= c && c <= 'z') || ('A' <= c && c <= 'Z') || ('0' <= c && c <= '9') || c == '_'
}

pub open spec fn is_ident_char(c: char) -> bool {
    is_ident_start(c) || c == '!' || c == '\'' || c == '?'
}

pub open spec fn is_symbol_char(c: char) -> bool {
    c == '(' || c == ')' || c == ',' || c == ':'
}

pub open spec fn is_operator_char(c: char) -> bool {
    c == '!' || c == '*' || c == '+' || c == '-' || c == '/' || c == '<' || c == '=' || c == '>'
}

/// End of the identifier run that starts at `p`.
pub open spec fn ident_end(cs: Seq<char>, p: nat) -> nat
    decreases cs.len() - p,
{
    if p < cs.len() && is_ident_char(cs[p as int]) {
        ident_end(cs, p + 1)
    } else {
        p
    }
}

/// End of the operator run that starts at `p`.
pub open spec fn operator_end(cs: Seq<char>, p: nat) -> nat
    decreases cs.len() - p,
{
    if p < cs.len() && is_operator_char(cs[p as int]) {
        operator_end(cs, p + 1)
    } else {
        p
    }
}

pub open spec fn is_digit(c: char) -> bool {
    '0' <= c && c <= '9'
}

pub open spec fn all_digits(t: Seq<char>) -> bool {
    forall|i: int| 0 <= i < t.len() ==> is_digit(#[trigger] t[i])
}

/// The value of a run of decimal digits.
pub open spec fn digits_value(t: Seq<char>) -> nat
    decreases t.len(),
{
    if t.len() == 0 {
        0
    } else {
        digits_value(t.drop_last()) * 10 + ((t.last() as u32) - ('0' as u32)) as nat
    }
}

/// The kind of an identifier-like word; `None` for a decimal literal out of range.
pub open spec fn word_kind(t: Seq<char>) -> Option<Kind> {
    if t == "true"@ {
        Some(Kind::Boolean(true))
    } else if t == "false"@ {
        Some(Kind::Boolean(false))
    } else if t == "if"@ {
        Some(Kind::KwIf)
    } else if t == "then"@ {
        Some(Kind::KwThen)
    } else if t == "else"@ {
        Some(Kind::KwElse)
    } else if t == "while"@ {
        Some(Kind::KwWhile)
    } else if t == "do"@ {
        Some(Kind::KwDo)
    } else if all_digits(t) {
        if digits_value(t) <= i64::MAX {
            Some(Kind::Integer(digits_value(t) as int))
        } else {
            None
        }
    } else {
        Some(Kind::Identifier(t))
    }
}

pub open spec fn operator_kind(t: Seq<char>) -> Kind {
    if t == "="@ {
        Kind::Equal
    } else if t == "->"@ {
        Kind::RArrow
    } else {
        Kind::Operator(t)
    }
}

pub open spec fn symbol_kind(c: char) -> Kind {
    if c == '(' {
        Kind::LParen
    } else if c == ')' {
        Kind::RParen
    } else if c == ',' {
        Kind::Comma
    } else {
        Kind::Colon
    }
}

/// Tokens after which a new indented block may begin.
pub open spec fn is_layout(k: Kind) -> bool {
    match k {
        Kind::KwIf | Kind::KwThen | Kind::KwElse | Kind::KwWhile | Kind::KwDo | Kind::Equal
        | Kind::RArrow => true,
        _ => false,
    }
}

/// The effect of one lexing step: what it emits, and the position and indent stack after it.
pub struct Step {
    pub items: Seq<Item>,
    pub pos: nat,
    pub indents: Seq<usize>,
}

pub open spec fn tok(kind: Kind, start: nat, end: nat) -> Item {
    Ok(TokenView { kind, span: Span(start as usize, end as usize) })
}

/// `n` block ends, all at offset `at`.
pub open spec fn block_ends(n: nat, at: nat) -> Seq<Item> {
    Seq::new(n, |i: int| tok(Kind::BlockEnd, at, at))
}

/// The indent stack after closing every block more indented than column `c`.
pub open spec fn pop_while(ind: Seq<usize>, c: nat) -> Seq<usize>
    decreases ind.len(),
{
    if ind.len() > 0 && c < ind.last() {
        pop_while(ind.drop_last(), c)
    } else {
        ind
    }
}

/// From the start of the line of `q` up to `q`.
pub open spec fn indent_span(cs: Seq<char>, q: nat) -> Span {
    Span((offset(cs, q) - (col_at(cs, q) - 1)) as usize, offset(cs, q) as usize)
}

/// Indentation at the start of a line: close blocks on a dedent, separate on an equal indent.
pub open spec fn detect(cs: Seq<char>, p: nat, ind: Seq<usize>) -> Step {
    let q = skip_ws(cs, p, true);
    if char_at(cs, q) == '\0' {
        Step { items: seq![], pos: q, indents: ind }
    } else if ind.len() == 0 {
        Step { items: seq![], pos: q, indents: seq![1usize] }
    } else {
        let c = col_at(cs, q);
        let kept = pop_while(ind, c);
        let ends = block_ends((ind.len() - kept.len()) as nat, offset(cs, q));
        let tail = if kept.len() > 0 && kept.last() == c {
            seq![tok(Kind::Separator, offset(cs, q), offset(cs, q))]
        } else if kept.len() < ind.len() {
            seq![
                Err(
                    LexError::InconsistentIndent {
                        indent: (c - 1) as usize,
                        span: indent_span(cs, q),
                    },
                ),
            ]
        } else {
            seq![]
        };
        Step { items: ends + tail, pos: q, indents: kept }
    }
}

/// After a layout-introducing token: open a block when the body starts on a new line.
pub open spec fn prepare(cs: Seq<char>, p: nat, ind: Seq<usize>) -> Step {
    let q = skip_ws(cs, p, true);
    if char_at(cs, q) == '\0' {
        Step { items: seq![], pos: q, indents: ind }
    } else {
        let c = col_at(cs, q);
        if c <= ind.last() {
            Step {
                items: seq![
                    Err(
                        LexError::InsufficientIndent {
                            indent: (c - 1) as usize,
                            min_indent: ind.last(),
                            span: indent_span(cs, q),
                        },
                    ),
                ],
                pos: q,
                indents: ind,
            }
        } else if line_at(cs, p) != line_at(cs, q) {
            Step {
                items: seq![tok(Kind::BlockStart, offset(cs, q), offset(cs, q))],
                pos: q,
                indents: ind.push(c as usize),
            }
        } else {
            Step { items: seq![], pos: q, indents: ind }
        }
    }
}

/// A token that ends at `e`, followed by `prepare` when it introduces a layout block.
pub open spec fn emit(cs: Seq<char>, item: Item, layout: bool, e: nat, ind: Seq<usize>) -> Step {
    if layout {
        let s = prepare(cs, e, ind);
        Step { items: seq![item] + s.items, pos: s.pos, indents: s.indents }
    } else {
        Step { items: seq![item], pos: e, indents: ind }
    }
}

/// One request for tokens: everything produced until at least one item is ready.
pub open spec fn gen(cs: Seq<char>, p: nat, ind: Seq<usize>) -> Step
    decreases cs.len() - p,
{
    let c = char_at(cs, p);
    if c == '\n' {
        let d = detect(cs, p, ind);
        if p < d.pos <= cs.len() {
            let g = gen(cs, d.pos, d.indents);
            Step { items: d.items + g.items, pos: g.pos, indents: g.indents }
        } else {
            d
        }
    } else if is_ascii_ws(c) {
        let q = skip_ws(cs, p, false);
        if p < q <= cs.len() {
            gen(cs, q, ind)
        } else {
            Step { items: seq![], pos: p, indents: ind }
        }
    } else if is_ident_start(c) {
        let e = ident_end(cs, p);
        match word_kind(cs.subrange(p as int, e as int)) {
            Some(k) => emit(cs, tok(k, offset(cs, p), offset(cs, e)), is_layout(k), e, ind),
            None => Step {
                items: seq![
                    Err(
                        LexError::IntegerOutOfRange {
                            span: Span(offset(cs, p) as usize, offset(cs, e) as usize),
                        },
                    ),
                ],
                pos: e,
                indents: ind,
            },
        }
    } else if is_symbol_char(c) {
        Step {
            items: seq![tok(symbol_kind(c), offset(cs, p), offset(cs, p + 1))],
            pos: p + 1,
            indents: ind,
        }
    } else if is_operator_char(c) {
        let e = operator_end(cs, p);
        let k = operator_kind(cs.subrange(p as int, e as int));
        emit(cs, tok(k, offset(cs, p), offset(cs, e)), is_layout(k), e, ind)
    } else if c == '\0' {
        let n: nat = if ind.len() > 1 { (ind.len() - 1) as nat } else { 0 };
        Step {
            items: block_ends(n, offset(cs, p)).push(tok(Kind::Eof, offset(cs, p), offset(cs, p))),
            pos: p,
            indents: if ind.len() > 1 { ind.take(1) } else { ind },
        }
    } else {
        Step {
            items: seq![
                Err(
                    LexError::UnrecognizedCharacter {
                        c,
                        span: Span(offset(cs, p) as usize, offset(cs, p + 1) as usize),
                    },
                ),
            ],
            pos: p + 1,
            indents: ind,
        }
    }
}

/// An item after which the lexer has nothing more to say: end of file, or an error.
pub open spec fn is_stop(it: Item) -> bool {
    match it {
        Ok(t) => t.kind is Eof,
        Err(_) => true,
    }
}

/// `s` up to and including its first stop.
pub open spec fn through_stop(s: Seq<Item>) -> Seq<Item>
    decreases s.len(),
{
    if s.len() == 0 {
        s
    } else if is_stop(s[0]) {
        seq![s[0]]
    } else {
        seq![s[0]] + through_stop(s.drop_first())
    }
}

pub open spec fn has_stop(s: Seq<Item>) -> bool {
    exists|i: int| 0 <= i < s.len() && is_stop(#[trigger] s[i])
}

/// Everything the lexer delivers from position `p` with stack `ind`, up to the first stop.
pub open spec fn stream_from(cs: Seq<char>, p: nat, ind: Seq<usize>) -> Seq<Item>
    decreases cs.len() - p,
{
    let g = gen(cs, p, ind);
    if has_stop(g.items) {
        through_stop(g.items)
    } else if p < g.pos <= cs.len() {
        g.items + stream_from(cs, g.pos, g.indents)
    } else {
        g.items
    }
}

/// The whole token stream of a source text, up to end of file or the first lexical error.
pub open spec fn lex(cs: Seq<char>) -> Seq<Item> {
    let d = detect(cs, 0, seq![]);
    stream_from(cs, d.pos, d.indents)
}

pub proof fn lemma_through_stop_idem(s: Seq<Item>)
    ensures
        through_stop(through_stop(s)) == through_stop(s),
        s.len() > 0 ==> through_stop(s).len() > 0,
        through_stop(s).len() <= s.len(),
    decreases s.len(),
{
    if s.len() > 0 && !is_stop(s[0]) {
        lemma_through_stop_idem(s.drop_first());
        let t = through_stop(s);
        assert(t.drop_first() =~= through_stop(s.drop_first()));
    }
}

pub proof fn lemma_through_stop_concat(a: Seq<Item>, b: Seq<Item>)
    ensures
        has_stop(a) ==> through_stop(a + b) == through_stop(a),
        !has_stop(a) ==> through_stop(a + b) == a + through_stop(b),
    decreases a.len(),
{
    if a.len() == 0 {
        assert(a + b =~= b);
    } else {
        assert((a + b)[0] == a[0]);
        assert((a + b).drop_first() =~= a.drop_first() + b);
        lemma_through_stop_concat(a.drop_first(), b);
        if !is_stop(a[0]) {
            if has_stop(a) {
                let i = choose|i: int| 0 <= i < a.len() && is_stop(#[trigger] a[i]);
                assert(a.drop_first()[i - 1] == a[i]);
            } else {
                assert forall|i: int| 0 <= i < a.drop_first().len() implies !is_stop(
                    #[trigger] a.drop_first()[i],
                ) by {
                    assert(a.drop_first()[i] == a[i + 1]);
                }
                assert(seq![a[0]] + (a.drop_first() + through_stop(b)) =~= a + through_stop(b));
            }
        }
    }
}

pub proof fn lemma_run_ends(cs: Seq<char>, p: nat)
    requires
        p <= cs.len(),
    ensures
        p <= ident_end(cs, p) <= cs.len(),
        p <= operator_end(cs, p) <= cs.len(),
        p < cs.len() && is_ident_char(cs[p as int]) ==> p < ident_end(cs, p),
        p < cs.len() && is_operator_char(cs[p as int]) ==> p < operator_end(cs, p),
    decreases cs.len() - p,
{
    if p < cs.len() {
        lemma_run_ends(cs, p + 1);
    }
}

/// Each request yields at least one item, and either a stop or progress through the input.
pub proof fn lemma_gen_progress(cs: Seq<char>, p: nat, ind: Seq<usize>)
    requires
        p <= cs.len(),
    ensures
        gen(cs, p, ind).pos <= cs.len(),
        gen(cs, p, ind).items.len() > 0,
        has_stop(gen(cs, p, ind).items) || p < gen(cs, p, ind).pos,
    decreases cs.len() - p,
{
    let c = char_at(cs, p);
    let g = gen(cs, p, ind);
    lemma_skip_ws(cs, p, true);
    lemma_skip_ws(cs, p, false);
    lemma_run_ends(cs, p);
    if c == '\n' {
        let d = detect(cs, p, ind);
        assert(skip_ws(cs, p, true) == skip_ws(cs, p + 1, true));
        lemma_skip_ws(cs, p + 1, true);
        lemma_gen_progress(cs, d.pos, d.indents);
        let h = gen(cs, d.pos, d.indents);
        if has_stop(h.items) {
            let i = choose|i: int| 0 <= i < h.items.len() && is_stop(#[trigger] h.items[i]);
            assert(g.items[d.items.len() + i] == h.items[i]);
        }
    } else if is_ascii_ws(c) {
        assert(skip_ws(cs, p, false) == skip_ws(cs, p + 1, false));
        lemma_skip_ws(cs, p + 1, false);
        lemma_gen_progress(cs, skip_ws(cs, p, false), ind);
    } else if is_ident_start(c) {
        let e = ident_end(cs, p);
        lemma_skip_ws(cs, e, true);
        match word_kind(cs.subrange(p as int, e as int)) {
            Some(k) => {
            },
            None => {
                assert(is_stop(g.items[0]));
            },
        }
    } else if is_symbol_char(c) {
    } else if is_operator_char(c) {
        let e = operator_end(cs, p);
        lemma_skip_ws(cs, e, true);
    } else if c == '\0' {
        assert(is_stop(g.items[g.items.len() - 1]));
    } else {
        assert(is_stop(g.items[0]));
    }
}

/// The stream from any position is non-empty and ends at its first stop.
pub proof fn lemma_stream_closed(cs: Seq<char>, p: nat, ind: Seq<usize>)
    requires
        p <= cs.len(),
    ensures
        stream_from(cs, p, ind).len() > 0,
        through_stop(stream_from(cs, p, ind)) == stream_from(cs, p, ind),
    decreases cs.len() - p,
{
    let g = gen(cs, p, ind);
    lemma_gen_progress(cs, p, ind);
    if has_stop(g.items) {
        lemma_through_stop_idem(g.items);
    } else {
        lemma_stream_closed(cs, g.pos, g.indents);
        lemma_through_stop_concat(g.items, stream_from(cs, g.pos, g.indents));
    }
}

} // verus!
