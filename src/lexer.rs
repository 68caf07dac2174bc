//! The layout-aware lexer: a demand-driven, pushback-capable stream of tokens.
use std::collections::VecDeque;
use vstd::prelude::*;
use crate::layout::{
    all_digits, block_ends, detect, digits_value, gen, ident_end, is_digit, is_ident_char,
    is_layout, lemma_run_ends, operator_end, tok, word_kind, is_ident_start, is_operator_char, is_stop,
    is_symbol_char, lemma_gen_progress, lemma_through_stop_concat, lemma_stream_closed, lemma_through_stop_idem, lex, pop_while, prepare,
    stream_from, through_stop, Item, LexError,
};
use crate::reader::{
    byte_len, char_at, col_at, is_ascii_ws, is_whitespace, lemma_offset_bounds, lemma_skip_ws,
    line_at, offset, skip_ws, Reader,
};
use crate::span::Span;
use crate::text::push_char;
use crate::token::{Kind, Token, TokenKind, TokenView};

verus! {

pub open spec fn item_view(r: Result<Token, LexError>) -> Item {
    match r {
        Ok(t) => Ok(t@),
        Err(e) => Err(e),
    }
}

pub open spec fn items_view(s: Seq<Result<Token, LexError>>) -> Seq<Item> {
    s.map_values(|r: Result<Token, LexError>| item_view(r))
}

/// The indent stack is empty only at the end of input; otherwise it starts at column 1 and
/// strictly increases.
pub open spec fn stack_ok(cs: Seq<char>, p: nat, ind: Seq<usize>) -> bool {
    &&& ind.len() == 0 ==> char_at(cs, p) == '\0'
    &&& ind.len() > 0 ==> ind[0] == 1
    &&& forall|i: int, j: int| 0 <= i < j < ind.len() ==> ind[i] < ind[j]
}

pub struct Lexer {
    pub reader: Reader,
    pub buffer: VecDeque<Result<Token, LexError>>,
    pub indents: Vec<usize>,
}

impl Lexer {
    pub open spec fn wf(&self) -> bool {
        &&& self.reader.wf()
        &&& stack_ok(self.reader.chars(), self.reader.pos(), self.indents@)
    }

    pub open spec fn chars(&self) -> Seq<char> {
        self.reader.chars()
    }

    /// Items produced and not yet delivered.
    pub open spec fn queued(&self) -> Seq<Item> {
        items_view(self.buffer@)
    }

    /// Everything this lexer will still deliver, up to its first stop.
    pub open spec fn upcoming(&self) -> Seq<Item> {
        through_stop(self.queued() + stream_from(self.chars(), self.reader.pos(), self.indents@))
    }

    pub fn new(reader: Reader) -> (r: Lexer)
        requires
            reader.wf(),
            reader.pos() == 0,
        ensures
            r.wf(),
            r.chars() == reader.chars(),
            r.upcoming() == lex(reader.chars()),
    {
        let mut lexer = Lexer { reader, buffer: VecDeque::new(), indents: Vec::new() };
        lexer.detect_indent();
        proof {
            let cs = lexer.chars();
            assert(lexer.queued() =~= Seq::<Item>::empty());
            lemma_stream_closed(cs, lexer.reader.pos(), lexer.indents@);
            lemma_through_stop_idem(stream_from(cs, lexer.reader.pos(), lexer.indents@));
            assert(lexer.queued() + stream_from(cs, lexer.reader.pos(), lexer.indents@)
                =~= stream_from(cs, lexer.reader.pos(), lexer.indents@));
        }
        lexer
    }

    fn push(&mut self, it: Result<Token, LexError>)
        ensures
            final(self).queued() == old(self).queued().push(item_view(it)),
            final(self).reader == old(self).reader,
            final(self).indents == old(self).indents,
    {
        self.buffer.push_back(it);
        proof {
            assert(final(self).queued() =~= old(self).queued().push(item_view(it)));
        }
    }

    /// Reads the indentation of a new line.
    fn detect_indent(&mut self)
        requires
            old(self).reader.wf(),
            old(self).indents@.len() == 0 ==> old(self).reader.pos() == 0,
            old(self).indents@.len() > 0 ==> stack_ok(
                old(self).chars(),
                old(self).reader.pos(),
                old(self).indents@,
            ),
        ensures
            final(self).reader.wf(),
            final(self).chars() == old(self).chars(),
            final(self).queued() == old(self).queued() + detect(
                old(self).chars(),
                old(self).reader.pos(),
                old(self).indents@,
            ).items,
            final(self).reader.pos() == detect(
                old(self).chars(),
                old(self).reader.pos(),
                old(self).indents@,
            ).pos,
            final(self).indents@ == detect(
                old(self).chars(),
                old(self).reader.pos(),
                old(self).indents@,
            ).indents,
            stack_ok(final(self).chars(), final(self).reader.pos(), final(self).indents@),
    {
        let ghost cs = self.chars();
        let ghost ind0 = self.indents@;
        let ghost d = detect(cs, self.reader.pos(), ind0);
        let ghost q0 = self.queued();
        self.reader.skip_whitespace(true);
        if self.reader.eof() {
            proof {
                assert(self.queued() =~= q0 + d.items);
            }
            return;
        }
        if self.indents.len() == 0 {
            self.indents.push(1);
            proof {
                assert(self.queued() =~= q0 + d.items);
                assert(self.indents@ =~= seq![1usize]);
            }
            return;
        }
        let col = self.reader.col;
        let index = self.reader.index;
        let ghost q = self.reader.pos();
        let ghost c = col_at(cs, q);
        let n0 = self.indents.len();
        while col < self.indents[self.indents.len() - 1]
            invariant
                self.reader.wf(),
                self.chars() == cs,
                self.reader.pos() == q,
                col == c,
                index == offset(cs, q),
                c >= 1,
                n0 == ind0.len(),
                self.indents@.len() >= 1,
                self.indents@.len() <= ind0.len(),
                self.indents@ == ind0.take(self.indents@.len() as int),
                pop_while(self.indents@, c) == pop_while(ind0, c),
                stack_ok(cs, q, ind0),
                ind0.len() >= 1,
                self.queued() == q0 + block_ends((ind0.len() - self.indents@.len()) as nat, offset(cs, q)),
            decreases self.indents@.len(),
        {
            let ghost before = self.indents@;
            proof {
                let n = (ind0.len() - before.len()) as nat;
                assert(block_ends(n + 1, offset(cs, q)) =~= block_ends(n, offset(cs, q)).push(
                    tok(Kind::BlockEnd, offset(cs, q), offset(cs, q)),
                ));
            }
            self.push(Ok(Token { kind: TokenKind::BlockEnd, span: Span::pair(index) }));
            self.indents.pop();
            proof {
                assert(self.indents@ =~= before.drop_last());
                assert(self.indents@ =~= ind0.take(self.indents@.len() as int));
                assert(self.queued() =~= q0 + block_ends((ind0.len() - self.indents@.len()) as nat, offset(cs, q)));
                if self.indents@.len() == 0 {
                    assert(before[0] == 1);
                    assert(false);
                }
            }
        }
        let top = self.indents[self.indents.len() - 1];
        proof {
            assert(pop_while(self.indents@, c) == self.indents@);
            lemma_offset_bounds(cs, 0, q);
        }
        if col == top {
            self.push(Ok(Token { kind: TokenKind::Separator, span: Span::pair(index) }));
        } else if self.indents.len() < n0 {
            let span = Span::new(index - (col - 1), index);
            self.push(Err(LexError::InconsistentIndent { indent: col - 1, span }));
        }
        proof {
            assert(self.queued() =~= q0 + d.items);
            let k = self.indents@;
            assert forall|i: int, j: int| 0 <= i < j < k.len() implies k[i] < k[j] by {
                assert(k[i] == ind0[i] && k[j] == ind0[j]);
            }
        }
    }

    /// Opens a block when the body of a layout-introducing token starts on a new line.
    fn prepare_block(&mut self)
        requires
            old(self).reader.wf(),
            old(self).indents@.len() > 0,
            stack_ok(old(self).chars(), old(self).reader.pos(), old(self).indents@),
        ensures
            final(self).reader.wf(),
            final(self).chars() == old(self).chars(),
            final(self).queued() == old(self).queued() + prepare(
                old(self).chars(),
                old(self).reader.pos(),
                old(self).indents@,
            ).items,
            final(self).reader.pos() == prepare(
                old(self).chars(),
                old(self).reader.pos(),
                old(self).indents@,
            ).pos,
            final(self).indents@ == prepare(
                old(self).chars(),
                old(self).reader.pos(),
                old(self).indents@,
            ).indents,
            stack_ok(final(self).chars(), final(self).reader.pos(), final(self).indents@),
    {
        let ghost cs = self.chars();
        let ghost p = self.reader.pos();
        let ghost pr = prepare(cs, p, self.indents@);
        let ghost q0 = self.queued();
        let ghost ind0 = self.indents@;
        let start_ln = self.reader.ln;
        self.reader.skip_whitespace(true);
        if self.reader.eof() {
            proof {
                assert(self.queued() =~= q0 + pr.items);
            }
            return;
        }
        let end_ln = self.reader.ln;
        let col = self.reader.col;
        let index = self.reader.index;
        let indent = self.indents[self.indents.len() - 1];
        proof {
            lemma_offset_bounds(cs, 0, self.reader.pos());
        }
        if col <= indent {
            let span = Span::new(index - (col - 1), index);
            self.push(Err(LexError::InsufficientIndent { indent: col - 1, min_indent: indent, span }));
        } else if start_ln != end_ln {
            self.push(Ok(Token { kind: TokenKind::BlockStart, span: Span::pair(index) }));
            self.indents.push(col);
            proof {
                let k = self.indents@;
                assert(k =~= ind0.push(col));
                assert forall|i: int, j: int| 0 <= i < j < k.len() implies k[i] < k[j] by {
                    if j < ind0.len() {
                        assert(k[i] == ind0[i] && k[j] == ind0[j]);
                    } else {
                        assert(k[i] == ind0[i]);
                        assert(ind0[i] <= ind0[ind0.len() - 1]) by {
                            if i < ind0.len() - 1 {
                            }
                        }
                    }
                }
            }
        }
        proof {
            assert(self.queued() =~= q0 + pr.items);
        }
    }

    /// Produces at least one more item: lexes on from the reader, applying the layout rule.
    #[verifier::rlimit(60)]
    pub fn generate(&mut self)
        requires
            old(self).wf(),
        ensures
            final(self).wf(),
            final(self).chars() == old(self).chars(),
            final(self).queued() == old(self).queued() + gen(
                old(self).chars(),
                old(self).reader.pos(),
                old(self).indents@,
            ).items,
            final(self).reader.pos() == gen(
                old(self).chars(),
                old(self).reader.pos(),
                old(self).indents@,
            ).pos,
            final(self).indents@ == gen(
                old(self).chars(),
                old(self).reader.pos(),
                old(self).indents@,
            ).indents,
        decreases old(self).chars().len() - old(self).reader.pos(),
    {
        let ghost cs = self.chars();
        let ghost p = self.reader.pos();
        let ghost ind0 = self.indents@;
        let ghost q0 = self.queued();
        let ghost g = gen(cs, p, ind0);
        proof {
            lemma_skip_ws(cs, p, true);
            lemma_skip_ws(cs, p, false);
            lemma_run_ends(cs, p);
        }
        let c = self.reader.peek();
        let start = self.reader.index;
        if c == '\n' {
            proof {
                assert(skip_ws(cs, p, true) == skip_ws(cs, p + 1, true));
                lemma_skip_ws(cs, p + 1, true);
            }
            self.detect_indent();
            self.generate();
            proof {
                assert(self.queued() =~= q0 + g.items);
            }
        } else if is_whitespace(c) {
            proof {
                assert(skip_ws(cs, p, false) == skip_ws(cs, p + 1, false));
                lemma_skip_ws(cs, p + 1, false);
            }
            self.reader.skip_whitespace(false);
            self.generate();
        } else if is_identifier_start(c) {
            let p0 = self.reader.pos;
            while is_identifier(self.reader.peek())
                invariant
                    self.reader.wf(),
                    self.chars() == cs,
                    p <= self.reader.pos(),
                    ident_end(cs, self.reader.pos()) == ident_end(cs, p),
                    self.indents@ == ind0,
                    self.queued() == q0,
                    p0 == p,
                decreases cs.len() - self.reader.pos(),
            {
                self.reader.next();
            }
            let end = self.reader.index;
            let span = Span::new(start, end);
            let e = self.reader.pos;
            match word_token(&self.reader.chars, p0, e) {
                Some(kind) => {
                    let layout = kind.introduces_layout();
                    self.push(Ok(Token { kind, span }));
                    if layout {
                        self.prepare_block();
                    }
                },
                None => {
                    self.push(Err(LexError::IntegerOutOfRange { span }));
                },
            }
            proof {
                assert(self.queued() =~= q0 + g.items);
            }
        } else if is_symbol(c) {
            self.reader.next();
            let kind = if c == '(' {
                TokenKind::LParen
            } else if c == ')' {
                TokenKind::RParen
            } else if c == ',' {
                TokenKind::Comma
            } else {
                TokenKind::Colon
            };
            let end = self.reader.index;
            self.push(Ok(Token { kind, span: Span::new(start, end) }));
            proof {
                assert(self.queued() =~= q0 + g.items);
            }
        } else if is_operator(c) {
            let p0 = self.reader.pos;
            while is_operator(self.reader.peek())
                invariant
                    self.reader.wf(),
                    self.chars() == cs,
                    p <= self.reader.pos(),
                    operator_end(cs, self.reader.pos()) == operator_end(cs, p),
                    self.indents@ == ind0,
                    self.queued() == q0,
                    p0 == p,
                decreases cs.len() - self.reader.pos(),
            {
                self.reader.next();
            }
            let end = self.reader.index;
            let e = self.reader.pos;
            let kind = if is_word(&self.reader.chars, p0, e, "=") {
                TokenKind::Equal
            } else if is_word(&self.reader.chars, p0, e, "->") {
                TokenKind::RArrow
            } else {
                TokenKind::Operator(text_of(&self.reader.chars, p0, e))
            };
            let layout = kind.introduces_layout();
            self.push(Ok(Token { kind, span: Span::new(start, end) }));
            if layout {
                self.prepare_block();
            }
            proof {
                assert(self.queued() =~= q0 + g.items);
            }
        } else if self.reader.eof() {
            let index = self.reader.index;
            let n0 = self.indents.len();
            while self.indents.len() > 1
                invariant
                    self.reader == old(self).reader,
                    self.reader.pos() == p,
                    self.reader.wf(),
                    self.chars() == cs,
                    index == offset(cs, p),
                    n0 == ind0.len(),
                    n0 > 1 ==> 1 <= self.indents@.len() <= n0,
                    n0 <= 1 ==> self.indents@ == ind0,
                    self.indents@ == ind0.take(self.indents@.len() as int),
                    self.queued() == q0 + block_ends((n0 - self.indents@.len()) as nat, offset(cs, p)),
                decreases self.indents@.len(),
            {
                let ghost before = self.indents@;
                proof {
                    let n = (n0 - before.len()) as nat;
                    assert(block_ends(n + 1, offset(cs, p)) =~= block_ends(n, offset(cs, p)).push(
                        tok(Kind::BlockEnd, offset(cs, p), offset(cs, p)),
                    ));
                }
                self.push(Ok(Token { kind: TokenKind::BlockEnd, span: Span::pair(index) }));
                self.indents.pop();
                proof {
                    assert(self.indents@ =~= before.drop_last());
                    assert(self.indents@ =~= ind0.take(self.indents@.len() as int));
                    assert(self.queued() =~= q0 + block_ends((n0 - self.indents@.len()) as nat, offset(cs, p)));
                }
            }
            self.push(Ok(Token { kind: TokenKind::Eof, span: Span::pair(index) }));
            proof {
                if n0 <= 1 {
                    assert(block_ends(0, offset(cs, p)) =~= Seq::<Item>::empty());
                    assert(self.indents@ =~= ind0);
                } else {
                    assert(self.indents@ =~= ind0.take(1));
                }
                assert(self.queued() =~= q0 + g.items);
            }
        } else {
            self.reader.next();
            let end = self.reader.index;
            self.push(Err(LexError::UnrecognizedCharacter { c, span: Span::new(start, end) }));
            proof {
                assert(self.queued() =~= q0 + g.items);
            }
        }
    }
}

impl Lexer {
    /// Makes sure an item is queued, without changing what will be delivered.
    fn fill(&mut self)
        requires
            old(self).wf(),
        ensures
            final(self).wf(),
            final(self).chars() == old(self).chars(),
            final(self).upcoming() == old(self).upcoming(),
            final(self).buffer@.len() > 0,
            final(self).upcoming()[0] == final(self).queued()[0],
    {
        if self.buffer.len() == 0 {
            let ghost cs = self.chars();
            let ghost p = self.reader.pos();
            let ghost ind = self.indents@;
            proof {
                lemma_gen_progress(cs, p, ind);
                lemma_refill(cs, p, ind);
                assert(old(self).queued() =~= Seq::<Item>::empty());
                assert(old(self).queued() + stream_from(cs, p, ind) =~= stream_from(cs, p, ind));
            }
            self.generate();
        }
        proof {
            let q = self.queued();
            let s = stream_from(self.chars(), self.reader.pos(), self.indents@);
            assert((q + s)[0] == q[0]);
        }
    }

    pub proof fn lemma_upcoming_nonempty(&self)
        requires
            self.wf(),
        ensures
            self.upcoming().len() > 0,
    {
        let s = stream_from(self.chars(), self.reader.pos(), self.indents@);
        lemma_stream_closed(self.chars(), self.reader.pos(), self.indents@);
        lemma_through_stop_idem(self.queued() + s);
    }

    /// The next token, without consuming it; a lexical error is reported and stays pending.
    pub fn peek(&mut self) -> (r: Result<&Token, LexError>)
        requires
            old(self).wf(),
        ensures
            final(self).wf(),
            final(self).chars() == old(self).chars(),
            final(self).upcoming() == old(self).upcoming(),
            old(self).upcoming().len() > 0,
            match r {
                Ok(t) => old(self).upcoming()[0] == Ok::<TokenView, LexError>(t@),
                Err(e) => old(self).upcoming()[0] == Err::<TokenView, LexError>(e),
            },
    {
        self.fill();
        match &self.buffer[0] {
            Ok(t) => Ok(t),
            Err(e) => Err(*e),
        }
    }

    /// Consumes and returns the next token or lexical error.
    pub fn next(&mut self) -> (r: Result<Token, LexError>)
        requires
            old(self).wf(),
        ensures
            final(self).wf(),
            final(self).chars() == old(self).chars(),
            old(self).upcoming().len() > 0,
            item_view(r) == old(self).upcoming()[0],
            !is_stop(item_view(r)) ==> final(self).upcoming() == old(self).upcoming().drop_first(),
    {
        self.fill();
        let ghost q = self.queued();
        let ghost s = stream_from(self.chars(), self.reader.pos(), self.indents@);
        match self.buffer.pop_front() {
            Some(it) => {
                proof {
                    assert(self.queued() =~= q.drop_first());
                    assert((q + s).drop_first() =~= q.drop_first() + s);
                }
                it
            },
            None => {
                proof {
                    assert(false);
                }
                Err(LexError::IntegerOutOfRange { span: Span(0, 0) })
            },
        }
    }

    /// Pushes a token back in front of everything queued.
    pub fn restore(&mut self, token: Token)
        requires
            old(self).wf(),
        ensures
            final(self).wf(),
            final(self).chars() == old(self).chars(),
            final(self).queued() == seq![Ok::<TokenView, LexError>(token@)] + old(self).queued(),
            !(token@.kind is Eof) ==> final(self).upcoming() == seq![
                Ok::<TokenView, LexError>(token@),
            ] + old(self).upcoming(),
    {
        let ghost t = token@;
        self.buffer.push_front(Ok(token));
        proof {
            let s = stream_from(self.chars(), self.reader.pos(), self.indents@);
            assert(self.queued() =~= seq![Ok::<TokenView, LexError>(t)] + old(self).queued());
            let all = self.queued() + s;
            assert(all[0] == Ok::<TokenView, LexError>(t));
            assert(all.drop_first() =~= old(self).queued() + s);
        }
    }

    /// Whether the next token is the end of file; false while a lexical error is pending.
    pub fn eof(&mut self) -> (r: bool)
        requires
            old(self).wf(),
        ensures
            final(self).wf(),
            final(self).chars() == old(self).chars(),
            final(self).upcoming() == old(self).upcoming(),
            old(self).upcoming().len() > 0,
            r == (old(self).upcoming()[0] matches Ok(t) && t.kind is Eof),
    {
        match self.peek() {
            Ok(t) => match t.kind {
                TokenKind::Eof => true,
                _ => false,
            },
            Err(_) => false,
        }
    }
}

/// Generating a request's items in front of the rest of the stream gives the same stream.
proof fn lemma_refill(cs: Seq<char>, p: nat, ind: Seq<usize>)
    requires
        p <= cs.len(),
    ensures
        through_stop(gen(cs, p, ind).items + stream_from(cs, gen(cs, p, ind).pos, gen(cs, p, ind).indents))
            == stream_from(cs, p, ind),
        through_stop(stream_from(cs, p, ind)) == stream_from(cs, p, ind),
{
    let g = gen(cs, p, ind);
    lemma_gen_progress(cs, p, ind);
    lemma_stream_closed(cs, p, ind);
    lemma_stream_closed(cs, g.pos, g.indents);
    lemma_through_stop_concat(g.items, stream_from(cs, g.pos, g.indents));
}

pub fn is_identifier_start(c: char) -> (r: bool)
    ensures
        r == is_ident_start(c),
{
    ('a' <= c && c <= 'z') || ('A' <= c && c <= 'Z') || ('0' <= c && c <= '9') || c == '_'
}

pub fn is_identifier(c: char) -> (r: bool)
    ensures
        r == is_ident_char(c),
{
    is_identifier_start(c) || c == '!' || c == '\'' || c == '?'
}

pub fn is_symbol(c: char) -> (r: bool)
    ensures
        r == is_symbol_char(c),
{
    c == '(' || c == ')' || c == ',' || c == ':'
}

pub fn is_operator(c: char) -> (r: bool)
    ensures
        r == is_operator_char(c),
{
    c == '!' || c == '*' || c == '+' || c == '-' || c == '/' || c == '<' || c == '=' || c == '>'
}

impl TokenKind {
    /// Whether a new indented block may begin after a token of this kind.
    pub fn introduces_layout(&self) -> (r: bool)
        ensures
            r == is_layout(self@),
    {
        match self {
            TokenKind::KwIf | TokenKind::KwThen | TokenKind::KwElse | TokenKind::KwWhile
            | TokenKind::KwDo | TokenKind::Equal | TokenKind::RArrow => true,
            _ => false,
        }
    }
}

/// Whether `chars[s..e]` spells `w`.
fn is_word(chars: &Vec<char>, s: usize, e: usize, w: &str) -> (r: bool)
    requires
        s <= e <= chars@.len(),
    ensures
        r == (chars@.subrange(s as int, e as int) == w@),
{
    let n = w.unicode_len();
    if e - s != n {
        proof {
            assert(chars@.subrange(s as int, e as int).len() != w@.len());
        }
        return false;
    }
    let mut i: usize = 0;
    while i < n
        invariant
            n == w@.len(),
            e - s == n,
            s <= e <= chars@.len(),
            i <= n,
            forall|j: int| 0 <= j < i ==> chars@[s + j] == w@[j],
        decreases n - i,
    {
        if chars[s + i] != w.get_char(i) {
            proof {
                assert(chars@.subrange(s as int, e as int)[i as int] != w@[i as int]);
            }
            return false;
        }
        i += 1;
    }
    assert(chars@.subrange(s as int, e as int) =~= w@);
    true
}

/// The string spelled by `chars[s..e]`.
fn text_of(chars: &Vec<char>, s: usize, e: usize) -> (r: String)
    requires
        s <= e <= chars@.len(),
    ensures
        r@ == chars@.subrange(s as int, e as int),
{
    let mut out = String::new();
    let mut i: usize = s;
    while i < e
        invariant
            s <= i <= e <= chars@.len(),
            out@ == chars@.subrange(s as int, i as int),
        decreases e - i,
    {
        push_char(&mut out, chars[i]);
        i += 1;
        proof {
            assert(out@ =~= chars@.subrange(s as int, i as int));
        }
    }
    out
}

proof fn lemma_digits_prefix(t: Seq<char>, k: int)
    requires
        0 <= k <= t.len(),
    ensures
        digits_value(t.take(k)) <= digits_value(t),
    decreases t.len(),
{
    if k == t.len() {
        assert(t.take(k) =~= t);
    } else {
        lemma_digits_prefix(t.drop_last(), k);
        assert(t.drop_last().take(k) =~= t.take(k));
    }
}

/// The value of the decimal digits `chars[s..e]`, or `None` when it exceeds `i64::MAX`.
fn decimal_value(chars: &Vec<char>, s: usize, e: usize) -> (r: Option<i64>)
    requires
        s <= e <= chars@.len(),
        all_digits(chars@.subrange(s as int, e as int)),
    ensures
        match r {
            Some(v) => digits_value(chars@.subrange(s as int, e as int)) <= i64::MAX && v
                == digits_value(chars@.subrange(s as int, e as int)),
            None => digits_value(chars@.subrange(s as int, e as int)) > i64::MAX,
        },
{
    let ghost t = chars@.subrange(s as int, e as int);
    let mut acc: u64 = 0;
    let mut i: usize = s;
    assert(chars@.subrange(s as int, s as int) =~= Seq::<char>::empty());
    while i < e
        invariant
            s <= i <= e <= chars@.len(),
            t == chars@.subrange(s as int, e as int),
            all_digits(t),
            acc == digits_value(chars@.subrange(s as int, i as int)),
            acc <= i64::MAX,
        decreases e - i,
    {
        let ghost u = chars@.subrange(s as int, i as int + 1);
        assert(u.drop_last() =~= chars@.subrange(s as int, i as int));
        assert(u.last() == t[i - s]);
        assert(is_digit(t[i - s]));
        let d: u64 = (chars[i] as u32 - '0' as u32) as u64;
        if acc > (9223372036854775807u64 - d) / 10 {
            proof {
                assert(acc * 10 + d > 9223372036854775807u64) by (nonlinear_arith)
                    requires
                        acc > (9223372036854775807u64 - d) / 10,
                        d <= 9,
                ;
                assert(t.take(i - s + 1) =~= u);
                lemma_digits_prefix(t, i - s + 1);
            }
            return None;
        }
        proof {
            assert(acc * 10 + d <= 9223372036854775807u64) by (nonlinear_arith)
                requires
                    acc <= (9223372036854775807u64 - d) / 10,
                    d <= 9,
            ;
        }
        acc = acc * 10 + d;
        i += 1;
    }
    assert(chars@.subrange(s as int, e as int) =~= t);
    Some(acc as i64)
}

/// Classifies the identifier-like word `chars[p..e]`: keyword, boolean, integer or identifier.
fn word_token(chars: &Vec<char>, p: usize, e: usize) -> (r: Option<TokenKind>)
    requires
        p <= e <= chars@.len(),
    ensures
        match r {
            Some(k) => word_kind(chars@.subrange(p as int, e as int)) == Some(k@),
            None => word_kind(chars@.subrange(p as int, e as int)) is None,
        },
{
    if is_word(chars, p, e, "true") {
        Some(TokenKind::Boolean(true))
    } else if is_word(chars, p, e, "false") {
        Some(TokenKind::Boolean(false))
    } else if is_word(chars, p, e, "if") {
        Some(TokenKind::KwIf)
    } else if is_word(chars, p, e, "then") {
        Some(TokenKind::KwThen)
    } else if is_word(chars, p, e, "else") {
        Some(TokenKind::KwElse)
    } else if is_word(chars, p, e, "while") {
        Some(TokenKind::KwWhile)
    } else if is_word(chars, p, e, "do") {
        Some(TokenKind::KwDo)
    } else {
        let mut digits = true;
        let mut i: usize = p;
        while i < e
            invariant
                p <= i <= e <= chars@.len(),
                digits == forall|j: int| p <= j < i ==> is_digit(#[trigger] chars@[j]),
            decreases e - i,
        {
            if !('0' <= chars[i] && chars[i] <= '9') {
                digits = false;
            }
            i += 1;
        }
        let ghost t = chars@.subrange(p as int, e as int);
        proof {
            if digits {
                assert forall|j: int| 0 <= j < t.len() implies is_digit(#[trigger] t[j]) by {
                    assert(t[j] == chars@[p + j]);
                }
            } else {
                let j = choose|j: int| p <= j < e && !is_digit(#[trigger] chars@[j]);
                assert(t[j - p] == chars@[j]);
            }
        }
        if digits {
            match decimal_value(chars, p, e) {
                Some(v) => Some(TokenKind::Integer(v)),
                None => None,
            }
        } else {
            Some(TokenKind::Identifier(text_of(chars, p, e)))
        }
    }
}

} // verus!
