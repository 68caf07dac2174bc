//! Properties of the layout rule over whole token streams.
use vstd::prelude::*;
use crate::layout::{
    block_ends, detect, emit, gen, has_stop, indent_span, is_ident_start, is_layout,
    is_operator_char, is_stop, is_symbol_char, lemma_gen_progress, lemma_stream_closed,
    lemma_through_stop_concat, lex, operator_end, operator_kind, ident_end, pop_while, prepare,
    stream_from, symbol_kind, through_stop, tok, word_kind, Item, LexError, Step,
};
use crate::reader::{char_at, col_at, is_ascii_ws, lemma_skip_ws, skip_ws};
use crate::token::Kind;

verus! {

/// How many tokens of kind `k` the items hold.
pub open spec fn count_kind(s: Seq<Item>, k: Kind) -> nat
    decreases s.len(),
{
    if s.len() == 0 {
        0
    } else {
        count_kind(s.drop_last(), k) + if (s.last() matches Ok(t) && t.kind == k) {
            1nat
        } else {
            0nat
        }
    }
}

/// Blocks opened minus blocks closed.
pub open spec fn depth(s: Seq<Item>) -> int {
    count_kind(s, Kind::BlockStart) - count_kind(s, Kind::BlockEnd)
}

pub open spec fn no_error(s: Seq<Item>) -> bool {
    forall|i: int| 0 <= i < s.len() ==> (#[trigger] s[i]) is Ok
}

/// Every stop among the items is an error: none of them is the end of file.
pub open spec fn stops_are_errors(s: Seq<Item>) -> bool {
    forall|i: int| 0 <= i < s.len() && is_stop(#[trigger] s[i]) ==> s[i] is Err
}

/// A well-formed indent stack for these laws: non-empty, with the top-level column 1 at the
/// bottom.
pub open spec fn rooted(ind: Seq<usize>) -> bool {
    ind.len() >= 1 && ind[0] == 1
}

proof fn lemma_count_concat(a: Seq<Item>, b: Seq<Item>, k: Kind)
    ensures
        count_kind(a + b, k) == count_kind(a, k) + count_kind(b, k),
    decreases b.len(),
{
    if b.len() == 0 {
        assert(a + b =~= a);
    } else {
        lemma_count_concat(a, b.drop_last(), k);
        assert((a + b).drop_last() =~= a + b.drop_last());
    }
}

proof fn lemma_count_small(s: Seq<Item>, k: Kind)
    requires
        s.len() <= 1,
    ensures
        s.len() == 0 ==> count_kind(s, k) == 0,
        s.len() == 1 ==> count_kind(s, k) == if (s[0] matches Ok(t) && t.kind == k) {
            1nat
        } else {
            0nat
        },
{
    reveal_with_fuel(count_kind, 2);
    if s.len() == 1 {
        assert(s.drop_last() =~= Seq::<Item>::empty());
    }
}

proof fn lemma_count_block_ends(n: nat, at: nat)
    ensures
        count_kind(block_ends(n, at), Kind::BlockEnd) == n,
        count_kind(block_ends(n, at), Kind::BlockStart) == 0,
        !has_stop(block_ends(n, at)),
        no_error(block_ends(n, at)),
    decreases n,
{
    if n > 0 {
        lemma_count_block_ends((n - 1) as nat, at);
        assert(block_ends(n, at).drop_last() =~= block_ends((n - 1) as nat, at));
    }
}

proof fn lemma_first_stop_is_error(s: Seq<Item>)
    requires
        has_stop(s),
        stops_are_errors(s),
    ensures
        !no_error(through_stop(s)),
    decreases s.len(),
{
    if is_stop(s[0]) {
        assert(through_stop(s)[0] == s[0]);
    } else {
        let r = s.drop_first();
        let i = choose|i: int| 0 <= i < s.len() && is_stop(#[trigger] s[i]);
        assert(r[i - 1] == s[i]);
        assert forall|j: int| 0 <= j < r.len() && is_stop(#[trigger] r[j]) implies r[j] is Err by {
            assert(r[j] == s[j + 1]);
        }
        lemma_first_stop_is_error(r);
        let j = choose|j: int| 0 <= j < through_stop(r).len() && !(#[trigger] through_stop(r)[j] is Ok);
        assert(through_stop(s)[j + 1] == through_stop(r)[j]);
    }
}

proof fn lemma_pop_while_rooted(ind: Seq<usize>, c: nat)
    requires
        rooted(ind),
        c >= 1,
    ensures
        rooted(pop_while(ind, c)),
        pop_while(ind, c).len() <= ind.len(),
        pop_while(ind, c) == ind.take(pop_while(ind, c).len() as int),
    decreases ind.len(),
{
    if c < ind.last() {
        assert(ind.len() > 1);
        lemma_pop_while_rooted(ind.drop_last(), c);
        let k = pop_while(ind, c);
        assert(k =~= ind.take(k.len() as int));
    } else {
        assert(ind =~= ind.take(ind.len() as int));
    }
}

proof fn lemma_detect_depth(cs: Seq<char>, p: nat, ind: Seq<usize>)
    requires
        rooted(ind),
    ensures
        rooted(detect(cs, p, ind).indents),
        stops_are_errors(detect(cs, p, ind).items),
        no_error(detect(cs, p, ind).items) ==> depth(detect(cs, p, ind).items) == detect(
            cs,
            p,
            ind,
        ).indents.len() - ind.len(),
{
    let d = detect(cs, p, ind);
    let q = skip_ws(cs, p, true);
    if char_at(cs, q) != '\0' {
        let c = col_at(cs, q);
        assert(c >= 1);
        lemma_pop_while_rooted(ind, c);
        let kept = pop_while(ind, c);
        let ends = block_ends((ind.len() - kept.len()) as nat, crate::reader::offset(cs, q));
        lemma_count_block_ends((ind.len() - kept.len()) as nat, crate::reader::offset(cs, q));
        let tail = d.items.subrange(ends.len() as int, d.items.len() as int);
        assert(d.items =~= ends + tail);
        lemma_count_concat(ends, tail, Kind::BlockStart);
        lemma_count_concat(ends, tail, Kind::BlockEnd);
        assert(tail.len() <= 1);
        lemma_count_small(tail, Kind::BlockStart);
        lemma_count_small(tail, Kind::BlockEnd);
        assert forall|i: int| 0 <= i < d.items.len() && is_stop(#[trigger] d.items[i]) implies d.items[i] is Err by {
            if i < ends.len() {
                assert(d.items[i] == ends[i]);
            } else {
                assert(d.items[i] == tail[i - ends.len()]);
            }
        }
    }
}

proof fn lemma_prepare_depth(cs: Seq<char>, p: nat, ind: Seq<usize>)
    requires
        rooted(ind),
    ensures
        rooted(prepare(cs, p, ind).indents),
        stops_are_errors(prepare(cs, p, ind).items),
        no_error(prepare(cs, p, ind).items) ==> depth(prepare(cs, p, ind).items) == prepare(
            cs,
            p,
            ind,
        ).indents.len() - ind.len(),
{
    let s = prepare(cs, p, ind).items;
    lemma_count_small(s, Kind::BlockStart);
    lemma_count_small(s, Kind::BlockEnd);
}

proof fn lemma_emit_depth(cs: Seq<char>, item: Item, layout: bool, e: nat, ind: Seq<usize>)
    requires
        rooted(ind),
        item is Ok,
        !is_stop(item),
        item matches Ok(t) && !(t.kind is BlockStart) && !(t.kind is BlockEnd),
    ensures
        rooted(emit(cs, item, layout, e, ind).indents),
        stops_are_errors(emit(cs, item, layout, e, ind).items),
        no_error(emit(cs, item, layout, e, ind).items) ==> depth(
            emit(cs, item, layout, e, ind).items,
        ) == emit(cs, item, layout, e, ind).indents.len() - ind.len(),
{
    let m = emit(cs, item, layout, e, ind);
    let one = seq![item];
    lemma_count_small(one, Kind::BlockStart);
    lemma_count_small(one, Kind::BlockEnd);
    if layout {
        let pr = prepare(cs, e, ind);
        lemma_prepare_depth(cs, e, ind);
        lemma_count_concat(one, pr.items, Kind::BlockStart);
        lemma_count_concat(one, pr.items, Kind::BlockEnd);
        assert forall|i: int| 0 <= i < m.items.len() && is_stop(#[trigger] m.items[i]) implies m.items[i] is Err by {
            if i > 0 {
                assert(m.items[i] == pr.items[i - 1]);
            }
        }
        if no_error(m.items) {
            assert forall|i: int| 0 <= i < pr.items.len() implies (#[trigger] pr.items[i]) is Ok by {
                assert(m.items[i + 1] == pr.items[i]);
            }
        }
    }
}

/// What one request for tokens does to the indent stack and to the open blocks.
proof fn lemma_gen_depth(cs: Seq<char>, p: nat, ind: Seq<usize>)
    requires
        p <= cs.len(),
        rooted(ind),
    ensures
        rooted(gen(cs, p, ind).indents),
        no_error(gen(cs, p, ind).items) ==> depth(gen(cs, p, ind).items) == gen(
            cs,
            p,
            ind,
        ).indents.len() - ind.len(),
        has_stop(gen(cs, p, ind).items) && no_error(through_stop(gen(cs, p, ind).items)) ==> {
            &&& through_stop(gen(cs, p, ind).items) == gen(cs, p, ind).items
            &&& gen(cs, p, ind).items.last() matches Ok(t) && t.kind is Eof
            &&& gen(cs, p, ind).indents.len() == 1
        },
    decreases cs.len() - p,
{
    let c = char_at(cs, p);
    let g = gen(cs, p, ind);
    lemma_skip_ws(cs, p, true);
    lemma_skip_ws(cs, p, false);
    if c == '\n' {
        let d = detect(cs, p, ind);
        assert(skip_ws(cs, p, true) == skip_ws(cs, p + 1, true));
        lemma_skip_ws(cs, p + 1, true);
        lemma_detect_depth(cs, p, ind);
        lemma_gen_depth(cs, d.pos, d.indents);
        let h = gen(cs, d.pos, d.indents);
        lemma_count_concat(d.items, h.items, Kind::BlockStart);
        lemma_count_concat(d.items, h.items, Kind::BlockEnd);
        lemma_through_stop_concat(d.items, h.items);
        if no_error(g.items) {
            assert forall|i: int| 0 <= i < d.items.len() implies (#[trigger] d.items[i]) is Ok by {
                assert(g.items[i] == d.items[i]);
            }
            assert forall|i: int| 0 <= i < h.items.len() implies (#[trigger] h.items[i]) is Ok by {
                assert(g.items[d.items.len() + i] == h.items[i]);
            }
        }
        if has_stop(g.items) && no_error(through_stop(g.items)) {
            if has_stop(d.items) {
                lemma_first_stop_is_error(d.items);
            } else {
                let ts = through_stop(h.items);
                assert forall|i: int| 0 <= i < ts.len() implies (#[trigger] ts[i]) is Ok by {
                    assert(through_stop(g.items)[d.items.len() + i] == ts[i]);
                }
                let i = choose|i: int| 0 <= i < g.items.len() && is_stop(#[trigger] g.items[i]);
                if i < d.items.len() {
                    assert(g.items[i] == d.items[i]);
                } else {
                    assert(g.items[i] == h.items[i - d.items.len()]);
                }
            }
        }
    } else if is_ascii_ws(c) {
        assert(skip_ws(cs, p, false) == skip_ws(cs, p + 1, false));
        lemma_skip_ws(cs, p + 1, false);
        lemma_gen_depth(cs, skip_ws(cs, p, false), ind);
    } else if is_ident_start(c) {
        let e = ident_end(cs, p);
        match word_kind(cs.subrange(p as int, e as int)) {
            Some(k) => {
                let item = tok(k, crate::reader::offset(cs, p), crate::reader::offset(cs, e));
                lemma_emit_depth(cs, item, is_layout(k), e, ind);
                if has_stop(g.items) {
                    lemma_first_stop_is_error(g.items);
                }
            },
            None => {
                assert(g.items[0] is Err);
                assert(through_stop(g.items)[0] == g.items[0]);
            },
        }
    } else if is_symbol_char(c) {
        lemma_count_small(g.items, Kind::BlockStart);
        lemma_count_small(g.items, Kind::BlockEnd);
        assert(!is_stop(g.items[0]));
    } else if is_operator_char(c) {
        let e = operator_end(cs, p);
        let k = operator_kind(cs.subrange(p as int, e as int));
        let item = tok(k, crate::reader::offset(cs, p), crate::reader::offset(cs, e));
        lemma_emit_depth(cs, item, is_layout(k), e, ind);
        if has_stop(g.items) {
            lemma_first_stop_is_error(g.items);
        }
    } else if c == '\0' {
        let n: nat = (ind.len() - 1) as nat;
        let ends = block_ends(n, crate::reader::offset(cs, p));
        let eof = tok(Kind::Eof, crate::reader::offset(cs, p), crate::reader::offset(cs, p));
        lemma_count_block_ends(n, crate::reader::offset(cs, p));
        assert(g.items =~= ends + seq![eof]);
        lemma_count_concat(ends, seq![eof], Kind::BlockStart);
        lemma_count_concat(ends, seq![eof], Kind::BlockEnd);
        lemma_count_small(seq![eof], Kind::BlockStart);
        lemma_count_small(seq![eof], Kind::BlockEnd);
        lemma_through_stop_concat(ends, seq![eof]);
        assert(through_stop(seq![eof]) =~= seq![eof]);
    } else {
        assert(g.items[0] is Err);
        assert(through_stop(g.items)[0] == g.items[0]);
    }
}

proof fn lemma_stream_depth(cs: Seq<char>, p: nat, ind: Seq<usize>)
    requires
        p <= cs.len(),
        rooted(ind),
    ensures
        no_error(stream_from(cs, p, ind)) ==> {
            &&& depth(stream_from(cs, p, ind)) == 1 - ind.len()
            &&& stream_from(cs, p, ind).last() matches Ok(t) && t.kind is Eof
        },
    decreases cs.len() - p,
{
    let g = gen(cs, p, ind);
    lemma_gen_progress(cs, p, ind);
    lemma_gen_depth(cs, p, ind);
    lemma_stream_closed(cs, p, ind);
    if !has_stop(g.items) {
        let rest = stream_from(cs, g.pos, g.indents);
        lemma_stream_depth(cs, g.pos, g.indents);
        lemma_stream_closed(cs, g.pos, g.indents);
        lemma_count_concat(g.items, rest, Kind::BlockStart);
        lemma_count_concat(g.items, rest, Kind::BlockEnd);
        let s = stream_from(cs, p, ind);
        if no_error(s) {
            assert forall|i: int| 0 <= i < g.items.len() implies (#[trigger] g.items[i]) is Ok by {
                assert(s[i] == g.items[i]);
            }
            assert forall|i: int| 0 <= i < rest.len() implies (#[trigger] rest[i]) is Ok by {
                assert(s[g.items.len() + i] == rest[i]);
            }
            assert(s.last() == rest.last());
        }
    }
}

/// In a token stream without lexical errors, every block that is opened is closed: there are
/// as many block starts as block ends, and the stream ends with the end of file.
pub proof fn lemma_blocks_balanced(cs: Seq<char>)
    requires
        no_error(lex(cs)),
    ensures
        count_kind(lex(cs), Kind::BlockStart) == count_kind(lex(cs), Kind::BlockEnd),
        lex(cs).len() > 0,
        lex(cs).last() matches Ok(t) && t.kind is Eof,
{
    let d = detect(cs, 0, seq![]);
    lemma_skip_ws(cs, 0, true);
    lemma_stream_closed(cs, d.pos, d.indents);
    if d.indents.len() == 0 {
        let g = gen(cs, d.pos, d.indents);
        let eof = tok(Kind::Eof, crate::reader::offset(cs, d.pos), crate::reader::offset(cs, d.pos));
        assert(block_ends(0, crate::reader::offset(cs, d.pos)) =~= Seq::<Item>::empty());
        assert(g.items =~= seq![eof]);
        assert(is_stop(g.items[0]));
        assert(has_stop(g.items));
        assert(lex(cs) =~= seq![eof]);
        lemma_count_small(seq![eof], Kind::BlockStart);
        lemma_count_small(seq![eof], Kind::BlockEnd);
    } else {
        lemma_stream_depth(cs, d.pos, d.indents);
    }
}

/// Lexing is a function of the source text: the same text always gives the same tokens, with
/// the same spans.
pub proof fn lemma_lexing_deterministic(a: Seq<char>, b: Seq<char>)
    requires
        a == b,
    ensures
        lex(a) == lex(b),
{
}

proof fn lemma_pop_to_level(ind: Seq<usize>, c: nat, i: int)
    requires
        forall|x: int, y: int| 0 <= x < y < ind.len() ==> ind[x] < ind[y],
        0 <= i < ind.len(),
        ind[i] <= c,
        i + 1 < ind.len() ==> c < ind[i + 1],
    ensures
        pop_while(ind, c) == ind.take(i + 1),
    decreases ind.len(),
{
    if i + 1 == ind.len() {
        assert(ind.take(i + 1) =~= ind);
    } else {
        assert(c < ind.last());
        lemma_pop_to_level(ind.drop_last(), c, i);
        assert(ind.drop_last().take(i + 1) =~= ind.take(i + 1));
    }
}

/// A line whose indentation falls strictly between two open blocks' columns closes the inner
/// blocks and then fails with an inconsistent-indent error: it never matches silently.
pub proof fn lemma_dedent_between_levels(cs: Seq<char>, p: nat, ind: Seq<usize>, i: int)
    requires
        forall|x: int, y: int| 0 <= x < y < ind.len() ==> ind[x] < ind[y],
        0 <= i,
        i + 1 < ind.len(),
        char_at(cs, skip_ws(cs, p, true)) != '\0',
        ind[i] < col_at(cs, skip_ws(cs, p, true)) < ind[i + 1],
    ensures
        detect(cs, p, ind).items.last() == Err::<crate::token::TokenView, LexError>(
            LexError::InconsistentIndent {
                indent: (col_at(cs, skip_ws(cs, p, true)) - 1) as usize,
                span: indent_span(cs, skip_ws(cs, p, true)),
            },
        ),
        detect(cs, p, ind).indents == ind.take(i + 1),
{
    lemma_pop_to_level(ind, col_at(cs, skip_ws(cs, p, true)), i);
}

/// A block body that starts on a column at or left of the enclosing block's column fails with
/// an insufficient-indent error.
pub proof fn lemma_shallow_body_rejected(cs: Seq<char>, p: nat, ind: Seq<usize>)
    requires
        ind.len() > 0,
        char_at(cs, skip_ws(cs, p, true)) != '\0',
        col_at(cs, skip_ws(cs, p, true)) <= ind.last(),
    ensures
        prepare(cs, p, ind).items == seq![
            Err::<crate::token::TokenView, LexError>(
                LexError::InsufficientIndent {
                    indent: (col_at(cs, skip_ws(cs, p, true)) - 1) as usize,
                    min_indent: ind.last(),
                    span: indent_span(cs, skip_ws(cs, p, true)),
                },
            ),
        ],
{
}

proof fn lemma_closed_single_stop(s: Seq<Item>)
    requires
        through_stop(s) == s,
    ensures
        forall|j: int| 0 <= j < s.len() - 1 ==> !is_stop(#[trigger] s[j]),
    decreases s.len(),
{
    if s.len() > 1 {
        if is_stop(s[0]) {
            assert(through_stop(s).len() == 1);
        } else {
            let r = s.drop_first();
            assert(through_stop(s) == seq![s[0]] + through_stop(r));
            assert(through_stop(r) =~= through_stop(s).drop_first());
            assert(s.drop_first() =~= r);
            lemma_closed_single_stop(r);
            assert forall|j: int| 0 <= j < s.len() - 1 implies !is_stop(#[trigger] s[j]) by {
                if j > 0 {
                    assert(s[j] == r[j - 1]);
                }
            }
        }
    }
}

/// In the token stream of a source, only the last item can be a stop; so a stream whose
/// remainder starts with the end of file holds no lexical error.
pub proof fn lemma_stream_only_last_stops(cs: Seq<char>)
    ensures
        lex(cs).len() > 0,
        forall|j: int| 0 <= j < lex(cs).len() - 1 ==> !is_stop(#[trigger] lex(cs)[j]),
        lex(cs).last() matches Ok(t) && t.kind is Eof ==> no_error(lex(cs)),
{
    let d = detect(cs, 0, seq![]);
    lemma_skip_ws(cs, 0, true);
    lemma_stream_closed(cs, d.pos, d.indents);
    lemma_closed_single_stop(lex(cs));
    let l = lex(cs);
    assert forall|j: int| 0 <= j < l.len() - 1 implies (#[trigger] l[j]) is Ok by {
        assert(!is_stop(l[j]));
    }
}

} // verus!
