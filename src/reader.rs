//! A cursor over the code points of the source text.
use vstd::prelude::*;

verus! {

/// The number of bytes that UTF-8 takes for `c`.
pub open spec fn utf8_width(c: char) -> nat {
    if (c as u32) < 0x80 {
        1
    } else if (c as u32) < 0x800 {
        2
    } else if (c as u32) < 0x10000 {
        3
    } else {
        4
    }
}

/// Byte offset of the `p`-th code point of `cs`.
pub open spec fn offset(cs: Seq<char>, p: nat) -> nat
    decreases p,
{
    if p == 0 {
        0
    } else {
        offset(cs, (p - 1) as nat) + utf8_width(cs[p - 1])
    }
}

/// 1-based line of the `p`-th code point.
pub open spec fn line_at(cs: Seq<char>, p: nat) -> nat
    decreases p,
{
    if p == 0 {
        1
    } else if cs[p - 1] == '\n' {
        line_at(cs, (p - 1) as nat) + 1
    } else {
        line_at(cs, (p - 1) as nat)
    }
}

/// 1-based column of the `p`-th code point, counted in code points.
pub open spec fn col_at(cs: Seq<char>, p: nat) -> nat
    decreases p,
{
    if p == 0 {
        1
    } else if cs[p - 1] == '\n' {
        1
    } else {
        col_at(cs, (p - 1) as nat) + 1
    }
}

/// The character at `p`, or NUL past the end.
pub open spec fn char_at(cs: Seq<char>, p: nat) -> char {
    if p < cs.len() {
        cs[p as int]
    } else {
        '\0'
    }
}

/// ASCII whitespace, as `char::is_ascii_whitespace` has it.
pub open spec fn is_ascii_ws(c: char) -> bool {
    c == ' ' || c == '\t' || c == '\n' || c == '\x0C' || c == '\r'
}

/// Where a run of ASCII whitespace from `p` ends; with `newlines` false it stops at a newline.
pub open spec fn skip_ws(cs: Seq<char>, p: nat, newlines: bool) -> nat
    decreases cs.len() - p,
{
    if p < cs.len() && is_ascii_ws(cs[p as int]) && (newlines || cs[p as int] != '\n') {
        skip_ws(cs, p + 1, newlines)
    } else {
        p
    }
}

pub proof fn lemma_offset_bounds(cs: Seq<char>, p: nat, q: nat)
    requires
        p <= q <= cs.len(),
    ensures
        offset(cs, p) + (q - p) <= offset(cs, q),
        col_at(cs, q) <= q + 1,
        line_at(cs, p) <= line_at(cs, q),
        line_at(cs, q) <= q + 1,
    decreases q,
{
    if q > 0 {
        if p < q {
            lemma_offset_bounds(cs, p, (q - 1) as nat);
        } else {
            lemma_offset_bounds(cs, (q - 1) as nat, (q - 1) as nat);
        }
    }
}

pub proof fn lemma_skip_ws(cs: Seq<char>, p: nat, newlines: bool)
    requires
        p <= cs.len(),
    ensures
        p <= skip_ws(cs, p, newlines) <= cs.len(),
        forall|i: int| p <= i < skip_ws(cs, p, newlines) ==> is_ascii_ws(#[trigger] cs[i]),
        !newlines ==> forall|i: int| p <= i < skip_ws(cs, p, newlines) ==> #[trigger] cs[i] != '\n',
        skip_ws(cs, p, newlines) < cs.len() ==> !is_ascii_ws(cs[skip_ws(cs, p, newlines) as int])
            || (!newlines && cs[skip_ws(cs, p, newlines) as int] == '\n'),
    decreases cs.len() - p,
{
    if p < cs.len() && is_ascii_ws(cs[p as int]) && (newlines || cs[p as int] != '\n') {
        lemma_skip_ws(cs, p + 1, newlines);
    }
}

/// The total UTF-8 length of `cs`.
pub open spec fn byte_len(cs: Seq<char>) -> nat {
    offset(cs, cs.len())
}

pub struct Reader {
    pub index: usize,
    pub ln: usize,
    pub col: usize,
    pub chars: Vec<char>,
    pub pos: usize,
}

impl Reader {
    /// The source text.
    pub open spec fn chars(&self) -> Seq<char> {
        self.chars@
    }

    /// How many code points have been consumed.
    pub open spec fn pos(&self) -> nat {
        self.pos as nat
    }

    pub open spec fn wf(&self) -> bool {
        &&& self.pos() <= self.chars().len()
        &&& byte_len(self.chars()) < usize::MAX
        &&& self.index == offset(self.chars(), self.pos())
        &&& self.ln == line_at(self.chars(), self.pos())
        &&& self.col == col_at(self.chars(), self.pos())
    }

    /// The next character, or NUL at the end of input.
    pub open spec fn peek_spec(&self) -> char {
        char_at(self.chars(), self.pos())
    }

    pub fn new(source: &str) -> (r: Reader)
        requires
            byte_len(source@) < usize::MAX,
        ensures
            r.wf(),
            r.chars() == source@,
            r.pos() == 0,
    {
        let n = source.unicode_len();
        let mut chars: Vec<char> = Vec::new();
        let mut i: usize = 0;
        while i < n
            invariant
                n == source@.len(),
                i <= n,
                chars@ == source@.subrange(0, i as int),
            decreases n - i,
        {
            chars.push(source.get_char(i));
            i += 1;
        }
        assert(chars@ =~= source@);
        Reader { index: 0, ln: 1, col: 1, chars, pos: 0 }
    }

    /// Consumes ASCII whitespace; with `include_newline` false it stops before a newline.
    pub fn skip_whitespace(&mut self, include_newline: bool)
        requires
            old(self).wf(),
        ensures
            final(self).wf(),
            final(self).chars() == old(self).chars(),
            final(self).pos() == skip_ws(old(self).chars(), old(self).pos(), include_newline),
    {
        loop
            invariant
                self.wf(),
                self.chars() == old(self).chars(),
                skip_ws(self.chars(), self.pos(), include_newline) == skip_ws(
                    old(self).chars(),
                    old(self).pos(),
                    include_newline,
                ),
            decreases self.chars().len() - self.pos(),
        {
            let c = self.peek();
            if !is_whitespace(c) {
                return;
            }
            if !include_newline && c == '\n' {
                return;
            }
            self.next();
        }
    }

    pub fn peek(&self) -> (c: char)
        requires
            self.wf(),
        ensures
            c == self.peek_spec(),
    {
        if self.pos < self.chars.len() {
            self.chars[self.pos]
        } else {
            '\0'
        }
    }

    /// Consumes the next character, advancing the byte offset, line and column.
    pub fn next(&mut self) -> (c: char)
        requires
            old(self).wf(),
        ensures
            final(self).wf(),
            final(self).chars() == old(self).chars(),
            c == old(self).peek_spec(),
            final(self).pos() == if old(self).pos() < old(self).chars().len() {
                old(self).pos() + 1
            } else {
                old(self).pos()
            },
    {
        let c = self.peek();
        if self.pos < self.chars.len() {
            proof {
                lemma_offset_bounds(self.chars@, (self.pos + 1) as nat, self.chars@.len());
                lemma_offset_bounds(self.chars@, 0, (self.pos + 1) as nat);
            }
            if c == '\n' {
                self.ln += 1;
                self.col = 1;
            } else {
                self.col += 1;
            }
            self.index += utf8_width_of(c);
            self.pos += 1;
        }
        c
    }

    pub fn eof(&self) -> (r: bool)
        requires
            self.wf(),
        ensures
            r == (self.peek_spec() == '\0'),
    {
        self.peek() == '\0'
    }
}

pub fn is_whitespace(c: char) -> (r: bool)
    ensures
        r == is_ascii_ws(c),
{
    c == ' ' || c == '\t' || c == '\n' || c == '\x0C' || c == '\r'
}

fn utf8_width_of(c: char) -> (r: usize)
    ensures
        r == utf8_width(c),
{
    if (c as u32) < 0x80 {
        1
    } else if (c as u32) < 0x800 {
        2
    } else if (c as u32) < 0x10000 {
        3
    } else {
        4
    }
}

} // verus!
