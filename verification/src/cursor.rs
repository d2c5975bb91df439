//! A cursor over a text: the current position, kept in step with the scalar
//! values that were passed.
use crate::ast::Position;
use crate::chars::{is_white_space, len_utf8, white_space};
use crate::text::{
    byte_len, byte_offset, lemma_byte_offset_monotone, lemma_byte_offset_step,
    lemma_encode_injective, lemma_encode_len, lemma_encode_range, lemma_line_column_bound,
    lemma_offset_is_boundary, lemma_pos_prefix, pos_at,
};
use vstd::prelude::*;
use vstd::string::*;

verus! {

/// Whether the scalar values of `s` from index `i` on begin with `p`.
pub open spec fn has_prefix(s: Seq<char>, i: int, p: Seq<char>) -> bool {
    0 <= i && i + p.len() <= s.len() && s.subrange(i, i + p.len()) == p
}

/// The number of whitespace scalar values of `s` from index `i` on, up to the
/// first that is none.
pub open spec fn space_run(s: Seq<char>, i: int) -> nat
    decreases s.len() - i,
{
    if 0 <= i < s.len() && white_space(s[i]) {
        1 + space_run(s, i + 1)
    } else {
        0
    }
}

/// The first index from `i` on that holds no whitespace, or the end of `s`.
pub open spec fn skip_space(s: Seq<char>, i: int) -> int {
    i + space_run(s, i)
}

/// The number of scalar values of `s` from index `i` on before the first `c`.
pub open spec fn run_until(s: Seq<char>, i: int, c: char) -> nat
    decreases s.len() - i,
{
    if 0 <= i < s.len() && s[i] != c {
        1 + run_until(s, i + 1, c)
    } else {
        0
    }
}

/// The first index from `i` on that holds `c`, or the end of `s`.
pub open spec fn find_char(s: Seq<char>, i: int, c: char) -> int {
    i + run_until(s, i, c)
}

/// Whitespace is passed up to the first scalar value that is none, within
/// the text.
pub proof fn lemma_skip_space_bounds(s: Seq<char>, i: int)
    requires
        0 <= i <= s.len(),
    ensures
        i <= skip_space(s, i) <= s.len(),
        skip_space(s, i) < s.len() ==> !white_space(s[skip_space(s, i)]),
        forall|k: int| i <= k < skip_space(s, i) ==> white_space(#[trigger] s[k]),
    decreases s.len() - i,
{
    if i < s.len() && white_space(s[i]) {
        lemma_skip_space_bounds(s, i + 1);
    }
}

/// The first `c` from an index on is found within the text, and none stands
/// before it.
pub proof fn lemma_find_char_bounds(s: Seq<char>, i: int, c: char)
    requires
        0 <= i <= s.len(),
    ensures
        i <= find_char(s, i, c) <= s.len(),
        find_char(s, i, c) < s.len() ==> s[find_char(s, i, c)] == c,
        forall|k: int| i <= k < find_char(s, i, c) ==> #[trigger] s[k] != c,
    decreases s.len() - i,
{
    if i < s.len() && s[i] != c {
        lemma_find_char_bounds(s, i + 1, c);
    }
}

/// A text and a position in it. `index` counts the scalar values before the
/// position; byte offset, line and column follow from it.
#[derive(Clone, Copy)]
pub struct Cursor<'s> {
    pub text: &'s str,
    pub position: Position,
    pub index: Ghost<int>,
}

impl<'s> Cursor<'s> {
    /// The position is the one that belongs to `index`, and every line and
    /// column number of the text fits the machine word.
    pub open spec fn wf(&self) -> bool {
        &&& 0 <= self.index@ <= self.text@.len()
        &&& self.position == pos_at(self.text@, self.index@)
        &&& byte_len(self.text@) < usize::MAX
    }

    /// A cursor at the start of `text`.
    pub fn new(text: &'s str) -> (c: Cursor<'s>)
        requires
            byte_len(text@) < usize::MAX,
        ensures
            c.wf(),
            c.text == text,
            c.index@ == 0,
    {
        Cursor { text, position: Position { offset: 0, line: 1, column: 1 }, index: Ghost(0) }
    }

    /// What holds of the position of a well-formed cursor.
    pub proof fn lemma_position(&self)
        requires
            self.wf(),
        ensures
            self.position.offset == byte_offset(self.text@, self.index@),
            self.position.offset <= byte_len(self.text@),
            self.position.offset == byte_len(self.text@) <==> self.index@ == self.text@.len(),
            byte_offset(self.text@, self.text@.len() as int) == byte_len(self.text@),
            self.text.spec_bytes().len() == byte_len(self.text@),
            self.position.line <= self.index@ + 1,
            self.position.column <= self.index@ + 1,
            self.text@.len() <= byte_len(self.text@),
    {
        let s = self.text@;
        let i = self.index@;
        lemma_byte_offset_monotone(s, i, s.len() as int);
        lemma_byte_offset_monotone(s, 0, s.len() as int);
        lemma_byte_offset_monotone(s, 0, i);
        lemma_line_column_bound(s, i);
        lemma_encode_len(s);
    }

    /// The byte offset of the position.
    pub fn offset(&self) -> (o: usize)
        requires
            self.wf(),
        ensures
            o == self.position.offset,
            o == byte_offset(self.text@, self.index@),
    {
        proof {
            self.lemma_position();
        }
        self.position.offset
    }

    /// Whether the position is the end of the text.
    pub fn is_eof(&self) -> (b: bool)
        requires
            self.wf(),
        ensures
            b == (self.index@ == self.text@.len()),
    {
        proof {
            self.lemma_position();
        }
        self.position.offset == self.text.len()
    }

    /// The rest of the text, from the position on.
    pub fn rest(&self) -> (r: &'s str)
        requires
            self.wf(),
        ensures
            r@ == self.text@.subrange(self.index@, self.text@.len() as int),
    {
        proof {
            let s = self.text@;
            self.lemma_position();
            lemma_offset_is_boundary(s, self.index@);
            lemma_encode_range(s, self.index@, s.len() as int);
        }
        let (_, rest) = self.text.split_at(self.position.offset);
        proof {
            lemma_encode_injective(rest@, self.text@.subrange(self.index@, self.text@.len() as int));
        }
        rest
    }

    /// The scalar value at the position.
    pub fn char(&self) -> (c: char)
        requires
            self.wf(),
            self.index@ < self.text@.len(),
        ensures
            c == self.text@[self.index@],
    {
        let rest = self.rest();
        let mut chars = rest.chars();
        let next = chars.next();
        next.unwrap()
    }

    /// The scalar value behind the one at the position, if there is one.
    pub fn peek(&self) -> (r: Option<char>)
        requires
            self.wf(),
        ensures
            r == if self.index@ + 1 < self.text@.len() {
                Some(self.text@[self.index@ + 1])
            } else {
                None
            },
    {
        if self.is_eof() {
            return None;
        }
        let rest = self.rest();
        let mut chars = rest.chars();
        let _ = chars.next();
        chars.next()
    }
    /// Advances by one scalar value; at the end of the text nothing changes.
    pub fn bump(&mut self)
        requires
            old(self).wf(),
        ensures
            final(self).wf(),
            final(self).text == old(self).text,
            final(self).index@ == if old(self).index@ < old(self).text@.len() {
                old(self).index@ + 1
            } else {
                old(self).index@
            },
    {
        if self.is_eof() {
            return ;
        }
        let c = self.char();
        let width = len_utf8(c);
        proof {
            let s = self.text@;
            let i = self.index@;
            self.lemma_position();
            lemma_byte_offset_step(s, i);
            lemma_byte_offset_monotone(s, i + 1, s.len() as int);
            lemma_line_column_bound(s, i + 1);
        }
        let line: usize = if c == '\n' {
            self.position.line + 1
        } else {
            self.position.line
        };
        let column: usize = if c == '\n' {
            1
        } else {
            self.position.column + 1
        };
        self.position = Position { offset: self.position.offset + width, line, column };
        self.index = Ghost(self.index@ + 1);
    }

    /// If the rest of the text begins with `prefix`, advances behind it and
    /// returns true; else leaves the cursor where it is and returns false.
    pub fn bump_if(&mut self, prefix: &str) -> (b: bool)
        requires
            old(self).wf(),
        ensures
            final(self).wf(),
            final(self).text == old(self).text,
            b == has_prefix(old(self).text@, old(self).index@, prefix@),
            final(self).index@ == if b {
                old(self).index@ + prefix@.len()
            } else {
                old(self).index@
            },
    {
        let n = prefix.unicode_len();
        let mut probe: Cursor<'s> = *self;
        let mut k: usize = 0;
        let ghost s = self.text@;
        let ghost start = self.index@;
        while k < n
            invariant
                *self == *old(self),
                self.wf(),
                probe.wf(),
                probe.text == self.text,
                s == self.text@,
                start == self.index@,
                n == prefix@.len(),
                k <= n,
                probe.index@ == start + k,
                s.subrange(start, start + k) == prefix@.subrange(0, k as int),
            decreases n - k,
        {
            if probe.is_eof() {
                return false;
            }
            if probe.char() != prefix.get_char(k) {
                proof {
                    if has_prefix(s, start, prefix@) {
                        assert(s.subrange(start, start + n)[k as int] == s[start + k]);
                    }
                }
                return false;
            }
            proof {
                assert(s.subrange(start, start + k + 1) =~= s.subrange(start, start + k).push(
                    s[start + k],
                ));
                assert(prefix@.subrange(0, k + 1) =~= prefix@.subrange(0, k as int).push(
                    prefix@[k as int],
                ));
            }
            probe.bump();
            k += 1;
        }
        proof {
            assert(prefix@.subrange(0, n as int) =~= prefix@);
        }
        *self = probe;
        true
    }

    /// Advances to the first `c` from the position on and returns true, or to
    /// the end of the text and returns false where there is none.
    pub fn bump_until(&mut self, c: char) -> (found: bool)
        requires
            old(self).wf(),
        ensures
            final(self).wf(),
            final(self).text == old(self).text,
            final(self).index@ == find_char(old(self).text@, old(self).index@, c),
            found == (final(self).index@ < final(self).text@.len()),
    {
        loop
            invariant
                self.wf(),
                self.text == old(self).text,
                old(self).index@ <= self.index@,
                find_char(self.text@, self.index@, c) == find_char(
                    old(self).text@,
                    old(self).index@,
                    c,
                ),
            decreases self.text@.len() - self.index@,
        {
            if self.is_eof() {
                return false;
            }
            if self.char() == c {
                return true;
            }
            self.bump();
        }
    }

    /// Advances over all whitespace to the next scalar value that is none.
    pub fn bump_space(&mut self)
        requires
            old(self).wf(),
        ensures
            final(self).wf(),
            final(self).text == old(self).text,
            final(self).index@ == skip_space(old(self).text@, old(self).index@),
    {
        loop
            invariant
                self.wf(),
                self.text == old(self).text,
                skip_space(self.text@, self.index@) == skip_space(
                    old(self).text@,
                    old(self).index@,
                ),
            decreases self.text@.len() - self.index@,
        {
            if self.is_eof() {
                return ;
            }
            if !is_white_space(self.char()) {
                return ;
            }
            self.bump();
        }
    }

    /// The text from the byte offset `start`, which belongs to the index
    /// `from`, up to the position.
    pub(crate) fn slice_from(&self, start: usize, Ghost(from): Ghost<int>) -> (r: &'s str)
        requires
            self.wf(),
            0 <= from <= self.index@,
            start == pos_at(self.text@, from).offset,
        ensures
            r@ == self.text@.subrange(from, self.index@),
    {
        proof {
            let s = self.text@;
            let j = self.index@;
            self.lemma_position();
            lemma_byte_offset_monotone(s, from, j);
            lemma_offset_is_boundary(s, j);
            lemma_encode_range(s, 0, j);
            assert(byte_offset(s, 0) == 0);
        }
        let (head, _) = self.text.split_at(self.position.offset);
        proof {
            let s = self.text@;
            let j = self.index@;
            let h = s.subrange(0, j);
            lemma_encode_injective(head@, h);
            assert(h.subrange(0, from) =~= s.subrange(0, from));
            lemma_pos_prefix(h, s, from);
            lemma_offset_is_boundary(h, from);
            lemma_encode_range(h, from, j);
            assert(h.subrange(from, j) =~= s.subrange(from, j));
            lemma_encode_len(h);
            assert(h.subrange(0, j) =~= h);
            lemma_pos_prefix(h, s, j);
        }
        let (_, tail) = head.split_at(start);
        proof {
            lemma_encode_injective(tail@, self.text@.subrange(from, self.index@));
        }
        tail
    }
}

} // verus!
