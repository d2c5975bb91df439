//! Positions in a text: how the byte offset, the line and the column of a
//! position follow from the scalar values before it.
use crate::ast::{Position, Span};
use crate::chars::{lemma_utf8_width, utf8_width};
use vstd::prelude::*;
use vstd::utf8::*;

verus! {

/// The number of bytes that the first `i` scalar values of `s` take in UTF-8.
pub open spec fn byte_offset(s: Seq<char>, i: int) -> nat
    decreases i,
{
    if i <= 0 {
        0
    } else {
        byte_offset(s, i - 1) + utf8_width(s[i - 1])
    }
}

/// The line of the position behind the first `i` scalar values of `s`: one
/// more than the number of line feeds among them.
pub open spec fn line_at(s: Seq<char>, i: int) -> nat
    decreases i,
{
    if i <= 0 {
        1
    } else if s[i - 1] == '\n' {
        line_at(s, i - 1) + 1
    } else {
        line_at(s, i - 1)
    }
}

/// The column of the position behind the first `i` scalar values of `s`: one
/// more than the number of scalar values since the last line feed.
pub open spec fn column_at(s: Seq<char>, i: int) -> nat
    decreases i,
{
    if i <= 0 {
        1
    } else if s[i - 1] == '\n' {
        1
    } else {
        column_at(s, i - 1) + 1
    }
}

/// The position behind the first `i` scalar values of `s`.
pub open spec fn pos_at(s: Seq<char>, i: int) -> Position {
    Position {
        offset: byte_offset(s, i) as usize,
        line: line_at(s, i) as usize,
        column: column_at(s, i) as usize,
    }
}

/// The span from behind the first `i` to behind the first `j` scalar values.
pub open spec fn span_at(s: Seq<char>, i: int, j: int) -> Span {
    Span { start: pos_at(s, i), end: pos_at(s, j) }
}

/// The number of bytes of `s` in UTF-8.
pub open spec fn byte_len(s: Seq<char>) -> nat {
    encode_utf8(s).len()
}

/// One scalar value further the byte offset is one to four bytes more.
pub proof fn lemma_byte_offset_step(s: Seq<char>, i: int)
    requires
        0 <= i < s.len(),
    ensures
        byte_offset(s, i + 1) == byte_offset(s, i) + utf8_width(s[i]),
        byte_offset(s, i) < byte_offset(s, i + 1) <= byte_offset(s, i) + 4,
{
    lemma_utf8_width(s[i]);
}

/// The byte offset grows with the index, by at least one byte for each scalar
/// value.
pub proof fn lemma_byte_offset_monotone(s: Seq<char>, i: int, j: int)
    requires
        0 <= i <= j <= s.len(),
    ensures
        byte_offset(s, i) + (j - i) <= byte_offset(s, j),
    decreases j - i,
{
    if i < j {
        lemma_byte_offset_monotone(s, i, j - 1);
        lemma_byte_offset_step(s, j - 1);
    }
}

/// Line and column stay within one more than the number of scalar values.
pub proof fn lemma_line_column_bound(s: Seq<char>, i: int)
    requires
        0 <= i,
    ensures
        1 <= line_at(s, i) <= i + 1,
        1 <= column_at(s, i) <= i + 1,
    decreases i,
{
    if i > 0 {
        lemma_line_column_bound(s, i - 1);
    }
}

/// The first `i` scalar values of `s` decide the position behind them.
pub proof fn lemma_pos_prefix(s: Seq<char>, t: Seq<char>, i: int)
    requires
        0 <= i <= s.len(),
        i <= t.len(),
        s.subrange(0, i) == t.subrange(0, i),
    ensures
        byte_offset(s, i) == byte_offset(t, i),
        line_at(s, i) == line_at(t, i),
        column_at(s, i) == column_at(t, i),
    decreases i,
{
    if i > 0 {
        assert(s.subrange(0, i - 1) == s.subrange(0, i).subrange(0, i - 1));
        assert(t.subrange(0, i - 1) == t.subrange(0, i).subrange(0, i - 1));
        lemma_pos_prefix(s, t, i - 1);
        assert(s[i - 1] == s.subrange(0, i)[i - 1]);
        assert(t[i - 1] == t.subrange(0, i)[i - 1]);
    }
}

/// The encoding of a text is the encoding of a prefix followed by that of the
/// rest.
pub proof fn lemma_encode_split(s: Seq<char>, i: int)
    requires
        0 <= i <= s.len(),
    ensures
        encode_utf8(s) == encode_utf8(s.subrange(0, i)) + encode_utf8(s.subrange(i, s.len() as int)),
    decreases i,
{
    if i == 0 {
        assert(s.subrange(0, 0) =~= Seq::<char>::empty());
        assert(s.subrange(0, s.len() as int) =~= s);
        assert(encode_utf8(s.subrange(0, 0)) =~= Seq::<u8>::empty());
        assert(encode_utf8(s) =~= Seq::<u8>::empty() + encode_utf8(s));
    } else {
        let rest = s.drop_first();
        lemma_encode_split(rest, i - 1);
        let p = s.subrange(0, i);
        assert(p.drop_first() =~= rest.subrange(0, i - 1));
        assert(rest.subrange(i - 1, rest.len() as int) =~= s.subrange(i, s.len() as int));
        assert(p[0] == s[0]);
        assert(encode_utf8(s) =~= encode_scalar(s[0] as u32) + (encode_utf8(rest.subrange(0, i - 1))
            + encode_utf8(s.subrange(i, s.len() as int))));
        assert(encode_utf8(p) =~= encode_scalar(s[0] as u32) + encode_utf8(p.drop_first()));
    }
}

/// The encoding of the first `i` scalar values has `byte_offset(s, i)` bytes.
pub proof fn lemma_encode_prefix_len(s: Seq<char>, i: int)
    requires
        0 <= i <= s.len(),
    ensures
        encode_utf8(s.subrange(0, i)).len() == byte_offset(s, i),
    decreases i,
{
    if i == 0 {
        assert(s.subrange(0, 0) =~= Seq::<char>::empty());
    } else {
        let p = s.subrange(0, i);
        lemma_encode_split(p, i - 1);
        assert(p.subrange(0, i - 1) =~= s.subrange(0, i - 1));
        let last = p.subrange(i - 1, i);
        assert(last.len() == 1);
        assert(last[0] == s[i - 1]);
        assert(last.drop_first() =~= Seq::<char>::empty());
        assert(encode_utf8(last.drop_first()) =~= Seq::<u8>::empty());
        assert(encode_utf8(last) =~= encode_scalar(s[i - 1] as u32));
        lemma_encode_prefix_len(s, i - 1);
    }
}

/// The byte offset of the end of a text is the number of its bytes.
pub proof fn lemma_encode_len(s: Seq<char>)
    ensures
        byte_offset(s, s.len() as int) == byte_len(s),
{
    lemma_encode_prefix_len(s, s.len() as int);
    assert(s.subrange(0, s.len() as int) =~= s);
}

/// The byte offset of an index, counted from the front of the text.
pub proof fn lemma_byte_offset_unfold_front(s: Seq<char>, i: int)
    requires
        0 < i <= s.len(),
    ensures
        byte_offset(s, i) == utf8_width(s[0]) + byte_offset(s.drop_first(), i - 1),
    decreases i,
{
    if i > 1 {
        lemma_byte_offset_unfold_front(s, i - 1);
        assert(s.drop_first()[i - 2] == s[i - 1]);
    } else {
        assert(byte_offset(s, 0) == 0);
        assert(byte_offset(s.drop_first(), 0) == 0);
    }
}

/// The byte offset of every index of a text is a character boundary of its
/// encoding.
pub proof fn lemma_offset_is_boundary(s: Seq<char>, i: int)
    requires
        0 <= i <= s.len(),
    ensures
        is_char_boundary(encode_utf8(s), byte_offset(s, i) as int),
    decreases i,
{
    encode_utf8_valid_utf8(s);
    if i > 0 {
        let bytes = encode_utf8(s);
        encode_utf8_first_scalar(s);
        assert(pop_first_scalar(bytes) =~= encode_utf8(s.drop_first()));
        lemma_byte_offset_unfold_front(s, i);
        lemma_offset_is_boundary(s.drop_first(), i - 1);
        lemma_byte_offset_monotone(s, 0, i);
        lemma_byte_offset_monotone(s, i, s.len() as int);
        lemma_encode_len(s);
    }
}

/// The bytes between the offsets of two indices encode the scalar values
/// between the indices.
pub proof fn lemma_encode_range(s: Seq<char>, i: int, j: int)
    requires
        0 <= i <= j <= s.len(),
    ensures
        byte_offset(s, i) <= byte_offset(s, j) <= encode_utf8(s).len(),
        encode_utf8(s).subrange(byte_offset(s, i) as int, byte_offset(s, j) as int) == encode_utf8(
            s.subrange(i, j),
        ),
{
    let n = s.len() as int;
    lemma_byte_offset_monotone(s, i, j);
    lemma_byte_offset_monotone(s, j, n);
    lemma_encode_len(s);
    let head = s.subrange(0, j);
    lemma_encode_split(s, j);
    lemma_encode_prefix_len(s, j);
    lemma_encode_split(head, i);
    assert(head.subrange(0, i) =~= s.subrange(0, i));
    assert(head.subrange(i, head.len() as int) =~= s.subrange(i, j));
    lemma_encode_prefix_len(s, i);
    let a = encode_utf8(s.subrange(0, i));
    let b = encode_utf8(s.subrange(i, j));
    let c = encode_utf8(s.subrange(j, n));
    assert(encode_utf8(s) == (a + b) + c);
    assert(((a + b) + c).subrange(a.len() as int, (a.len() + b.len()) as int) =~= b);
}

/// Two texts with the same encoding are the same text.
pub proof fn lemma_encode_injective(a: Seq<char>, b: Seq<char>)
    requires
        encode_utf8(a) == encode_utf8(b),
    ensures
        a == b,
{
    encode_utf8_decode_utf8(a);
    encode_utf8_decode_utf8(b);
}

/// A part of a text takes no more bytes than the text.
pub proof fn lemma_subrange_byte_len(s: Seq<char>, i: int, j: int)
    requires
        0 <= i <= j <= s.len(),
    ensures
        byte_len(s.subrange(i, j)) == byte_offset(s, j) - byte_offset(s, i),
        byte_len(s.subrange(i, j)) <= byte_len(s),
{
    lemma_encode_range(s, i, j);
    lemma_encode_len(s.subrange(i, j));
    lemma_encode_len(s);
    lemma_byte_offset_monotone(s, 0, i);
    lemma_byte_offset_monotone(s, j, s.len() as int);
    assert(byte_offset(s, 0) == 0);
}

/// How often the byte `b` stands in `bytes`.
pub open spec fn count_byte(bytes: Seq<u8>, b: u8) -> nat
    decreases bytes.len(),
{
    if bytes.len() == 0 {
        0
    } else if bytes.last() == b {
        count_byte(bytes.drop_last(), b) + 1
    } else {
        count_byte(bytes.drop_last(), b)
    }
}

/// A byte stands in two sequences, one behind the other, as often as in
/// both.
pub proof fn lemma_count_byte_concat(x: Seq<u8>, y: Seq<u8>, b: u8)
    ensures
        count_byte(x + y, b) == count_byte(x, b) + count_byte(y, b),
    decreases y.len(),
{
    if y.len() == 0 {
        assert(x + y =~= x);
    } else {
        lemma_count_byte_concat(x, y.drop_last(), b);
        assert((x + y).drop_last() =~= x + y.drop_last());
        assert((x + y).last() == y.last());
    }
}

/// Only the line feed has the byte of the line feed in its encoding, once.
pub proof fn lemma_scalar_line_feeds(c: char)
    ensures
        count_byte(encode_scalar(c as u32), 0x0a) == if c == '\n' {
            1nat
        } else {
            0nat
        },
{
    let v = c as u32;
    char_is_scalar(c);
    let bytes = encode_scalar(v);
    reveal_with_fuel(count_byte, 5);
    assert(v <= 0x7f ==> (((v & 0x7F) as u8) == 0x0au8 <==> v == 0x0a)) by (bit_vector);
    assert((0xC0u8 | ((v >> 6) & 0x1F) as u8) != 0x0au8) by (bit_vector);
    assert((0xE0u8 | ((v >> 12) & 0x0F) as u8) != 0x0au8) by (bit_vector);
    assert((0xF0u8 | ((v >> 18) & 0x7) as u8) != 0x0au8) by (bit_vector);
    assert((0x80u8 | (v & 0x3F) as u8) != 0x0au8) by (bit_vector);
    assert((0x80u8 | ((v >> 6) & 0x3F) as u8) != 0x0au8) by (bit_vector);
    assert((0x80u8 | ((v >> 12) & 0x3F) as u8) != 0x0au8) by (bit_vector);
    if has_width_1_encoding(v) {
        assert(bytes.drop_last() =~= Seq::<u8>::empty());
    } else if has_width_2_encoding(v) {
        assert(bytes.drop_last() =~= seq![bytes[0]]);
        assert(bytes.drop_last().drop_last() =~= Seq::<u8>::empty());
    } else if has_width_3_encoding(v) {
        assert(bytes.drop_last() =~= seq![bytes[0], bytes[1]]);
        assert(bytes.drop_last().drop_last() =~= seq![bytes[0]]);
        assert(bytes.drop_last().drop_last().drop_last() =~= Seq::<u8>::empty());
    } else {
        assert(bytes.drop_last() =~= seq![bytes[0], bytes[1], bytes[2]]);
        assert(bytes.drop_last().drop_last() =~= seq![bytes[0], bytes[1]]);
        assert(bytes.drop_last().drop_last().drop_last() =~= seq![bytes[0]]);
        assert(bytes.drop_last().drop_last().drop_last().drop_last() =~= Seq::<u8>::empty());
    }
}

/// The line of a position is one more than the number of line feed bytes
/// before it.
pub proof fn lemma_line_counts_feeds(s: Seq<char>, i: int)
    requires
        0 <= i <= s.len(),
    ensures
        line_at(s, i) == 1 + count_byte(
            encode_utf8(s).subrange(0, byte_offset(s, i) as int),
            0x0a,
        ),
    decreases i,
{
    lemma_encode_range(s, 0, i);
    assert(byte_offset(s, 0) == 0);
    if i == 0 {
        assert(encode_utf8(s).subrange(0, 0) =~= Seq::<u8>::empty());
    } else {
        lemma_line_counts_feeds(s, i - 1);
        lemma_encode_range(s, 0, i - 1);
        lemma_encode_range(s, i - 1, i);
        lemma_byte_offset_monotone(s, i - 1, i);
        let bytes = encode_utf8(s);
        let a = byte_offset(s, i - 1) as int;
        let b = byte_offset(s, i) as int;
        assert(bytes.subrange(0, b) =~= bytes.subrange(0, a) + bytes.subrange(a, b));
        lemma_count_byte_concat(bytes.subrange(0, a), bytes.subrange(a, b), 0x0a);
        let one = s.subrange(i - 1, i);
        assert(one.drop_first() =~= Seq::<char>::empty());
        assert(encode_utf8(one.drop_first()) =~= Seq::<u8>::empty());
        assert(encode_utf8(one) =~= encode_scalar(s[i - 1] as u32));
        lemma_scalar_line_feeds(s[i - 1]);
    }
}

} // verus!
