//! The character classes of the message grammar.
use vstd::prelude::*;
use vstd::utf8::*;

verus! {

/// Whether `c` has the Unicode property `White_Space`.
pub open spec fn white_space(c: char) -> bool {
    let v = c as u32;
    ||| 0x09 <= v <= 0x0d
    ||| v == 0x20
    ||| v == 0x85
    ||| v == 0xa0
    ||| v == 0x1680
    ||| 0x2000 <= v <= 0x200a
    ||| v == 0x2028
    ||| v == 0x2029
    ||| v == 0x202f
    ||| v == 0x205f
    ||| v == 0x3000
}

/// Whether `c` is Unicode whitespace. U+00A0, the no-break space, is.
pub fn is_white_space(c: char) -> (b: bool)
    ensures
        b == white_space(c),
{
    let v: u32 = c as u32;
    if v < 0x80 {
        (0x09 <= v && v <= 0x0d) || v == 0x20
    } else if v < 0x2000 {
        v == 0x85 || v == 0xa0 || v == 0x1680
    } else {
        v <= 0x200a || v == 0x2028 || v == 0x2029 || v == 0x202f || v == 0x205f || v == 0x3000
    }
}

/// Whether `c` is one of the ASCII digits `0` to `9`.
pub open spec fn decimal_digit(c: char) -> bool {
    '0' <= c <= '9'
}

/// Whether `c` is one of the ASCII digits `0` to `9`.
pub fn is_decimal_digit(c: char) -> (b: bool)
    ensures
        b == decimal_digit(c),
{
    '0' <= c && c <= '9'
}

/// The number that the ASCII digit `c` stands for.
pub open spec fn digit_value(c: char) -> int {
    c as u32 - '0' as u32
}

/// Whether `c` is one of the ASCII letters `a` to `z`.
pub open spec fn ascii_lowercase(c: char) -> bool {
    'a' <= c <= 'z'
}

/// Whether `c` is one of the ASCII letters `a` to `z`.
pub fn is_ascii_lowercase(c: char) -> (b: bool)
    ensures
        b == ascii_lowercase(c),
{
    'a' <= c && c <= 'z'
}

/// Whether `c` may stand in a tag name behind its first letter.
pub open spec fn potential_element_name_char(c: char) -> bool {
    let v = c as u32;
    ||| c == '-'
    ||| c == '.'
    ||| '0' <= c <= '9'
    ||| c == '_'
    ||| 'a' <= c <= 'z'
    ||| 'A' <= c <= 'Z'
    ||| v == 0xb7
    ||| 0xc0 <= v <= 0xd6
    ||| 0xd8 <= v <= 0xf6
    ||| 0xf8 <= v <= 0x37d
    ||| 0x37f <= v <= 0x1fff
    ||| 0x200c <= v <= 0x200d
    ||| 0x203f <= v <= 0x2040
    ||| 0x2070 <= v <= 0x218f
    ||| 0x2c00 <= v <= 0x2fef
    ||| 0x3001 <= v <= 0xd7ff
    ||| 0xf900 <= v <= 0xfdcf
    ||| 0xfdf0 <= v <= 0xfffd
    ||| 0x10000 <= v <= 0xeffff
}

/// Whether `c` may stand in a tag name behind its first letter.
pub fn is_potential_element_name_char(c: char) -> (b: bool)
    ensures
        b == potential_element_name_char(c),
{
    let v: u32 = c as u32;
    if v < 0x80 {
        c == '-' || c == '.' || ('0' <= c && c <= '9') || c == '_' || ('a' <= c && c <= 'z') || (
        'A' <= c && c <= 'Z')
    } else if v < 0x2000 {
        v == 0xb7 || (0xc0 <= v && v <= 0xd6) || (0xd8 <= v && v <= 0xf6) || (0xf8 <= v && v
            <= 0x37d) || 0x37f <= v
    } else if v < 0x3001 {
        (0x200c <= v && v <= 0x200d) || (0x203f <= v && v <= 0x2040) || (0x2070 <= v && v
            <= 0x218f) || (0x2c00 <= v && v <= 0x2fef)
    } else {
        v <= 0xd7ff || (0xf900 <= v && v <= 0xfdcf) || (0xfdf0 <= v && v <= 0xfffd) || (0x10000
            <= v && v <= 0xeffff)
    }
}

/// The number of bytes that `c` takes in UTF-8.
pub open spec fn utf8_width(c: char) -> nat {
    encode_scalar(c as u32).len()
}

/// A scalar value takes one to four bytes, by its size.
pub proof fn lemma_utf8_width(c: char)
    ensures
        1 <= utf8_width(c) <= 4,
        utf8_width(c) == if (c as u32) < 0x80 {
            1nat
        } else if (c as u32) < 0x800 {
            2nat
        } else if (c as u32) < 0x10000 {
            3nat
        } else {
            4nat
        },
{
    char_is_scalar(c);
}

/// The number of bytes that `c` takes in UTF-8.
pub fn len_utf8(c: char) -> (n: usize)
    ensures
        n == utf8_width(c),
        1 <= n <= 4,
{
    proof {
        lemma_utf8_width(c);
    }
    let v: u32 = c as u32;
    if v < 0x80 {
        1
    } else if v < 0x800 {
        2
    } else if v < 0x10000 {
        3
    } else {
        4
    }
}

} // verus!
