//! The Unicode `Pattern_Syntax` property: the code points that end an
//! identifier.
use vstd::prelude::*;

verus! {

/// The number of ranges in `PATTERN_SYNTAX_RANGES`.
pub const PATTERN_SYNTAX_RANGE_COUNT: usize = 28;

/// The code points with the Unicode property `Pattern_Syntax`, as inclusive
/// ranges `(first, last)` in ascending order, no two of them touching.
pub const PATTERN_SYNTAX_RANGES: [(u32, u32); 28] = [
    (0x21, 0x2f),
    (0x3a, 0x40),
    (0x5b, 0x5e),
    (0x60, 0x60),
    (0x7b, 0x7e),
    (0xa1, 0xa7),
    (0xa9, 0xa9),
    (0xab, 0xac),
    (0xae, 0xae),
    (0xb0, 0xb1),
    (0xb6, 0xb6),
    (0xbb, 0xbb),
    (0xbf, 0xbf),
    (0xd7, 0xd7),
    (0xf7, 0xf7),
    (0x2010, 0x2027),
    (0x2030, 0x203e),
    (0x2041, 0x2053),
    (0x2055, 0x205e),
    (0x2190, 0x245f),
    (0x2500, 0x2775),
    (0x2794, 0x2bff),
    (0x2e00, 0x2e7f),
    (0x3001, 0x3003),
    (0x3008, 0x3020),
    (0x3030, 0x3030),
    (0xfd3e, 0xfd3f),
    (0xfe45, 0xfe46),
];

/// Whether the code point `v` lies in the `i`-th range of the table.
pub open spec fn in_range(v: u32, i: int) -> bool {
    PATTERN_SYNTAX_RANGES[i].0 <= v <= PATTERN_SYNTAX_RANGES[i].1
}

/// Whether `c` has the `Pattern_Syntax` property: its code point lies in one
/// of the ranges of the table.
pub open spec fn pattern_syntax(c: char) -> bool {
    exists|i: int| 0 <= i < 28 && #[trigger] in_range(c as u32, i)
}

/// The table is in ascending order: a range ends before the next begins.
proof fn lemma_ranges_ascending()
    ensures
        PATTERN_SYNTAX_RANGES@.len() == 28,
        forall|i: int|
            0 <= i < 28 ==> (#[trigger] PATTERN_SYNTAX_RANGES[i]).0 <= PATTERN_SYNTAX_RANGES[i].1,
        forall|i: int, j: int|
            0 <= i < j < 28 ==> (#[trigger] PATTERN_SYNTAX_RANGES[i]).1 < (
            #[trigger] PATTERN_SYNTAX_RANGES[j]).0,
{
}

/// Whether `c` has the `Pattern_Syntax` property, by binary search in the
/// table.
pub fn is_pattern_syntax(c: char) -> (b: bool)
    ensures
        b == pattern_syntax(c),
{
    let v: u32 = c as u32;
    let mut low: usize = 0;
    let mut high: usize = PATTERN_SYNTAX_RANGE_COUNT;
    proof {
        lemma_ranges_ascending();
    }
    while low < high
        invariant
            low <= high <= 28,
            v == c as u32,
            forall|i: int| 0 <= i < low ==> PATTERN_SYNTAX_RANGES[i].1 < v,
            forall|i: int| high <= i < 28 ==> v < PATTERN_SYNTAX_RANGES[i].0,
        decreases high - low,
    {
        let mid: usize = low + (high - low) / 2;
        let range: (u32, u32) = PATTERN_SYNTAX_RANGES[mid];
        proof {
            lemma_ranges_ascending();
        }
        if range.1 < v {
            low = mid + 1;
        } else if v < range.0 {
            high = mid;
        } else {
            assert(in_range(v, mid as int));
            return true;
        }
    }
    assert(forall|i: int| 0 <= i < 28 ==> !in_range(v, i));
    false
}

} // verus!
