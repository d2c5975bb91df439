//! Operations on strings that the parser needs, over the scalar values that
//! the strings hold.
use crate::chars::is_white_space;
use crate::cursor::{Cursor, has_prefix};
use crate::grammar::{is_skeleton, skeleton_of, trim_end, trimmed_len};
use crate::text::{byte_len, lemma_encode_injective};
use vstd::prelude::*;
use vstd::string::*;

verus! {

/// `String::push`: the string gets the scalar value `c` at its end.
#[verifier::external_body]
pub(crate) fn push_char(text: &mut String, c: char)
    ensures
        final(text)@ == old(text)@.push(c),
{
    text.push(c);
}

/// Whether two strings hold the same scalar values.
pub fn str_eq(a: &str, b: &str) -> (equal: bool)
    ensures
        equal == (a@ == b@),
{
    let x = a.as_bytes();
    let y = b.as_bytes();
    if x.len() != y.len() {
        return false;
    }
    let mut k: usize = 0;
    while k < x.len()
        invariant
            x@ == a.spec_bytes(),
            y@ == b.spec_bytes(),
            x@.len() == y@.len(),
            k <= x@.len(),
            forall|j: int| 0 <= j < k ==> x@[j] == y@[j],
        decreases x@.len() - k,
    {
        if x[k] != y[k] {
            return false;
        }
        k += 1;
    }
    proof {
        assert(x@ =~= y@);
        lemma_encode_injective(a@, b@);
    }
    true
}

/// `text` without the whitespace at its end.
pub fn trim_end_of<'a>(text: &'a str) -> (trimmed: &'a str)
    requires
        byte_len(text@) < usize::MAX,
    ensures
        trimmed@ == trim_end(text@),
{
    let mut cursor = Cursor::new(text);
    let mut end = Cursor::new(text);
    proof {
        assert(text@.subrange(0, 0).len() == 0);
    }
    while !cursor.is_eof()
        invariant
            cursor.wf(),
            end.wf(),
            cursor.text == text,
            end.text == text,
            end.index@ == trimmed_len(text@.subrange(0, cursor.index@)),
        decreases text@.len() - cursor.index@,
    {
        let c = cursor.char();
        proof {
            let before = text@.subrange(0, cursor.index@);
            let after = text@.subrange(0, cursor.index@ + 1);
            assert(after.drop_last() =~= before);
            assert(after.last() == c);
        }
        cursor.bump();
        if !is_white_space(c) {
            end = cursor;
        }
    }
    proof {
        assert(text@.subrange(0, text@.len() as int) =~= text@);
    }
    end.slice_from(0, Ghost(0))
}

/// The skeleton in `style`, where `style` begins with `::`: what follows,
/// without the whitespace at its start.
pub fn skeleton_in<'a>(style: &'a str) -> (skeleton: Option<&'a str>)
    requires
        byte_len(style@) < usize::MAX,
    ensures
        is_skeleton(style@) ==> (skeleton matches Some(k) && k@ == skeleton_of(style@)),
        !is_skeleton(style@) ==> skeleton is None,
{
    let mut cursor = Cursor::new(style);
    proof {
        reveal_strlit("::");
        if has_prefix(style@, 0, "::"@) {
            assert(style@.subrange(0, 2)[0] == ':');
            assert(style@.subrange(0, 2)[1] == ':');
        }
        if is_skeleton(style@) {
            assert(style@.subrange(0, 2) =~= "::"@);
        }
    }
    if cursor.bump_if("::") {
        cursor.bump_space();
        Some(cursor.rest())
    } else {
        None
    }
}

} // verus!
