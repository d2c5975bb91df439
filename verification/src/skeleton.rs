//! The tokenizer for number skeletons: `stem/option/option stem ...`.
use crate::ast::{
    ErrorKind, NumberSkeleton, NumberSkeletonToken, NumberSkeletonTokenView, Span, strs_view,
    tokens_view,
};
use crate::chars::is_white_space;
use crate::cursor::{Cursor, find_char, lemma_find_char_bounds, lemma_skip_space_bounds};
use crate::grammar::{
    lemma_word_run_bound, number_skeleton, skeleton_token, skeleton_tokens, token_options,
    word_run,
};
use crate::text::{byte_len, lemma_subrange_byte_len};
use vstd::prelude::*;

verus! {

/// `found` before what `rest` holds, or the error in `rest`.
pub open spec fn prepend<T>(found: Seq<T>, rest: Result<Seq<T>, ErrorKind>) -> Result<
    Seq<T>,
    ErrorKind,
> {
    match rest {
        Err(kind) => Err(kind),
        Ok(more) => Ok(found + more),
    }
}

/// Tokenizes one word of a number skeleton: the stem is what stands before
/// the first `/`, and each option what stands between one `/` and the next.
/// An empty option gives `InvalidNumberSkeleton`.
pub fn parse_number_skeleton_token<'s>(word: &'s str) -> (r: Result<
    NumberSkeletonToken<'s>,
    ErrorKind,
>)
    requires
        byte_len(word@) < usize::MAX,
    ensures
        match skeleton_token(word@) {
            Ok(token) => r matches Ok(t) && t@ == token,
            Err(kind) => r matches Err(k) && k == kind,
        },
{
    let mut cursor = Cursor::new(word);
    let ghost w = word@;
    cursor.bump_until('/');
    let stem = cursor.slice_from(0, Ghost(0));
    let mut options: Vec<&'s str> = Vec::new();
    proof {
        lemma_find_char_bounds(w, 0, '/');
        assert(strs_view(options@) =~= Seq::<Seq<char>>::empty());
    }
    let ghost first = cursor.index@;
    while !cursor.is_eof()
        invariant
            cursor.wf(),
            cursor.text == word,
            w == word@,
            first == find_char(w, 0, '/'),
            stem@ == w.subrange(0, first),
            cursor.index@ < w.len() ==> w[cursor.index@] == '/',
            prepend(strs_view(options@), token_options(w, cursor.index@)) == token_options(
                w,
                first,
            ),
        decreases w.len() - cursor.index@,
    {
        let ghost k = cursor.index@;
        cursor.bump();
        let start = cursor.offset();
        cursor.bump_until('/');
        proof {
            lemma_find_char_bounds(w, k + 1, '/');
        }
        if cursor.offset() == start {
            proof {
                cursor.lemma_position();
                crate::text::lemma_byte_offset_monotone(w, k + 1, cursor.index@);
            }
            return Err(ErrorKind::InvalidNumberSkeleton);
        }
        let option = cursor.slice_from(start, Ghost(k + 1));
        proof {
            let rest = token_options(w, cursor.index@);
            assert(strs_view(options@.push(option)) =~= strs_view(options@).push(option@));
            match rest {
                Ok(more) => {
                    assert(strs_view(options@).push(option@) + more =~= strs_view(options@) + (
                    seq![option@] + more));
                },
                Err(_) => {},
            }
        }
        options.push(option);
    }
    proof {
        assert(strs_view(options@) + Seq::<Seq<char>>::empty() =~= strs_view(options@));
    }
    Ok(NumberSkeletonToken { stem, options })
}

/// Tokenizes a number skeleton: one token for each word between whitespace.
/// The empty skeleton gives `ExpectNumberSkeleton`, an empty option
/// `InvalidNumberSkeleton`. `span` is handed on.
pub fn parse_number_skeleton_from_string<'s>(skeleton: &'s str, span: Span) -> (r: Result<
    NumberSkeleton<'s>,
    ErrorKind,
>)
    requires
        byte_len(skeleton@) < usize::MAX,
    ensures
        match number_skeleton(skeleton@, span) {
            Ok(view) => r matches Ok(k) && k@ == view,
            Err(kind) => r matches Err(k) && k == kind,
        },
{
    let mut cursor = Cursor::new(skeleton);
    let ghost t = skeleton@;
    if cursor.is_eof() {
        return Err(ErrorKind::ExpectNumberSkeleton);
    }
    let mut tokens: Vec<NumberSkeletonToken<'s>> = Vec::new();
    proof {
        assert(tokens_view(tokens@) =~= Seq::<NumberSkeletonTokenView>::empty());
    }
    loop
        invariant
            cursor.wf(),
            cursor.text == skeleton,
            t == skeleton@,
            t.len() > 0,
            prepend(tokens_view(tokens@), skeleton_tokens(t, cursor.index@)) == skeleton_tokens(
                t,
                0,
            ),
        decreases t.len() - cursor.index@,
    {
        let ghost i = cursor.index@;
        cursor.bump_space();
        proof {
            lemma_skip_space_bounds(t, i);
        }
        if cursor.is_eof() {
            proof {
                assert(tokens_view(tokens@) + Seq::<NumberSkeletonTokenView>::empty()
                    =~= tokens_view(tokens@));
            }
            return Ok(NumberSkeleton { tokens, span });
        }
        let start = cursor.offset();
        let ghost from = cursor.index@;
        loop
            invariant
                cursor.wf(),
                cursor.text == skeleton,
                t == skeleton@,
                from <= cursor.index@,
                cursor.index@ + word_run(t, cursor.index@) == from + word_run(t, from),
            ensures
                cursor.wf(),
                cursor.text == skeleton,
                cursor.index@ == from + word_run(t, from),
            decreases t.len() - cursor.index@,
        {
            if cursor.is_eof() {
                break ;
            }
            if is_white_space(cursor.char()) {
                break ;
            }
            cursor.bump();
        }
        proof {
            lemma_word_run_bound(t, from);
            lemma_subrange_byte_len(t, from, cursor.index@);
        }
        let word = cursor.slice_from(start, Ghost(from));
        let token = match parse_number_skeleton_token(word) {
            Ok(token) => token,
            Err(kind) => {
                return Err(kind);
            },
        };
        proof {
            let rest = skeleton_tokens(t, cursor.index@);
            assert(tokens_view(tokens@.push(token)) =~= tokens_view(tokens@).push(token@));
            match rest {
                Ok(more) => {
                    assert(tokens_view(tokens@).push(token@) + more =~= tokens_view(tokens@) + (
                    seq![token@] + more));
                },
                Err(_) => {},
            }
        }
        tokens.push(token);
    }
}

} // verus!
