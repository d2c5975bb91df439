//! Signed decimal integers.
use crate::ast::{Error, ErrorKind, Span};
use crate::chars::{digit_value, is_decimal_digit};
use crate::cursor::has_prefix;
use crate::grammar::{
    after, at, decimal_end, decimal_integer, decimal_value, digit_run, lemma_decimal_bound,
    sign_end,
};
use vstd::prelude::*;
use super::{Parser, error_view};

verus! {

impl<'s> Parser<'s> {
    /// Parses a signed decimal integer: an optional sign and at least one
    /// digit. Without a digit the error is `expect_number_error` at the end
    /// of the message and `invalid_number_error` elsewhere; a number beyond
    /// 64 bits gives `invalid_number_error`.
    pub(super) fn try_parse_decimal_integer(
        &mut self,
        expect_number_error: ErrorKind,
        invalid_number_error: ErrorKind,
    ) -> (r: Result<i64, Error>)
        requires
            old(self).cursor.wf(),
        ensures
            final(self).follows(old(self)),
            match decimal_integer(
                old(self).s(),
                old(self).i(),
                expect_number_error,
                invalid_number_error,
            ) {
                Ok((value, end)) => r == Ok::<i64, Error>(value) && final(self).i() == end,
                Err(failure) => r matches Err(e) && e@ == error_view(old(self).s(), failure),
            },
    {
        let start_position = self.position();
        let ghost s = self.s();
        let ghost i = self.i();
        let mut negative = false;
        proof {
            reveal_strlit("+");
            reveal_strlit("-");
            if has_prefix(s, i, "+"@) {
                assert(s.subrange(i, i + 1)[0] == '+');
            }
            if has_prefix(s, i, "-"@) {
                assert(s.subrange(i, i + 1)[0] == '-');
            }
            if at(s, i, '+') {
                assert(s.subrange(i, i + 1) =~= "+"@);
            }
            if at(s, i, '-') {
                assert(s.subrange(i, i + 1) =~= "-"@);
            }
        }
        if self.cursor.bump_if("+") {
        } else if self.cursor.bump_if("-") {
            negative = true;
        }
        let ghost first = self.i();
        let mut value: i64 = 0;
        let mut overflow = false;
        let mut any = false;
        proof {
            assert(s.subrange(first, first).len() == 0);
            lemma_decimal_bound(s, i);
        }
        loop
            invariant
                self.follows(old(self)),
                s == self.s(),
                first == sign_end(s, i),
                first <= self.i(),
                self.i() + digit_run(s, self.i()) == decimal_end(s, i),
                any == (self.i() > first),
                0 <= value,
                !overflow ==> value == decimal_value(s.subrange(first, self.i())),
                overflow ==> decimal_value(s.subrange(first, self.i())) > i64::MAX,
            ensures
                self.follows(old(self)),
                self.i() == decimal_end(s, i),
                any == (self.i() > first),
                0 <= value,
                !overflow ==> value == decimal_value(s.subrange(first, self.i())),
                overflow ==> decimal_value(s.subrange(first, self.i())) > i64::MAX,
            decreases s.len() - self.i(),
        {
            if self.cursor.is_eof() {
                break ;
            }
            let c = self.cursor.char();
            if !is_decimal_digit(c) {
                break ;
            }
            let digit: i64 = (c as u32 - '0' as u32) as i64;
            proof {
                let before = s.subrange(first, self.i());
                let after = s.subrange(first, self.i() + 1);
                assert(after.drop_last() =~= before);
                assert(after.last() == c);
                assert(decimal_value(after) == decimal_value(before) * 10 + digit_value(c));
            }
            if !overflow {
                match value.checked_mul(10) {
                    Some(tens) => match tens.checked_add(digit) {
                        Some(sum) => {
                            value = sum;
                        },
                        None => {
                            overflow = true;
                        },
                    },
                    None => {
                        overflow = true;
                    },
                }
            }
            any = true;
            self.cursor.bump();
        }
        let span = Span::new(start_position, self.position());
        if !any {
            if self.cursor.is_eof() {
                return Err(self.error(expect_number_error, span));
            }
            return Err(self.error(invalid_number_error, span));
        }
        if overflow {
            return Err(self.error(invalid_number_error, span));
        }
        if negative {
            Ok(-value)
        } else {
            Ok(value)
        }
    }
}

} // verus!
