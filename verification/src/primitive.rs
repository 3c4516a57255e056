//! The primitive matchers: one character, a literal, a span of items that
//! satisfy a predicate.

use vstd::prelude::*;
use crate::error::{Er, ErrorKind};
use crate::input::{has_prefix, is_rest_after, is_span_end, span_end, splits_at, starts_with};
use crate::outcome::{IResult, Needed, ParseErr};

verus! {

/// What the parser for the character `c` returns on the input `i`: the rest after
/// one byte if that byte is `c`, `Incomplete` on empty input, `Error` of kind
/// `Char` at `i` on another byte.
pub open spec fn char_outcome<'a, E: Er<&'a [u8]>>(
    c: char,
    i: &'a [u8],
    r: IResult<&'a [u8], char, E>,
) -> bool {
    match r {
        Ok((rest, ch)) => i@.len() > 0 && i@[0] as char == c && ch == c && is_rest_after(
            i@,
            1,
            rest@,
        ),
        Err(ParseErr::Incomplete(n)) => i@.len() == 0 && n == Needed::Unknown,
        Err(ParseErr::Error(e)) => i@.len() > 0 && i@[0] as char != c && e.made_from(
            i,
            ErrorKind::Char,
        ),
        Err(ParseErr::Failure(_)) => false,
    }
}

/// The parser that takes one byte if it is the character `c`. The byte is read
/// as a character of the same number; a character above 255 matches nothing.
pub fn char<'a, E: Er<&'a [u8]>>(c: char) -> (p: impl Fn(&'a [u8]) -> IResult<&'a [u8], char, E>)
    ensures
        forall|i: &'a [u8]| p.requires((i,)),
        forall|i: &'a [u8], r: IResult<&'a [u8], char, E>|
            p.ensures((i,), r) ==> char_outcome(c, i, r),
{
    move |i: &'a [u8]| -> (r: IResult<&'a [u8], char, E>)
        ensures
            char_outcome(c, i, r),
        {
            if i.len() == 0 {
                Err(ParseErr::Incomplete(Needed::Unknown))
            } else if i[0] as char == c {
                let (_, rest) = i.split_at(1);
                Ok((rest, c))
            } else {
                Err(ParseErr::Error(E::from_error_kind(i, ErrorKind::Char)))
            }
        }
}

/// What the parser for the literal `t` returns on the input `i`: the literal's
/// bytes and the rest behind them if `i` starts with `t`, else `Error` of kind
/// `Tag` at `i`, also where `i` is shorter than `t`.
pub open spec fn tag_outcome<'b, E: Er<&'b [u8]>>(
    t: Seq<u8>,
    i: &'b [u8],
    r: IResult<&'b [u8], &'b [u8], E>,
) -> bool {
    match r {
        Ok((rest, matched)) => starts_with(i@, t) && matched@ == t && is_rest_after(
            i@,
            t.len() as int,
            rest@,
        ),
        Err(ParseErr::Error(e)) => !starts_with(i@, t) && e.made_from(i, ErrorKind::Tag),
        Err(ParseErr::Incomplete(_)) => false,
        Err(ParseErr::Failure(_)) => false,
    }
}

/// The parser that takes the literal `t` from the front of its input.
pub fn tag<'b, 'a: 'b, E: Er<&'b [u8]>>(t: &'a [u8]) -> (p: impl Fn(&'b [u8]) -> IResult<
    &'b [u8],
    &'b [u8],
    E,
>)
    ensures
        forall|i: &'b [u8]| p.requires((i,)),
        forall|i: &'b [u8], r: IResult<&'b [u8], &'b [u8], E>|
            p.ensures((i,), r) ==> tag_outcome(t@, i, r),
{
    move |i: &'b [u8]| -> (r: IResult<&'b [u8], &'b [u8], E>)
        ensures
            tag_outcome(t@, i, r),
        {
            if has_prefix(i, t) {
                let (matched, rest) = i.split_at(t.len());
                Ok((rest, matched))
            } else {
                Err(ParseErr::Error(E::from_error_kind(i, ErrorKind::Tag)))
            }
        }
}

/// Takes the longest prefix of `input` on whose items `cond` returns `true`. The
/// prefix may be empty or the whole input: this parser always succeeds.
pub fn take_while<'a, T: Copy, F, E: Er<&'a [T]>>(input: &'a [T], cond: F) -> (r: IResult<
    &'a [T],
    &'a [T],
    E,
>) where F: Fn(T) -> bool
    requires
        forall|k: int| 0 <= k < input@.len() ==> cond.requires((#[trigger] input@[k],)),
    ensures
        r matches Ok((rest, span)) && is_span_end(cond, input@, span@.len() as int) && splits_at(
            input@,
            span@.len() as int,
            span@,
            rest@,
        ) && span@.len() + rest@.len() == input@.len(),
{
    let n = span_end(input, &cond);
    let (span, rest) = input.split_at(n);
    Ok((rest, span))
}

/// Takes the longest prefix of `input` on whose items `cond` returns `true`, and
/// fails with kind `TakeWhile1` at `input` where that prefix is empty.
pub fn take_while1<'a, T: Copy, F, E: Er<&'a [T]>>(input: &'a [T], cond: F) -> (r: IResult<
    &'a [T],
    &'a [T],
    E,
>) where F: Fn(T) -> bool
    requires
        forall|k: int| 0 <= k < input@.len() ==> cond.requires((#[trigger] input@[k],)),
    ensures
        match r {
            Ok((rest, span)) => span@.len() > 0 && is_span_end(cond, input@, span@.len() as int)
                && splits_at(input@, span@.len() as int, span@, rest@) && span@.len() + rest@.len()
                == input@.len(),
            Err(ParseErr::Error(e)) => is_span_end(cond, input@, 0) && e.made_from(
                input,
                ErrorKind::TakeWhile1,
            ),
            Err(ParseErr::Incomplete(_)) => false,
            Err(ParseErr::Failure(_)) => false,
        },
{
    let n = span_end(input, &cond);
    if n == 0 {
        Err(ParseErr::Error(E::from_error_kind(input, ErrorKind::TakeWhile1)))
    } else {
        let (span, rest) = input.split_at(n);
        Ok((rest, span))
    }
}

} // verus!
