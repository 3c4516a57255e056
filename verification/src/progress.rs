//! Progress: a parser that succeeds never leaves more input than it was given.
//!
//! The primitive matchers leave a suffix of their input. A combinator leaves no
//! more than its input where the parsers it is given do not. The repetitions
//! check for themselves that each round leaves strictly less than the round
//! before.

use vstd::prelude::*;
use crate::branch::{decides_at, or_outcome};
use crate::combinator::{flat_map_outcome, map_outcome, value_outcome};
use crate::context::context_outcome;
use crate::error::{Er, ErrorKind};
use crate::input::InputLength;
use crate::multi::{
    ends_list,
    ends_repetition,
    is_list_run,
    is_list_step,
    is_run,
    is_step,
    lemma_run_shortens,
    list_rest_outcome,
    many1_outcome,
    repetition_outcome,
    separated_list_outcome,
    separates,
};
use crate::outcome::{IResult, ParseErr};
use crate::parser::{applies, leads, non_increasing, non_increasing_on_clones};
use crate::primitive::{char_outcome, tag_outcome};
use crate::sequence::{delimited_outcome, separated_outcome};

verus! {

/// The character parser, where it succeeds, leaves one byte less.
pub proof fn lemma_char_progress<'a, E: Er<&'a [u8]>>(
    c: char,
    i: &'a [u8],
    r: IResult<&'a [u8], char, E>,
)
    requires
        char_outcome(c, i, r),
        r is Ok,
    ensures
        r->Ok_0.0.spec_input_len() + 1 == i.spec_input_len(),
{
}

/// The literal parser, where it succeeds, leaves the input less the literal.
pub proof fn lemma_tag_progress<'b, E: Er<&'b [u8]>>(
    t: Seq<u8>,
    i: &'b [u8],
    r: IResult<&'b [u8], &'b [u8], E>,
)
    requires
        tag_outcome(t, i, r),
        r is Ok,
    ensures
        r->Ok_0.0.spec_input_len() + t.len() == i.spec_input_len(),
{
}

/// `separated` leaves no more than its input where none of its parsers does.
pub proof fn lemma_separated_progress<
    I: InputLength,
    O1,
    O2,
    O3,
    E,
    F: FnOnce(I) -> IResult<I, O1, E>,
    G: FnOnce(I) -> IResult<I, O2, E>,
    H: FnOnce(I) -> IResult<I, O3, E>,
>(first: F, sep: G, second: H, input: I, r: IResult<I, (O1, O3), E>)
    requires
        separated_outcome(first, sep, second, input, r),
        non_increasing(first),
        non_increasing(sep),
        non_increasing(second),
        r is Ok,
    ensures
        r->Ok_0.0.spec_input_len() <= input.spec_input_len(),
{
}

/// `delimited` leaves no more than its input where none of its parsers does.
pub proof fn lemma_delimited_progress<
    I: InputLength,
    O1,
    O2,
    O3,
    E,
    F: FnOnce(I) -> IResult<I, O1, E>,
    G: FnOnce(I) -> IResult<I, O2, E>,
    H: FnOnce(I) -> IResult<I, O3, E>,
>(first: F, sep: G, second: H, input: I, r: IResult<I, O2, E>)
    requires
        delimited_outcome(first, sep, second, input, r),
        non_increasing(first),
        non_increasing(sep),
        non_increasing(second),
        r is Ok,
    ensures
        r->Ok_0.0.spec_input_len() <= input.spec_input_len(),
{
}

/// `map` leaves no more than its input where its parser does not.
pub proof fn lemma_map_progress<
    I: InputLength,
    O1,
    O2,
    E,
    F: FnOnce(I) -> IResult<I, O1, E>,
    G: FnOnce(O1) -> O2,
>(first: F, second: G, input: I, r: IResult<I, O2, E>)
    requires
        map_outcome(first, second, input, r),
        non_increasing(first),
        r is Ok,
    ensures
        r->Ok_0.0.spec_input_len() <= input.spec_input_len(),
{
}

/// `value` leaves no more than its input where its parser does not.
pub proof fn lemma_value_progress<I: InputLength, O1, O2, E, F: FnOnce(I) -> IResult<I, O1, E>>(
    f: F,
    o: O2,
    input: I,
    r: IResult<I, O2, E>,
)
    requires
        value_outcome(f, o, input, r),
        non_increasing(f),
        r is Ok,
    ensures
        r->Ok_0.0.spec_input_len() <= input.spec_input_len(),
{
}

/// `flat_map` leaves no more than its input where its outer parser does not:
/// what the inner parser leaves of the value is dropped.
pub proof fn lemma_flat_map_progress<
    I: InputLength,
    O1,
    O2,
    E1,
    E2: Into<E1>,
    F: FnOnce(I) -> IResult<I, O1, E1>,
    G: FnOnce(O1) -> IResult<O1, O2, E2>,
>(first: F, second: G, input: I, r: IResult<I, O2, E1>)
    requires
        flat_map_outcome(first, second, input, r),
        non_increasing(first),
        r is Ok,
    ensures
        r->Ok_0.0.spec_input_len() <= input.spec_input_len(),
{
}

/// `or` leaves no more than its input where none of its alternatives does.
pub proof fn lemma_or_progress<
    I: Clone + InputLength,
    O,
    E: Er<I>,
    F: FnOnce(I) -> IResult<I, O, E>,
>(fns: Seq<F>, input: I, r: IResult<I, O, E>)
    requires
        or_outcome(fns, input, r),
        forall|k: int| 0 <= k < fns.len() ==> non_increasing_on_clones(#[trigger] fns[k]),
        r is Ok,
    ensures
        r->Ok_0.0.spec_input_len() <= input.spec_input_len(),
{
    let k = choose|k: int| #[trigger] decides_at(fns, input, k, r);
    let p = r->Ok_0;
    assert(applies(fns[k], input, Ok::<(I, O), ParseErr<E>>((p.0, p.1))));
}

/// A parser under a context leaves no more than its input where the parser
/// itself does not.
pub proof fn lemma_context_progress<
    I: Clone + InputLength,
    O,
    E: Er<I>,
    F: FnOnce(I) -> IResult<I, O, E>,
>(parser: F, label: &'static str, input: I, r: IResult<I, O, E>)
    requires
        context_outcome(parser, label, input, r),
        non_increasing_on_clones(parser),
        r is Ok,
    ensures
        r->Ok_0.0.spec_input_len() <= input.spec_input_len(),
{
    let p = r->Ok_0;
    assert(applies(parser, input, Ok::<(I, O), ParseErr<E>>((p.0, p.1))));
}

/// A repetition leaves no more than it started with, whatever its parser does:
/// it stops at the first round that does not leave strictly less.
pub proof fn lemma_repetition_progress<
    I: Clone + InputLength,
    O,
    E: Er<I>,
    F: FnOnce(I) -> IResult<I, O, E>,
>(f: F, start: I, before: Seq<O>, kind: ErrorKind, r: IResult<I, Vec<O>, E>)
    requires
        repetition_outcome(f, start, before, kind, r),
        r is Ok,
    ensures
        r->Ok_0.0.spec_input_len() <= start.spec_input_len(),
        r->Ok_0.0.spec_input_len() + r->Ok_0.1@.len() <= start.spec_input_len() + before.len(),
{
    let (cursors, values) = choose|cursors: Seq<I>, values: Seq<O>| #[trigger]
        is_run(f, start, cursors, values) && ends_repetition(
            f,
            cursors.last(),
            values.len(),
            before + values,
            kind,
            r,
        );
    lemma_run_shortens(f, start, cursors, values);
}

/// `many1` leaves no more than its input where its parser does not: the first
/// round is the parser's own, every later one leaves strictly less.
pub proof fn lemma_many1_progress<
    I: Clone + InputLength,
    O,
    E: Er<I>,
    F: FnOnce(I) -> IResult<I, O, E>,
>(f: F, input: I, r: IResult<I, Vec<O>, E>)
    requires
        many1_outcome(f, input, r),
        non_increasing_on_clones(f),
        r is Ok,
    ensures
        r->Ok_0.0.spec_input_len() <= input.spec_input_len(),
{
    let (first, o) = choose|first: I, o: O| #[trigger]
        applies(f, input, Ok::<(I, O), ParseErr<E>>((first, o))) && repetition_outcome(
            f,
            first,
            seq![o],
            ErrorKind::Many1,
            r,
        );
    lemma_repetition_progress(f, first, seq![o], ErrorKind::Many1, r);
}

/// A run of separators and items leaves no more than it started with: each of
/// its rounds took at least one item.
pub proof fn lemma_list_run_shortens<
    I: Clone + InputLength,
    O,
    O2,
    E,
    F: FnOnce(I) -> IResult<I, O, E>,
    G: FnOnce(I) -> IResult<I, O2, E>,
>(sep: G, f: F, start: I, cursors: Seq<I>, values: Seq<O>)
    requires
        is_list_run(sep, f, start, cursors, values),
    ensures
        cursors.last().spec_input_len() + values.len() <= start.spec_input_len(),
    decreases values.len(),
{
    if values.len() > 0 {
        let n = values.len() - 1;
        let shorter_cursors = cursors.drop_last();
        let shorter_values = values.drop_last();
        assert forall|k: int| 0 <= k < shorter_values.len() implies #[trigger] is_list_step(
            sep,
            f,
            shorter_cursors,
            shorter_values,
            k,
        ) by {
            assert(is_list_step(sep, f, cursors, values, k));
            let mid = choose|mid: I| #[trigger]
                separates(sep, cursors[k], mid) && applies(
                    f,
                    mid,
                    Ok::<(I, O), ParseErr<E>>((cursors[k + 1], values[k])),
                ) && cursors[k + 1].spec_input_len() < mid.spec_input_len();
            assert(separates(sep, shorter_cursors[k], mid));
        }
        lemma_list_run_shortens(sep, f, start, shorter_cursors, shorter_values);
        assert(is_list_step(sep, f, cursors, values, n));
    }
}

/// `separated_list` leaves no more than its input where its item parser does
/// not: the empty list leaves the input, the first item is the parser's own,
/// every later round leaves strictly less.
pub proof fn lemma_separated_list_progress<
    I: Clone + InputLength,
    O,
    O2,
    E: Er<I>,
    F: FnOnce(I) -> IResult<I, O, E>,
    G: FnOnce(I) -> IResult<I, O2, E>,
>(sep: G, f: F, input: I, r: IResult<I, Vec<O>, E>)
    requires
        separated_list_outcome(sep, f, input, r),
        non_increasing_on_clones(f),
        r is Ok,
    ensures
        r->Ok_0.0.spec_input_len() <= input.spec_input_len(),
{
    if r->Ok_0.0 != input {
        let (first, o) = choose|first: I, o: O| #[trigger]
            applies(f, input, Ok::<(I, O), ParseErr<E>>((first, o))) && list_rest_outcome(
                sep,
                f,
                first,
                seq![o],
                r,
            );
        let (cursors, values) = choose|cursors: Seq<I>, values: Seq<O>| #[trigger]
            is_list_run(sep, f, first, cursors, values) && ends_list(
                sep,
                f,
                cursors.last(),
                seq![o] + values,
                r,
            );
        lemma_list_run_shortens(sep, f, first, cursors, values);
    }
}

} // verus!
