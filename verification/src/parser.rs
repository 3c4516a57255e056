//! What it means to apply a parser that is given as a function.
//!
//! A combinator knows of the parsers it is given only what their own contracts
//! say. Its contract is therefore stated over those: which calls it makes, and
//! how its result is made of what they may return.

use vstd::prelude::*;
use crate::input::InputLength;
use crate::outcome::{IResult, ParseErr};

verus! {

/// Whether `f` may be called on every clone of `input`.
pub open spec fn callable<I: Clone, R, F: FnOnce(I) -> R>(f: F, input: I) -> bool {
    forall|c: I| cloned(input, c) ==> #[trigger] f.requires((c,))
}

/// Whether `r` is a result that `f` may return on a clone of `input`.
pub open spec fn applies<I: Clone, R, F: FnOnce(I) -> R>(f: F, input: I, r: R) -> bool {
    exists|c: I| cloned(input, c) && #[trigger] f.ensures((c,), r)
}

/// Whether `g` may be called on what `f` leaves, wherever `f` succeeds.
pub open spec fn callable_after<
    I: Clone,
    O1,
    O2,
    E,
    F: FnOnce(I) -> IResult<I, O1, E>,
    G: FnOnce(I) -> IResult<I, O2, E>,
>(f: F, g: G) -> bool {
    forall|i: I, rest: I, o: O1| #[trigger] f.ensures((i,), Ok((rest, o))) ==> callable(g, rest)
}

/// Whether `f` never leaves more input than it was given.
pub open spec fn non_increasing<I: InputLength, O, E, F: FnOnce(I) -> IResult<I, O, E>>(
    f: F,
) -> bool {
    forall|i: I, rest: I, o: O| #[trigger]
        f.ensures((i,), Ok((rest, o))) ==> rest.spec_input_len() <= i.spec_input_len()
}

/// Whether `f`, applied to a clone of an input, never leaves more than that
/// input holds.
pub open spec fn non_increasing_on_clones<
    I: Clone + InputLength,
    O,
    E,
    F: FnOnce(I) -> IResult<I, O, E>,
>(f: F) -> bool {
    forall|i: I, rest: I, o: O| #[trigger]
        applies(f, i, Ok::<(I, O), ParseErr<E>>((rest, o))) ==> rest.spec_input_len()
            <= i.spec_input_len()
}

/// Whether `f` may take `input` to `rest`, whatever its value.
pub open spec fn leads<I, O, E, F: FnOnce(I) -> IResult<I, O, E>>(f: F, input: I, rest: I) -> bool {
    exists|o: O| #[trigger] f.ensures((input,), Ok::<(I, O), ParseErr<E>>((rest, o)))
}

/// Whether `f` may fail on `input` with `e`.
pub open spec fn fails<I, O, E, F: FnOnce(I) -> IResult<I, O, E>>(
    f: F,
    input: I,
    e: ParseErr<E>,
) -> bool {
    f.ensures((input,), Err::<(I, O), ParseErr<E>>(e))
}

} // verus!
