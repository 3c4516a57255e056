//! Transformation: what is done with the value of a parser.

use vstd::prelude::*;
use crate::error::Er;
use crate::outcome::{IResult, ParseErr};
use crate::parser::{fails, leads};

verus! {

/// What `map` returns: what `first` left and `second` of its value, or the
/// failure of `first`.
pub open spec fn map_outcome<I, O1, O2, E, F: FnOnce(I) -> IResult<I, O1, E>, G: FnOnce(O1) -> O2>(
    first: F,
    second: G,
    input: I,
    r: IResult<I, O2, E>,
) -> bool {
    match r {
        Ok((rest, o2)) => exists|o1: O1| #[trigger]
            second.ensures((o1,), o2) && first.ensures(
                (input,),
                Ok::<(I, O1), ParseErr<E>>((rest, o1)),
            ),
        Err(e) => fails(first, input, e),
    }
}

/// Runs `first` and, where it succeeds, applies `second` to its value. What is
/// left, and a failure, are those of `first`.
pub fn map<I, O1, O2, E, F, G>(input: I, first: F, second: G) -> (r: IResult<I, O2, E>) where
    F: Fn(I) -> IResult<I, O1, E>,
    G: Fn(O1) -> O2,

    requires
        first.requires((input,)),
        forall|rest: I, o1: O1| #[trigger]
            first.ensures((input,), Ok((rest, o1))) ==> second.requires((o1,)),
    ensures
        map_outcome(first, second, input, r),
{
    match first(input) {
        Err(e) => Err(e),
        Ok((rest, o1)) => {
            let o2 = second(o1);
            let r = Ok((rest, o2));
            proof {
                assert(r->Ok_0.0 == rest && r->Ok_0.1 == o2);
            }
            r
        },
    }
}

/// What `value` returns: what `f` left and the constant `o`, or the failure of
/// `f`.
pub open spec fn value_outcome<I, O1, O2, E, F: FnOnce(I) -> IResult<I, O1, E>>(
    f: F,
    o: O2,
    input: I,
    r: IResult<I, O2, E>,
) -> bool {
    match r {
        Ok((rest, v)) => v == o && leads(f, input, rest),
        Err(e) => fails(f, input, e),
    }
}

/// Runs `f` for what it matches only: where it succeeds, its value is dropped
/// and `o` is returned in its place.
pub fn value<I, O1, O2, E: Er<I>, F>(input: I, f: F, o: O2) -> (r: IResult<I, O2, E>) where
    F: Fn(I) -> IResult<I, O1, E>,

    requires
        f.requires((input,)),
    ensures
        value_outcome(f, o, input, r),
{
    match f(input) {
        Err(e) => Err(e),
        Ok((rest, o1)) => Ok((rest, o)),
    }
}

/// What `flat_map` returns: what `first` left and the value that `second` made
/// of the value of `first`; or the failure of `first`; or the failure of
/// `second`, carried over to the outer error representation.
pub open spec fn flat_map_outcome<
    I,
    O1,
    O2,
    E1,
    E2: Into<E1>,
    F: FnOnce(I) -> IResult<I, O1, E1>,
    G: FnOnce(O1) -> IResult<O1, O2, E2>,
>(first: F, second: G, input: I, r: IResult<I, O2, E1>) -> bool {
    match r {
        Ok((rest, o2)) => exists|o1: O1, inner_rest: O1| #[trigger]
            second.ensures((o1,), Ok::<(O1, O2), ParseErr<E2>>((inner_rest, o2)))
                && first.ensures((input,), Ok::<(I, O1), ParseErr<E1>>((rest, o1))),
        Err(e) => fails(first, input, e) || exists|rest: I, o1: O1, e2: ParseErr<E2>| #[trigger]
            first.ensures((input,), Ok::<(I, O1), ParseErr<E1>>((rest, o1))) && #[trigger]
            second.ensures((o1,), Err::<(O1, O2), ParseErr<E2>>(e2)) && ParseErr::<
                E1,
            >::converted_from(e, e2),
    }
}

/// Runs `first`, then runs `second` on the value of `first` as on an input of
/// its own. What is left is what `first` left: what `second` leaves of the
/// value is dropped. A failure of `second` is carried over to the outer error
/// representation by `ParseErr::convert`.
pub fn flat_map<I: Clone + From<O1>, O1, O2, E1: Er<I> + From<E2>, E2: Er<O1>, F, G>(
    input: I,
    first: F,
    second: G,
) -> (r: IResult<I, O2, E1>) where
    F: Fn(I) -> IResult<I, O1, E1>,
    G: Fn(O1) -> IResult<O1, O2, E2>,

    requires
        first.requires((input,)),
        forall|rest: I, o1: O1| #[trigger]
            first.ensures((input,), Ok((rest, o1))) ==> second.requires((o1,)),
    ensures
        flat_map_outcome(first, second, input, r),
{
    let (rest, o1) = first(input)?;
    match second(o1) {
        Ok((inner_rest, o2)) => {
            let r = Ok((rest, o2));
            proof {
                assert(r->Ok_0.0 == rest && r->Ok_0.1 == o2);
            }
            r
        },
        Err(e2) => Err(ParseErr::convert(e2)),
    }
}

} // verus!
