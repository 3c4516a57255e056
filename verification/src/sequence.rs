//! Sequencing: parsers one after the other.

use vstd::prelude::*;
use crate::error::Er;
use crate::outcome::{IResult, ParseErr};
use crate::parser::{fails, leads};

verus! {

/// Whether `g` may be called on whatever `f` leaves of `input`.
pub open spec fn callable_next<I, O1, O2, E, F: FnOnce(I) -> IResult<I, O1, E>, G: FnOnce(I) -> IResult<I, O2, E>>(
    f: F,
    input: I,
    g: G,
) -> bool {
    forall|rest: I, o: O1| #[trigger] f.ensures((input,), Ok((rest, o))) ==> g.requires((rest,))
}

/// Whether `e` is the failure of the first of `first`, `sep`, `second` that
/// fails when they run one after the other from `input`.
pub open spec fn fails_in_sequence<
    I,
    O1,
    O2,
    O3,
    E,
    F: FnOnce(I) -> IResult<I, O1, E>,
    G: FnOnce(I) -> IResult<I, O2, E>,
    H: FnOnce(I) -> IResult<I, O3, E>,
>(first: F, sep: G, second: H, input: I, e: ParseErr<E>) -> bool {
    ||| fails(first, input, e)
    ||| exists|i1: I| #[trigger] leads(first, input, i1) && fails(sep, i1, e)
    ||| exists|i1: I, i2: I| #[trigger]
        leads(sep, i1, i2) && leads(first, input, i1) && fails(second, i2, e)
}

/// Whether the three parsers may be called one after the other from `input`.
pub open spec fn sequence_callable<
    I,
    O1,
    O2,
    O3,
    E,
    F: FnOnce(I) -> IResult<I, O1, E>,
    G: FnOnce(I) -> IResult<I, O2, E>,
    H: FnOnce(I) -> IResult<I, O3, E>,
>(first: F, sep: G, second: H, input: I) -> bool {
    &&& first.requires((input,))
    &&& callable_next(first, input, sep)
    &&& forall|i1: I| #[trigger] leads(first, input, i1) ==> callable_next(sep, i1, second)
}

/// What `separated` returns: the values of `first` and `second` and what
/// `second` left, where all three succeed in turn; else the failure of the
/// first that fails.
pub open spec fn separated_outcome<
    I,
    O1,
    O2,
    O3,
    E,
    F: FnOnce(I) -> IResult<I, O1, E>,
    G: FnOnce(I) -> IResult<I, O2, E>,
    H: FnOnce(I) -> IResult<I, O3, E>,
>(first: F, sep: G, second: H, input: I, r: IResult<I, (O1, O3), E>) -> bool {
    match r {
        Ok((rest, (a, b))) => exists|i1: I, i2: I| #[trigger]
            leads(sep, i1, i2) && first.ensures((input,), Ok::<(I, O1), ParseErr<E>>((i1, a)))
                && second.ensures((i2,), Ok::<(I, O3), ParseErr<E>>((rest, b))),
        Err(e) => fails_in_sequence(first, sep, second, input, e),
    }
}

/// Runs `first`, then `sep`, then `second`, and returns the values of `first`
/// and `second`. The value of `sep` is dropped. The first parser that fails ends
/// the sequence with its failure.
pub fn separated<I: Clone, O1, O2, O3, E: Er<I>, F, G, H>(
    input: I,
    first: F,
    sep: G,
    second: H,
) -> (r: IResult<I, (O1, O3), E>) where
    F: Fn(I) -> IResult<I, O1, E>,
    G: Fn(I) -> IResult<I, O2, E>,
    H: Fn(I) -> IResult<I, O3, E>,

    requires
        sequence_callable(first, sep, second, input),
    ensures
        separated_outcome(first, sep, second, input, r),
{
    let (i1, o1) = first(input)?;
    proof {
        assert(leads(first, input, i1));
    }
    let ghost g1 = i1;
    let (i2, o2) = sep(i1)?;
    proof {
        assert(leads(sep, g1, i2));
    }
    match second(i2) {
        Err(e) => Err(e),
        Ok((rest, o3)) => Ok((rest, (o1, o3))),
    }
}

/// What `delimited` returns: the value of `sep` and what `second` left, where
/// all three succeed in turn; else the failure of the first that fails.
pub open spec fn delimited_outcome<
    I,
    O1,
    O2,
    O3,
    E,
    F: FnOnce(I) -> IResult<I, O1, E>,
    G: FnOnce(I) -> IResult<I, O2, E>,
    H: FnOnce(I) -> IResult<I, O3, E>,
>(first: F, sep: G, second: H, input: I, r: IResult<I, O2, E>) -> bool {
    match r {
        Ok((rest, b)) => exists|i1: I, i2: I| #[trigger]
            sep.ensures((i1,), Ok::<(I, O2), ParseErr<E>>((i2, b))) && leads(first, input, i1)
                && leads(second, i2, rest),
        Err(e) => fails_in_sequence(first, sep, second, input, e),
    }
}

/// Runs `first`, then `sep`, then `second`, and returns the value of `sep`, the
/// parser in the middle. The values of the two around it are dropped. The first
/// parser that fails ends the sequence with its failure.
pub fn delimited<I: Clone, O1, O2, O3, E: Er<I>, F, G, H>(
    input: I,
    first: F,
    sep: G,
    second: H,
) -> (r: IResult<I, O2, E>) where
    F: Fn(I) -> IResult<I, O1, E>,
    G: Fn(I) -> IResult<I, O2, E>,
    H: Fn(I) -> IResult<I, O3, E>,

    requires
        sequence_callable(first, sep, second, input),
    ensures
        delimited_outcome(first, sep, second, input, r),
{
    let (i1, o1) = first(input)?;
    proof {
        assert(leads(first, input, i1));
    }
    let ghost g1 = i1;
    let (i2, o2) = sep(i1)?;
    proof {
        assert(leads(sep, g1, i2));
    }
    match second(i2) {
        Err(e) => Err(e),
        Ok((rest, o3)) => {
            let r = Ok((rest, o2));
            proof {
                assert(r->Ok_0.0 == rest && r->Ok_0.1 == o2);
            }
            r
        },
    }
}

} // verus!
