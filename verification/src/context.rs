//! Diagnostic context: a label on the errors of a parser.

use vstd::prelude::*;
use crate::error::Er;
use crate::outcome::{IResult, ParseErr};
use crate::parser::{applies, callable};

verus! {

/// What `parser` under the context `label` returns on `input`: the result of
/// `parser`, with `label`, entered at `input`, added to the error of an `Error`
/// or a `Failure`. A success and `Incomplete` are left as they are.
pub open spec fn context_outcome<I: Clone, O, E: Er<I>, F: FnOnce(I) -> IResult<I, O, E>>(
    parser: F,
    label: &'static str,
    input: I,
    r: IResult<I, O, E>,
) -> bool {
    match r {
        Ok(p) => applies(parser, input, Ok::<(I, O), ParseErr<E>>(p)),
        Err(ParseErr::Incomplete(n)) => applies(
            parser,
            input,
            Err::<(I, O), ParseErr<E>>(ParseErr::Incomplete(n)),
        ),
        Err(ParseErr::Error(e)) => exists|inner: E| #[trigger]
            applies(parser, input, Err::<(I, O), ParseErr<E>>(ParseErr::Error(inner)))
                && e.labelled_from(inner, input, label),
        Err(ParseErr::Failure(e)) => exists|inner: E| #[trigger]
            applies(parser, input, Err::<(I, O), ParseErr<E>>(ParseErr::Failure(inner)))
                && e.labelled_from(inner, input, label),
    }
}

/// The parser that runs `parser` and adds the context `s` to its errors. What
/// the label adds is up to the error representation: a `Verbose` chain gets one
/// more entry, the others stay as they are.
pub fn context<I: Clone, O, E: Er<I>, F>(parser: F, s: &'static str) -> (p: impl Fn(I) -> IResult<
    I,
    O,
    E,
>) where F: Fn(I) -> IResult<I, O, E>
    ensures
        forall|i: I| callable(parser, i) ==> p.requires((i,)),
        forall|i: I, r: IResult<I, O, E>| p.ensures((i,), r) ==> context_outcome(parser, s, i, r),
{
    move |input: I| -> (r: IResult<I, O, E>)
        requires
            callable(parser, input),
        ensures
            context_outcome(parser, s, input, r),
        {
            let c = input.clone();
            match parser(c) {
                Ok(res) => Ok(res),
                Err(ParseErr::Incomplete(n)) => Err(ParseErr::Incomplete(n)),
                Err(ParseErr::Error(e)) => {
                    proof {
                        assert(applies(
                            parser,
                            input,
                            Err::<(I, O), ParseErr<E>>(ParseErr::Error(e)),
                        ));
                    }
                    Err(ParseErr::Error(e.add_context(input, s)))
                },
                Err(ParseErr::Failure(e)) => {
                    proof {
                        assert(applies(
                            parser,
                            input,
                            Err::<(I, O), ParseErr<E>>(ParseErr::Failure(e)),
                        ));
                    }
                    Err(ParseErr::Failure(e.add_context(input, s)))
                },
            }
        }
}

} // verus!
