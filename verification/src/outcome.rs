//! The result model: what a parser hands back.

use vstd::prelude::*;

verus! {

/// How much more input a parser needs before it can decide.
#[derive(Debug, PartialEq, Eq, Clone, Copy)]
pub enum Needed {
    /// The amount is not known.
    Unknown,
    /// Exactly this many more bytes.
    Size(usize),
}

/// The ways in which a parser can end without a value.
#[derive(Debug, PartialEq, Eq)]
pub enum ParseErr<E> {
    /// The input ended before a verdict was reached.
    Incomplete(Needed),
    /// This parser did not match; another one may be tried at the same position.
    Error(E),
    /// The grammar is committed: no other parser may be tried.
    Failure(E),
}

/// On success, the input that is left and the value that was parsed.
pub type IResult<I, O, E = (I, u32)> = Result<(I, O), ParseErr<E>>;

impl<E1> ParseErr<E1> {
    /// Whether `r` is `other` with its payload, if it has one, turned into an `E1`
    /// by a call of `into`.
    pub open spec fn converted_from<E2: Into<E1>>(r: Self, other: ParseErr<E2>) -> bool {
        match other {
            ParseErr::Incomplete(n) => r == ParseErr::<E1>::Incomplete(n),
            ParseErr::Error(e) => r matches ParseErr::Error(e1) && call_ensures(
                <E2 as Into<E1>>::into,
                (e,),
                e1,
            ),
            ParseErr::Failure(e) => r matches ParseErr::Failure(e1) && call_ensures(
                <E2 as Into<E1>>::into,
                (e,),
                e1,
            ),
        }
    }

    /// Carries a failure over to another error representation. The variant is kept.
    pub fn convert<E2: Into<E1>>(other: ParseErr<E2>) -> (r: Self)
        ensures
            Self::converted_from(r, other),
    {
        match other {
            ParseErr::Incomplete(n) => ParseErr::Incomplete(n),
            ParseErr::Error(e) => ParseErr::Error(e.into()),
            ParseErr::Failure(e) => ParseErr::Failure(e.into()),
        }
    }
}

} // verus!
