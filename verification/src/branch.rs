//! Alternation: the first parser that does not fail recoverably decides.

use vstd::prelude::*;
use crate::error::{chain_failure_len, Er, ErrorKind, Simple, Verbose, VerboseKind};
use crate::outcome::{IResult, ParseErr};
use crate::parser::{applies, callable};

verus! {

/// Whether the alternative `fns[j]` may fail on `input` with the recoverable
/// error `errs[j]`.
pub open spec fn fails_at<I: Clone, O, E, F: FnOnce(I) -> IResult<I, O, E>>(
    fns: Seq<F>,
    input: I,
    errs: Seq<E>,
    j: int,
) -> bool {
    applies(fns[j], input, Err::<(I, O), ParseErr<E>>(ParseErr::Error(errs[j])))
}

/// Whether the first `errs.len()` alternatives may fail on `input` with the
/// recoverable errors `errs`, in order.
pub open spec fn all_fail<I: Clone, O, E, F: FnOnce(I) -> IResult<I, O, E>>(
    fns: Seq<F>,
    input: I,
    errs: Seq<E>,
) -> bool {
    &&& errs.len() <= fns.len()
    &&& forall|j: int| 0 <= j < errs.len() ==> #[trigger] fails_at(fns, input, errs, j)
}

/// Whether `merged[j]` is a merge of the errors `errs[0]` to `errs[j]`, taken
/// in that order, for every `j`.
pub open spec fn is_merge_of<I, E: Er<I>>(errs: Seq<E>, merged: Seq<E>) -> bool {
    &&& merged.len() == errs.len()
    &&& errs.len() > 0 ==> merged[0] == errs[0]
    &&& forall|j: int|
        0 < j < errs.len() ==> (#[trigger] merged[j]).merged_from(merged[j - 1], errs[j])
}

/// Whether `e` is the error of an alternation at `input` whose alternatives
/// failed with `errs`: an error of kind `Alt` at `input`, which is merged, as the
/// later of the two, with the merge of `errs` where there is one.
pub open spec fn is_exhausted<I, E: Er<I>>(input: I, errs: Seq<E>, e: E) -> bool {
    if errs.len() == 0 {
        e.made_from(input, ErrorKind::Alt)
    } else {
        exists|merged: Seq<E>, alt: E|
            #![trigger is_merge_of::<I, E>(errs, merged), alt.made_from(input, ErrorKind::Alt)]
            is_merge_of::<I, E>(errs, merged) && alt.made_from(input, ErrorKind::Alt)
                && e.merged_from(merged.last(), alt)
    }
}

/// Whether `r` is the result of the alternative `fns[k]`, which may return it
/// on `input` after every alternative in front of it failed recoverably, and
/// `r` is no recoverable error itself.
pub open spec fn decides_at<I: Clone, O, E, F: FnOnce(I) -> IResult<I, O, E>>(
    fns: Seq<F>,
    input: I,
    k: int,
    r: IResult<I, O, E>,
) -> bool {
    &&& 0 <= k < fns.len()
    &&& !(r matches Err(ParseErr::Error(_)))
    &&& applies(fns[k], input, r)
    &&& exists|errs: Seq<E>| errs.len() == k && #[trigger] all_fail(fns, input, errs)
}

/// What `or` returns: the result of the first alternative that succeeds, fails
/// unrecoverably or is incomplete; or, where every alternative failed
/// recoverably, the `Error` made of the errors of them all.
pub open spec fn or_outcome<I: Clone, O, E: Er<I>, F: FnOnce(I) -> IResult<I, O, E>>(
    fns: Seq<F>,
    input: I,
    r: IResult<I, O, E>,
) -> bool {
    ||| exists|k: int| #[trigger] decides_at(fns, input, k, r)
    ||| exists|errs: Seq<E>|
        errs.len() == fns.len() && #[trigger] all_fail(fns, input, errs) && (r matches Err(
            ParseErr::Error(e),
        ) && is_exhausted(input, errs, e))
}

/// Tries the alternatives in order, each on the same input. The first that
/// does not end with a recoverable `Error` decides: its success, its `Failure`
/// or its `Incomplete` is returned, and no later alternative is tried. Where
/// all of them end with an `Error`, these are merged in order, and the `Error`
/// of kind `Alt` at `input` is merged with them last. A representation in which
/// the later error wins, such as `Simple`, so reports kind `Alt` at `input`;
/// `Verbose` reports the chain that got farthest.
pub fn or<'b, I: Clone, O, E: Er<I>, F>(input: I, fns: &'b [F]) -> (r: IResult<I, O, E>) where
    F: Fn(I) -> IResult<I, O, E>,

    requires
        forall|k: int| 0 <= k < fns@.len() ==> callable(#[trigger] fns@[k], input),
    ensures
        or_outcome(fns@, input, r),
{
    let mut merged: Option<E> = None;
    let mut k: usize = 0;
    let ghost mut errs: Seq<E> = Seq::empty();
    let ghost mut merges: Seq<E> = Seq::empty();
    while k < fns.len()
        invariant
            k <= fns@.len(),
            forall|k: int| 0 <= k < fns@.len() ==> callable(#[trigger] fns@[k], input),
            errs.len() == k,
            all_fail(fns@, input, errs),
            is_merge_of::<I, E>(errs, merges),
            k == 0 <==> merged is None,
            k > 0 ==> merged == Some(merges.last()),
        decreases fns@.len() - k,
    {
        let f = &fns[k];
        let c = input.clone();
        match f(c) {
            Err(ParseErr::Error(e)) => {
                let m = match merged {
                    None => e,
                    Some(m) => m.or(e),
                };
                proof {
                    let prev_errs = errs;
                    let prev_merges = merges;
                    errs = errs.push(e);
                    merges = merges.push(m);
                    assert forall|j: int| 0 <= j < errs.len() implies #[trigger] fails_at(
                        fns@,
                        input,
                        errs,
                        j,
                    ) by {
                        if j < prev_errs.len() {
                            assert(fails_at(fns@, input, prev_errs, j));
                        }
                    }
                    assert forall|j: int| 0 < j < errs.len() implies (#[trigger] merges[j]).merged_from(
                        merges[j - 1],
                        errs[j],
                    ) by {
                    }
                }
                merged = Some(m);
                k += 1;
            },
            rest => {
                proof {
                    assert(decides_at(fns@, input, k as int, rest));
                }
                return rest;
            },
        }
    }
    let alt = E::from_error_kind(input, ErrorKind::Alt);
    let e = match merged {
        None => alt,
        Some(m) => m.or(alt),
    };
    Err(ParseErr::Error(e))
}

/// Whether `f` can only end on `input` with a recoverable error.
pub open spec fn always_fails<I: Clone, O, E, F: FnOnce(I) -> IResult<I, O, E>>(
    f: F,
    input: I,
) -> bool {
    forall|res: IResult<I, O, E>| #[trigger]
        applies(f, input, res) ==> res matches Err(ParseErr::Error(_))
}

/// Whether each of the alternatives `fns` can only end on `input` with a
/// recoverable error.
pub open spec fn all_always_fail<I: Clone, O, E, F: FnOnce(I) -> IResult<I, O, E>>(
    fns: Seq<F>,
    input: I,
) -> bool {
    forall|k: int| 0 <= k < fns.len() ==> always_fails(#[trigger] fns[k], input)
}

/// Whether `f` can only end on `input` with the success `p`.
pub open spec fn always_succeeds_with<I: Clone, O, E, F: FnOnce(I) -> IResult<I, O, E>>(
    f: F,
    input: I,
    p: (I, O),
) -> bool {
    forall|res: IResult<I, O, E>| #[trigger]
        applies(f, input, res) ==> res == Ok::<(I, O), ParseErr<E>>(p)
}

/// An alternative that always fails recoverably, followed by one that always
/// succeeds: the alternation returns the success of the second.
pub proof fn lemma_or_takes_the_success<
    I: Clone,
    O,
    E: Er<I>,
    F: FnOnce(I) -> IResult<I, O, E>,
>(fns: Seq<F>, input: I, p: (I, O), r: IResult<I, O, E>)
    requires
        or_outcome(fns, input, r),
        fns.len() == 2,
        always_fails(fns[0], input),
        always_succeeds_with(fns[1], input, p),
    ensures
        r == Ok::<(I, O), ParseErr<E>>(p),
{
    if exists|k: int| #[trigger] decides_at(fns, input, k, r) {
        let k = choose|k: int| #[trigger] decides_at(fns, input, k, r);
        assert(applies(fns[k], input, r));
    } else {
        let errs = choose|errs: Seq<E>|
            errs.len() == fns.len() && #[trigger] all_fail(fns, input, errs) && (r matches Err(
                ParseErr::Error(e),
            ) && is_exhausted(input, errs, e));
        assert(fails_at(fns, input, errs, 1));
    }
}

/// Whether `e` is the merge of `a` and `b`, merged with an error of kind `Alt`
/// at `input`.
pub open spec fn merges_two<I, E: Er<I>>(input: I, a: E, b: E, e: E) -> bool {
    exists|alt: E, m: E|
        #![trigger alt.made_from(input, ErrorKind::Alt), m.merged_from(a, b)]
        alt.made_from(input, ErrorKind::Alt) && m.merged_from(a, b) && e.merged_from(m, alt)
}

/// Two alternatives that always fail recoverably: the alternation returns an
/// `Error`, namely the merge of an error of the first and an error of the
/// second, merged with the error of kind `Alt` at `input`.
pub proof fn lemma_or_merges_the_errors<
    I: Clone,
    O,
    E: Er<I>,
    F: FnOnce(I) -> IResult<I, O, E>,
>(fns: Seq<F>, input: I, r: IResult<I, O, E>)
    requires
        or_outcome(fns, input, r),
        fns.len() == 2,
        always_fails(fns[0], input),
        always_fails(fns[1], input),
    ensures
        r matches Err(ParseErr::Error(e)) && exists|a: E, b: E|
            #![trigger merges_two(input, a, b, e)]
            applies(fns[0], input, Err::<(I, O), ParseErr<E>>(ParseErr::Error(a))) && applies(
                fns[1],
                input,
                Err::<(I, O), ParseErr<E>>(ParseErr::Error(b)),
            ) && merges_two(input, a, b, e),
{
    if exists|k: int| #[trigger] decides_at(fns, input, k, r) {
        let k = choose|k: int| #[trigger] decides_at(fns, input, k, r);
        assert(applies(fns[k], input, r));
    } else {
        let errs = choose|errs: Seq<E>|
            errs.len() == fns.len() && #[trigger] all_fail(fns, input, errs) && (r matches Err(
                ParseErr::Error(e),
            ) && is_exhausted(input, errs, e));
        assert(fails_at(fns, input, errs, 0));
        assert(fails_at(fns, input, errs, 1));
        let e = r->Err_0->Error_0;
        let (merged, alt) = choose|merged: Seq<E>, alt: E|
            #![trigger is_merge_of::<I, E>(errs, merged), alt.made_from(input, ErrorKind::Alt)]
            is_merge_of::<I, E>(errs, merged) && alt.made_from(input, ErrorKind::Alt)
                && e.merged_from(merged.last(), alt);
        assert(merged[1].merged_from(merged[0], errs[1]));
        assert(merged.last() == merged[1]);
        assert(merged[1].merged_from(errs[0], errs[1]));
        assert(merges_two(input, errs[0], errs[1], e));
    }
}

/// Where every alternative can only fail recoverably, the alternation is
/// exhausted: its result is an `Error` made of their errors as `is_exhausted`
/// says, never a success, a `Failure` or `Incomplete`.
pub proof fn lemma_or_is_exhausted<I: Clone, O, E: Er<I>, F: FnOnce(I) -> IResult<I, O, E>>(
    fns: Seq<F>,
    input: I,
    r: IResult<I, O, E>,
)
    requires
        or_outcome(fns, input, r),
        all_always_fail(fns, input),
    ensures
        r matches Err(ParseErr::Error(e)) && exists|errs: Seq<E>|
            errs.len() == fns.len() && #[trigger] all_fail(fns, input, errs) && is_exhausted(
                input,
                errs,
                e,
            ),
{
    if exists|k: int| #[trigger] decides_at(fns, input, k, r) {
        let k = choose|k: int| #[trigger] decides_at(fns, input, k, r);
        assert(always_fails(fns[k], input));
        assert(applies(fns[k], input, r));
    }
}

/// With the positional representation, an exhausted alternation reports kind
/// `Alt` at its own input, whatever the alternatives, and however many, failed
/// with.
pub proof fn lemma_or_positional_reports_alt<I: Clone, O, F: FnOnce(I) -> IResult<I, O, Simple<I>>>(
    fns: Seq<F>,
    input: I,
    r: IResult<I, O, Simple<I>>,
)
    requires
        or_outcome(fns, input, r),
        all_always_fail(fns, input),
    ensures
        r == Err::<(I, O), ParseErr<Simple<I>>>(
            ParseErr::Error(Simple { i: input, e: ErrorKind::Alt }),
        ),
{
    lemma_or_is_exhausted(fns, input, r);
}

/// With the minimal representation, an exhausted alternation reports its own
/// input and nothing else.
pub proof fn lemma_or_minimal_reports_the_input<
    I: Clone,
    O,
    F: FnOnce(I) -> IResult<I, O, (I, u32)>,
>(fns: Seq<F>, input: I, r: IResult<I, O, (I, u32)>)
    requires
        or_outcome(fns, input, r),
        all_always_fail(fns, input),
    ensures
        r == Err::<(I, O), ParseErr<(I, u32)>>(ParseErr::Error((input, 0u32))),
{
    lemma_or_is_exhausted(fns, input, r);
}

/// Whether `f` can only end on `input` with a recoverable error whose chain is
/// `chain`.
pub open spec fn always_fails_with_chain<
    'a,
    O,
    F: FnOnce(&'a [u8]) -> IResult<&'a [u8], O, Verbose<&'a [u8]>>,
>(f: F, input: &'a [u8], chain: Seq<(&'a [u8], VerboseKind)>) -> bool {
    forall|res: IResult<&'a [u8], O, Verbose<&'a [u8]>>| #[trigger]
        applies(f, input, res) ==> (res matches Err(ParseErr::Error(e)) && e@ == chain)
}

/// The chain that an alternation of two gives with the verbose representation,
/// where the alternatives failed with the chains `a` and `b`: the one that
/// failed farther into the input, the first where both got equally far. The
/// chain of kind `Alt` at `input` takes their place only where neither got as
/// far as `input` itself.
pub open spec fn farthest_chain<'a>(
    input: &'a [u8],
    a: Seq<(&'a [u8], VerboseKind)>,
    b: Seq<(&'a [u8], VerboseKind)>,
) -> Seq<(&'a [u8], VerboseKind)> {
    let m = if chain_failure_len(b) < chain_failure_len(a) {
        b
    } else {
        a
    };
    if input@.len() < chain_failure_len(m) {
        seq![(input, VerboseKind::E(ErrorKind::Alt))]
    } else {
        m
    }
}

/// With the verbose representation, two alternatives that always fail give the
/// chain of the one that failed farther into the input, and of the first where
/// both got equally far.
pub proof fn lemma_or_verbose_keeps_the_farthest<
    'a,
    O,
    F: FnOnce(&'a [u8]) -> IResult<&'a [u8], O, Verbose<&'a [u8]>>,
>(
    fns: Seq<F>,
    input: &'a [u8],
    a: Seq<(&'a [u8], VerboseKind)>,
    b: Seq<(&'a [u8], VerboseKind)>,
    r: IResult<&'a [u8], O, Verbose<&'a [u8]>>,
)
    requires
        or_outcome(fns, input, r),
        fns.len() == 2,
        always_fails_with_chain(fns[0], input, a),
        always_fails_with_chain(fns[1], input, b),
    ensures
        r matches Err(ParseErr::Error(e)) && e@ == farthest_chain(input, a, b),
{
    if exists|k: int| #[trigger] decides_at(fns, input, k, r) {
        let k = choose|k: int| #[trigger] decides_at(fns, input, k, r);
        assert(applies(fns[k], input, r));
    } else {
        let errs = choose|errs: Seq<Verbose<&'a [u8]>>|
            errs.len() == fns.len() && #[trigger] all_fail(fns, input, errs) && (r matches Err(
                ParseErr::Error(e),
            ) && is_exhausted(input, errs, e));
        assert(fails_at(fns, input, errs, 0));
        assert(fails_at(fns, input, errs, 1));
        assert(errs[0]@ == a && errs[1]@ == b);
        let e = r->Err_0->Error_0;
        let (merged, alt) = choose|merged: Seq<Verbose<&'a [u8]>>, alt: Verbose<&'a [u8]>|
            #![trigger is_merge_of::<&'a [u8], Verbose<&'a [u8]>>(errs, merged), alt.made_from(input, ErrorKind::Alt)]
            is_merge_of::<&'a [u8], Verbose<&'a [u8]>>(errs, merged) && alt.made_from(
                input,
                ErrorKind::Alt,
            ) && e.merged_from(merged.last(), alt);
        assert(merged[1].merged_from(merged[0], errs[1]));
        assert(merged.last() == merged[1]);
        assert(alt@.last() == (input, VerboseKind::E(ErrorKind::Alt)));
    }
}

} // verus!
