//! Repetition: zero or more, one or more, and lists with a separator.
//!
//! Every repetition ends: an application that succeeds without shortening the
//! input is answered with an error instead of another round.

use vstd::prelude::*;
use crate::error::{Er, ErrorKind};
use crate::input::InputLength;
use crate::outcome::{IResult, Needed, ParseErr};
use crate::parser::{applies, callable, callable_after};

verus! {

/// Whether `f` took the cursor `cursors[k]` to `cursors[k + 1]`, which is
/// strictly shorter, and gave `values[k]`.
pub open spec fn is_step<I: Clone + InputLength, O, E, F: FnOnce(I) -> IResult<I, O, E>>(
    f: F,
    cursors: Seq<I>,
    values: Seq<O>,
    k: int,
) -> bool {
    &&& applies(f, cursors[k], Ok::<(I, O), ParseErr<E>>((cursors[k + 1], values[k])))
    &&& cursors[k + 1].spec_input_len() < cursors[k].spec_input_len()
}

/// Whether `values` are what `f` gave when it was applied over and over from
/// `start`, and `cursors` what was left at each point: `cursors[0]` is `start`,
/// and each application left strictly less than the one before.
pub open spec fn is_run<I: Clone + InputLength, O, E, F: FnOnce(I) -> IResult<I, O, E>>(
    f: F,
    start: I,
    cursors: Seq<I>,
    values: Seq<O>,
) -> bool {
    &&& cursors.len() == values.len() + 1
    &&& cursors[0] == start
    &&& forall|k: int| 0 <= k < values.len() ==> #[trigger] is_step(f, cursors, values, k)
}

/// Whether `f` is applied once more at `last`, after `n` rounds: always before
/// the first round, afterwards only while input is left.
pub open spec fn goes_on<I: InputLength>(last: I, n: nat) -> bool {
    n == 0 || last.spec_input_len() > 0
}

/// Whether `f` may end at `input` without a value and without committing: with
/// an `Error` or with `Incomplete`.
pub open spec fn gives_up<I: Clone, O, E, F: FnOnce(I) -> IResult<I, O, E>>(
    f: F,
    input: I,
) -> bool {
    exists|e: ParseErr<E>| #[trigger]
        applies(f, input, Err::<(I, O), ParseErr<E>>(e)) && !(e is Failure)
}

/// Whether `f` may succeed at `input` without leaving less than it was given.
pub open spec fn stalls<I: Clone + InputLength, O, E, F: FnOnce(I) -> IResult<I, O, E>>(
    f: F,
    input: I,
) -> bool {
    exists|rest: I, o: O| #[trigger]
        applies(f, input, Ok::<(I, O), ParseErr<E>>((rest, o))) && rest.spec_input_len()
            >= input.spec_input_len()
}

/// How a repetition of `f` ends at the cursor `last`, after `n` rounds that gave
/// `all`:
/// - with `all` and `last`, where the input is used up or `f` gives up;
/// - with an `Error` of `kind` at `last`, where `f` succeeds without shortening
///   the input;
/// - with the `Failure` of `f`.
pub open spec fn ends_repetition<
    I: Clone + InputLength,
    O,
    E: Er<I>,
    F: FnOnce(I) -> IResult<I, O, E>,
>(f: F, last: I, n: nat, all: Seq<O>, kind: ErrorKind, r: IResult<I, Vec<O>, E>) -> bool {
    match r {
        Ok((rest, acc)) => rest == last && acc@ == all && (!goes_on(last, n) || gives_up(f, last)),
        Err(ParseErr::Error(e)) => goes_on(last, n) && stalls(f, last) && e.made_from(last, kind),
        Err(ParseErr::Failure(e)) => goes_on(last, n) && applies(
            f,
            last,
            Err::<(I, O), ParseErr<E>>(ParseErr::Failure(e)),
        ),
        Err(ParseErr::Incomplete(_)) => false,
    }
}

/// What a repetition of `f` from `start` returns, where `before` was parsed
/// ahead of it: there is a run of `f` from `start`, and the repetition ends at
/// its last cursor with `before` and the run's values.
pub open spec fn repetition_outcome<
    I: Clone + InputLength,
    O,
    E: Er<I>,
    F: FnOnce(I) -> IResult<I, O, E>,
>(f: F, start: I, before: Seq<O>, kind: ErrorKind, r: IResult<I, Vec<O>, E>) -> bool {
    exists|cursors: Seq<I>, values: Seq<O>| #[trigger]
        is_run(f, start, cursors, values) && ends_repetition(
            f,
            cursors.last(),
            values.len(),
            before + values,
            kind,
            r,
        )
}

/// Applies `parser` from `start` until it stops, adding its values to `init`.
fn repeat<I: Clone + InputLength, O, E: Er<I>, F>(
    start: I,
    init: Vec<O>,
    parser: F,
    kind: ErrorKind,
) -> (r: IResult<I, Vec<O>, E>) where F: FnMut(I) -> IResult<I, O, E>
    requires
        callable(parser, start),
        callable_after(parser, parser),
    ensures
        repetition_outcome(parser, start, init@, kind, r),
{
    let ghost before = init@;
    let mut f = parser;
    let mut i = start;
    let mut acc = init;
    let ghost mut cursors: Seq<I> = seq![start];
    let ghost mut values: Seq<O> = Seq::empty();
    loop
        invariant
            callable(f, i),
            callable_after(f, f),
            f == parser,
            before == init@,
            is_run(f, start, cursors, values),
            cursors.last() == i,
            acc@ == before + values,
            goes_on(i, values.len()),
        decreases i.spec_input_len(),
    {
        match f(i.clone()) {
            Err(ParseErr::Failure(e)) => {
                return Err(ParseErr::Failure(e));
            },
            Err(e) => {
                proof {
                    assert(applies(f, i, Err::<(I, O), ParseErr<E>>(e)));
                }
                return Ok((i, acc));
            },
            Ok((i2, o)) => {
                proof {
                    assert(applies(f, i, Ok::<(I, O), ParseErr<E>>((i2, o))));
                }
                if i2.input_len() >= i.input_len() {
                    return Err(ParseErr::Error(E::from_error_kind(i, kind)));
                }
                proof {
                    let prev_cursors = cursors;
                    let prev_values = values;
                    cursors = cursors.push(i2);
                    values = values.push(o);
                    assert forall|k: int| 0 <= k < values.len() implies #[trigger] is_step(
                        f,
                        cursors,
                        values,
                        k,
                    ) by {
                        if k < prev_values.len() {
                            assert(is_step(f, prev_cursors, prev_values, k));
                        }
                    }
                    assert(is_run(f, start, cursors, values));
                }
                i = i2;
                acc.push(o);
                if i.input_len() == 0 {
                    return Ok((i, acc));
                }
            },
        }
    }
}

/// A run leaves no more than it started with: each of its rounds took at least
/// one item.
pub proof fn lemma_run_shortens<I: Clone + InputLength, O, E, F: FnOnce(I) -> IResult<I, O, E>>(
    f: F,
    start: I,
    cursors: Seq<I>,
    values: Seq<O>,
)
    requires
        is_run(f, start, cursors, values),
    ensures
        cursors.last().spec_input_len() + values.len() <= start.spec_input_len(),
    decreases values.len(),
{
    if values.len() > 0 {
        let n = values.len() - 1;
        let shorter_cursors = cursors.drop_last();
        let shorter_values = values.drop_last();
        assert forall|k: int| 0 <= k < shorter_values.len() implies #[trigger] is_step(
            f,
            shorter_cursors,
            shorter_values,
            k,
        ) by {
            assert(is_step(f, cursors, values, k));
        }
        lemma_run_shortens(f, start, shorter_cursors, shorter_values);
        assert(is_step(f, cursors, values, n));
    }
}

/// What `many0` returns: the outcome of a repetition of `f` from `input`, with
/// nothing parsed ahead of it and errors of kind `Many0`.
pub open spec fn many0_outcome<
    I: Clone + InputLength,
    O,
    E: Er<I>,
    F: FnOnce(I) -> IResult<I, O, E>,
>(f: F, input: I, r: IResult<I, Vec<O>, E>) -> bool {
    repetition_outcome(f, input, Seq::empty(), ErrorKind::Many0, r)
}

/// Applies `f` as often as it succeeds and returns its values in order. No match
/// at all is a success with no values. An `Error` or `Incomplete` of `f` ends
/// the repetition; a `Failure` of `f` is returned as it is. An application that
/// succeeds without shortening the input gives an `Error` of kind `Many0` in
/// place of an endless loop. What is left is never longer than `input`.
pub fn many0<I: Clone + InputLength, O, E: Er<I>, F>(input: I, f: F) -> (r: IResult<
    I,
    Vec<O>,
    E,
>) where F: FnMut(I) -> IResult<I, O, E>
    requires
        callable(f, input),
        callable_after(f, f),
    ensures
        many0_outcome(f, input, r),
        r matches Ok((rest, _)) ==> rest.spec_input_len() <= input.spec_input_len(),
{
    let ghost start = input;
    let r = repeat(input, Vec::with_capacity(4), f, ErrorKind::Many0);
    proof {
        let (cursors, values) = choose|cursors: Seq<I>, values: Seq<O>| #[trigger]
            is_run(f, start, cursors, values) && ends_repetition(
                f,
                cursors.last(),
                values.len(),
                Seq::<O>::empty() + values,
                ErrorKind::Many0,
                r,
            );
        lemma_run_shortens(f, start, cursors, values);
    }
    r
}

/// Where `f` can only give up on `input`, `many0` succeeds with no values and
/// leaves `input`.
pub proof fn lemma_many0_without_a_match<
    I: Clone + InputLength,
    O,
    E: Er<I>,
    F: FnOnce(I) -> IResult<I, O, E>,
>(f: F, input: I, r: IResult<I, Vec<O>, E>)
    requires
        many0_outcome(f, input, r),
        forall|res: IResult<I, O, E>| #[trigger]
            applies(f, input, res) ==> res is Err && !(res->Err_0 is Failure),
    ensures
        r matches Ok((rest, acc)) && rest == input && acc@.len() == 0,
{
    let (cursors, values) = choose|cursors: Seq<I>, values: Seq<O>| #[trigger]
        is_run(f, input, cursors, values) && ends_repetition(
            f,
            cursors.last(),
            values.len(),
            Seq::<O>::empty() + values,
            ErrorKind::Many0,
            r,
        );
    if values.len() > 0 {
        assert(is_step(f, cursors, values, 0));
    }
}

/// What `many1` returns. The first application of `f` decides:
/// - its `Failure` is returned as it is;
/// - where it gives up, the result is an `Error` of kind `Many1` at `input`;
/// - where it succeeds, the result is the outcome of a repetition of `f` from
///   what it left, with its value ahead and errors of kind `Many1`.
pub open spec fn many1_outcome<
    I: Clone + InputLength,
    O,
    E: Er<I>,
    F: FnOnce(I) -> IResult<I, O, E>,
>(f: F, input: I, r: IResult<I, Vec<O>, E>) -> bool {
    ||| exists|e: E| #[trigger]
        applies(f, input, Err::<(I, O), ParseErr<E>>(ParseErr::Failure(e))) && r == Err::<
            (I, Vec<O>),
            ParseErr<E>,
        >(ParseErr::Failure(e))
    ||| gives_up(f, input) && (r matches Err(ParseErr::Error(e)) && e.made_from(
        input,
        ErrorKind::Many1,
    ))
    ||| exists|first: I, o: O| #[trigger]
        applies(f, input, Ok::<(I, O), ParseErr<E>>((first, o))) && repetition_outcome(
            f,
            first,
            seq![o],
            ErrorKind::Many1,
            r,
        )
}

/// Applies `f` as often as it succeeds, at least once, and returns its values in
/// order. Where the first application ends with an `Error` or `Incomplete`, the
/// result is an `Error` of kind `Many1`. After the first, an application that
/// succeeds without shortening the input gives an `Error` of kind `Many1`. A
/// `Failure` of `f` is returned as it is.
pub fn many1<I: Clone + Copy + InputLength, O, E: Er<I>, F>(input: I, f: F) -> (r: IResult<
    I,
    Vec<O>,
    E,
>) where F: Fn(I) -> IResult<I, O, E>
    requires
        callable(f, input),
        callable_after(f, f),
    ensures
        many1_outcome(f, input, r),
{
    match f(input.clone()) {
        Err(ParseErr::Failure(e)) => {
            proof {
                assert(applies(f, input, Err::<(I, O), ParseErr<E>>(ParseErr::Failure(e))));
            }
            Err(ParseErr::Failure(e))
        },
        Err(e) => {
            proof {
                assert(applies(f, input, Err::<(I, O), ParseErr<E>>(e)));
            }
            Err(ParseErr::Error(E::from_error_kind(input, ErrorKind::Many1)))
        },
        Ok((i2, o)) => {
            proof {
                assert(applies(f, input, Ok::<(I, O), ParseErr<E>>((i2, o))));
            }
            let mut acc = Vec::with_capacity(4);
            acc.push(o);
            repeat(i2, acc, f, ErrorKind::Many1)
        },
    }
}

/// Where `f` can only give up on `input`, `many1` fails with an `Error` of kind
/// `Many1` at `input`.
pub proof fn lemma_many1_without_a_match<
    I: Clone + InputLength,
    O,
    E: Er<I>,
    F: FnOnce(I) -> IResult<I, O, E>,
>(f: F, input: I, r: IResult<I, Vec<O>, E>)
    requires
        many1_outcome(f, input, r),
        forall|res: IResult<I, O, E>| #[trigger]
            applies(f, input, res) ==> res is Err && !(res->Err_0 is Failure),
    ensures
        r matches Err(ParseErr::Error(e)) && e.made_from(input, ErrorKind::Many1),
{
}

/// Whether the separator `sep` may take the cursor `from` to `mid` without
/// leaving more than it was given.
pub open spec fn separates<I: Clone + InputLength, O2, E, G: FnOnce(I) -> IResult<I, O2, E>>(
    sep: G,
    from: I,
    mid: I,
) -> bool {
    mid.spec_input_len() <= from.spec_input_len() && exists|o2: O2| #[trigger]
        applies(sep, from, Ok::<(I, O2), ParseErr<E>>((mid, o2)))
}

/// Whether `sep` and then `f` took the cursor `cursors[k]` to `cursors[k + 1]`
/// and gave `values[k]`, `f` leaving strictly less than `sep` left.
pub open spec fn is_list_step<
    I: Clone + InputLength,
    O,
    O2,
    E,
    F: FnOnce(I) -> IResult<I, O, E>,
    G: FnOnce(I) -> IResult<I, O2, E>,
>(sep: G, f: F, cursors: Seq<I>, values: Seq<O>, k: int) -> bool {
    exists|mid: I| #[trigger]
        separates(sep, cursors[k], mid) && applies(
            f,
            mid,
            Ok::<(I, O), ParseErr<E>>((cursors[k + 1], values[k])),
        ) && cursors[k + 1].spec_input_len() < mid.spec_input_len()
}

/// Whether `values` are the items that followed a separator, from `start` on,
/// and `cursors` what was left after each: `cursors[0]` is `start`.
pub open spec fn is_list_run<
    I: Clone + InputLength,
    O,
    O2,
    E,
    F: FnOnce(I) -> IResult<I, O, E>,
    G: FnOnce(I) -> IResult<I, O2, E>,
>(sep: G, f: F, start: I, cursors: Seq<I>, values: Seq<O>) -> bool {
    &&& cursors.len() == values.len() + 1
    &&& cursors[0] == start
    &&& forall|k: int| 0 <= k < values.len() ==> #[trigger] is_list_step(sep, f, cursors, values, k)
}

/// Whether the separator may grow the input at `from`, or `f` may succeed
/// behind it without shortening what the separator left.
pub open spec fn list_stalls<
    I: Clone + InputLength,
    O,
    O2,
    E,
    F: FnOnce(I) -> IResult<I, O, E>,
    G: FnOnce(I) -> IResult<I, O2, E>,
>(sep: G, f: F, from: I) -> bool {
    exists|mid: I, o2: O2| #[trigger]
        applies(sep, from, Ok::<(I, O2), ParseErr<E>>((mid, o2))) && (mid.spec_input_len()
            > from.spec_input_len() || stalls(f, mid))
}

/// How a list ends at the cursor `last`, with the items `all`:
/// - with `all` and `last`, where the input is used up, or the separator gives
///   up, or `f` gives up behind a separator (which is then not consumed);
/// - with an `Error` of kind `Many0` at `last`, where the list stalls;
/// - with the `Failure` of the separator, or of `f` behind a separator.
pub open spec fn ends_list<
    I: Clone + InputLength,
    O,
    O2,
    E: Er<I>,
    F: FnOnce(I) -> IResult<I, O, E>,
    G: FnOnce(I) -> IResult<I, O2, E>,
>(sep: G, f: F, last: I, all: Seq<O>, r: IResult<I, Vec<O>, E>) -> bool {
    match r {
        Ok((rest, acc)) => rest == last && acc@ == all && (last.spec_input_len() == 0 || gives_up(
            sep,
            last,
        ) || exists|mid: I| #[trigger] separates(sep, last, mid) && gives_up(f, mid)),
        Err(ParseErr::Error(e)) => last.spec_input_len() > 0 && list_stalls(sep, f, last)
            && e.made_from(last, ErrorKind::Many0),
        Err(ParseErr::Failure(e)) => last.spec_input_len() > 0 && (applies(
            sep,
            last,
            Err::<(I, O2), ParseErr<E>>(ParseErr::Failure(e)),
        ) || exists|mid: I| #[trigger]
            separates(sep, last, mid) && applies(
                f,
                mid,
                Err::<(I, O), ParseErr<E>>(ParseErr::Failure(e)),
            )),
        Err(ParseErr::Incomplete(_)) => false,
    }
}

/// What the rest of a list returns from `start`, where `before` was parsed
/// ahead of it: there is a run of separators and items from `start`, and the
/// list ends at its last cursor with `before` and the run's values.
pub open spec fn list_rest_outcome<
    I: Clone + InputLength,
    O,
    O2,
    E: Er<I>,
    F: FnOnce(I) -> IResult<I, O, E>,
    G: FnOnce(I) -> IResult<I, O2, E>,
>(sep: G, f: F, start: I, before: Seq<O>, r: IResult<I, Vec<O>, E>) -> bool {
    exists|cursors: Seq<I>, values: Seq<O>| #[trigger]
        is_list_run(sep, f, start, cursors, values) && ends_list(
            sep,
            f,
            cursors.last(),
            before + values,
            r,
        )
}

/// Whether `f` may fail on `input` with a recoverable `Error`.
pub open spec fn fails_recoverably<I: Clone, O, E, F: FnOnce(I) -> IResult<I, O, E>>(
    f: F,
    input: I,
) -> bool {
    exists|e: E| #[trigger] applies(f, input, Err::<(I, O), ParseErr<E>>(ParseErr::Error(e)))
}

/// What `separated_list` returns. The first application of `f`, on `input`,
/// decides:
/// - its recoverable `Error` makes the empty list: a success that leaves `input`
///   and holds no values;
/// - its `Failure` and its `Incomplete` are returned as they are;
/// - where it succeeds, the result is the outcome of the rest of the list from
///   what it left, with its value ahead.
pub open spec fn separated_list_outcome<
    I: Clone + InputLength,
    O,
    O2,
    E: Er<I>,
    F: FnOnce(I) -> IResult<I, O, E>,
    G: FnOnce(I) -> IResult<I, O2, E>,
>(sep: G, f: F, input: I, r: IResult<I, Vec<O>, E>) -> bool {
    ||| fails_recoverably(f, input) && (r matches Ok((rest, acc)) && rest == input && acc@
        == Seq::<O>::empty())
    ||| exists|e: E| #[trigger]
        applies(f, input, Err::<(I, O), ParseErr<E>>(ParseErr::Failure(e))) && r == Err::<
            (I, Vec<O>),
            ParseErr<E>,
        >(ParseErr::Failure(e))
    ||| exists|n: Needed| #[trigger]
        applies(f, input, Err::<(I, O), ParseErr<E>>(ParseErr::Incomplete(n))) && r == Err::<
            (I, Vec<O>),
            ParseErr<E>,
        >(ParseErr::Incomplete(n))
    ||| exists|first: I, o: O| #[trigger]
        applies(f, input, Ok::<(I, O), ParseErr<E>>((first, o))) && list_rest_outcome(
            sep,
            f,
            first,
            seq![o],
            r,
        )
}

/// Parses one item with `f`, then separator and item in turn for as long as
/// both succeed, and returns the items in order. Where the first item ends with
/// an `Error`, the list is empty: a success that leaves `input`. Where the
/// separator or the item behind it ends with an `Error` or `Incomplete`, the
/// list ends in front of that separator. A `Failure` of either, and `Incomplete`
/// of the first item, is returned as it is. A separator that grows the input, or
/// an item behind a separator that does not shorten it, gives an `Error` of kind
/// `Many0` in place of an endless loop.
#[verifier::loop_isolation(false)]
pub fn separated_list<I: Clone + InputLength, O, O2, E: Er<I>, F, G>(
    input: I,
    mut sep: G,
    mut f: F,
) -> (r: IResult<I, Vec<O>, E>) where
    F: FnMut(I) -> IResult<I, O, E>,
    G: FnMut(I) -> IResult<I, O2, E>,

    requires
        callable(f, input),
        callable_after(f, sep),
        callable_after(sep, f),
    ensures
        separated_list_outcome(sep, f, input, r),
{
    let ghost f0 = f;
    let ghost sep0 = sep;
    let mut acc = Vec::new();
    let (first, o) = match f(input.clone()) {
        Err(ParseErr::Error(e)) => {
            proof {
                assert(applies(f, input, Err::<(I, O), ParseErr<E>>(ParseErr::Error(e))));
            }
            return Ok((input, acc));
        },
        Err(ParseErr::Failure(e)) => {
            proof {
                assert(applies(f, input, Err::<(I, O), ParseErr<E>>(ParseErr::Failure(e))));
            }
            return Err(ParseErr::Failure(e));
        },
        Err(ParseErr::Incomplete(n)) => {
            proof {
                assert(applies(f, input, Err::<(I, O), ParseErr<E>>(ParseErr::Incomplete(n))));
            }
            return Err(ParseErr::Incomplete(n));
        },
        Ok(p) => p,
    };
    proof {
        assert(applies(f, input, Ok::<(I, O), ParseErr<E>>((first, o))));
    }
    let ghost start = first;
    let ghost o0 = o;
    acc.push(o);
    let mut i = first;
    let ghost mut cursors: Seq<I> = seq![start];
    let ghost mut values: Seq<O> = Seq::empty();
    loop
        invariant
            f == f0,
            sep == sep0,
            callable(sep, i),
            callable_after(f, sep),
            callable_after(sep, f),
            applies(f, input, Ok::<(I, O), ParseErr<E>>((start, o0))),
            is_list_run(sep, f, start, cursors, values),
            cursors.last() == i,
            acc@ == seq![o0] + values,
        decreases i.spec_input_len(),
    {
        if i.input_len() == 0 {
            return Ok((i, acc));
        }
        match sep(i.clone()) {
            Err(ParseErr::Failure(e)) => {
                return Err(ParseErr::Failure(e));
            },
            Err(e) => {
                proof {
                    assert(applies(sep, i, Err::<(I, O2), ParseErr<E>>(e)));
                }
                return Ok((i, acc));
            },
            Ok((i2, o2)) => {
                proof {
                    assert(applies(sep, i, Ok::<(I, O2), ParseErr<E>>((i2, o2))));
                }
                if i2.input_len() > i.input_len() {
                    return Err(ParseErr::Error(E::from_error_kind(i, ErrorKind::Many0)));
                }
                proof {
                    assert(separates(sep, i, i2));
                }
                match f(i2.clone()) {
                    Err(ParseErr::Failure(e)) => {
                        return Err(ParseErr::Failure(e));
                    },
                    Err(e) => {
                        proof {
                            assert(applies(f, i2, Err::<(I, O), ParseErr<E>>(e)));
                        }
                        return Ok((i, acc));
                    },
                    Ok((i3, o)) => {
                        proof {
                            assert(applies(f, i2, Ok::<(I, O), ParseErr<E>>((i3, o))));
                        }
                        if i3.input_len() >= i2.input_len() {
                            return Err(ParseErr::Error(E::from_error_kind(i, ErrorKind::Many0)));
                        }
                        proof {
                            let prev_cursors = cursors;
                            let prev_values = values;
                            cursors = cursors.push(i3);
                            values = values.push(o);
                            assert forall|k: int| 0 <= k < values.len() implies #[trigger] is_list_step(
                                sep,
                                f,
                                cursors,
                                values,
                                k,
                            ) by {
                                if k < prev_values.len() {
                                    assert(is_list_step(sep, f, prev_cursors, prev_values, k));
                                    let mid = choose|mid: I| #[trigger]
                                        separates(sep, prev_cursors[k], mid) && applies(
                                            f,
                                            mid,
                                            Ok::<(I, O), ParseErr<E>>(
                                                (prev_cursors[k + 1], prev_values[k]),
                                            ),
                                        ) && prev_cursors[k + 1].spec_input_len()
                                            < mid.spec_input_len();
                                    assert(separates(sep, cursors[k], mid));
                                } else {
                                    assert(separates(sep, cursors[k], i2));
                                }
                            }
                        }
                        i = i3;
                        acc.push(o);
                    },
                }
            },
        }
    }
}

/// Where `f` can only fail recoverably on `input`, `separated_list` succeeds
/// with the empty list and leaves `input`.
pub proof fn lemma_separated_list_without_a_first_item<
    I: Clone + InputLength,
    O,
    O2,
    E: Er<I>,
    F: FnOnce(I) -> IResult<I, O, E>,
    G: FnOnce(I) -> IResult<I, O2, E>,
>(sep: G, f: F, input: I, r: IResult<I, Vec<O>, E>)
    requires
        separated_list_outcome(sep, f, input, r),
        forall|res: IResult<I, O, E>| #[trigger]
            applies(f, input, res) ==> res matches Err(ParseErr::Error(_)),
    ensures
        r matches Ok((rest, acc)) && rest == input && acc@.len() == 0,
{
}

} // verus!
