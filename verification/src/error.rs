//! Error representations: how much a failed parser remembers.
//!
//! A representation says how an error is made at a failing position, how the
//! errors of two failed alternatives are merged, and what a context label adds.
//! Three are provided: `(I, u32)` keeps no diagnosis, `Simple` keeps the last
//! failure, `Verbose` keeps a chain.

use vstd::prelude::*;

verus! {

/// What kind of parser failed.
#[derive(Debug, PartialEq, Eq, Clone, Copy)]
pub enum ErrorKind {
    /// Every alternative of an alternation failed.
    Alt,
    /// A zero-or-more repetition could not go on.
    Many0,
    /// A one-or-more repetition found nothing, or could not go on.
    Many1,
    /// The next byte is not the expected character.
    Char,
    /// The input does not start with the expected literal.
    Tag,
    /// A predicate span could not be taken.
    TakeWhile,
    /// A predicate span that must not be empty was empty.
    TakeWhile1,
    /// A matched span could not be turned into a value.
    ParseTo,
}

/// An error representation over inputs of type `I`.
///
/// The three spec functions are relations: each says which values the method of
/// the same purpose may return. The combinators state their errors through them.
pub trait Er<I>: Sized {
    /// Whether `self` is an error made for a failure of `kind` at `input`.
    spec fn made_from(self, input: I, kind: ErrorKind) -> bool;

    /// Whether `self` is a merge of `first` and `second`, the errors of two
    /// alternatives tried in that order.
    spec fn merged_from(self, first: Self, second: Self) -> bool;

    /// Whether `self` is `inner` with the context `label`, entered at `input`.
    spec fn labelled_from(self, inner: Self, input: I, label: &'static str) -> bool;

    /// Makes the error for a failure of `kind` at `input`.
    fn from_error_kind(input: I, kind: ErrorKind) -> (r: Self)
        ensures
            r.made_from(input, kind),
    ;

    /// Merges the errors of two failed alternatives, keeping the more
    /// informative one.
    fn or(self, other: Self) -> (r: Self)
        ensures
            r.merged_from(self, other),
    ;

    /// Records that the failure happened inside the context `label`, which was
    /// entered at `input`. A representation without chains returns `self`.
    fn add_context(self, input: I, label: &'static str) -> (r: Self)
        ensures
            r.labelled_from(self, input, label),
    ;
}

/// The minimal representation: no diagnosis is kept.
impl<I> Er<I> for (I, u32) {
    open spec fn made_from(self, input: I, kind: ErrorKind) -> bool {
        self == (input, 0u32)
    }

    open spec fn merged_from(self, first: Self, second: Self) -> bool {
        self == second
    }

    open spec fn labelled_from(self, inner: Self, input: I, label: &'static str) -> bool {
        self == inner
    }

    fn from_error_kind(input: I, kind: ErrorKind) -> (r: Self) {
        (input, 0)
    }

    fn or(self, other: Self) -> (r: Self) {
        other
    }

    fn add_context(self, input: I, label: &'static str) -> (r: Self) {
        self
    }
}

/// The positional representation: where the last failure happened, and its kind.
#[derive(Debug, PartialEq, Eq)]
pub struct Simple<I> {
    /// The input at which the parser failed.
    pub i: I,
    /// The kind of parser that failed.
    pub e: ErrorKind,
}

impl<I> Er<I> for Simple<I> {
    open spec fn made_from(self, input: I, kind: ErrorKind) -> bool {
        self == (Simple { i: input, e: kind })
    }

    /// The alternative tried last wins.
    open spec fn merged_from(self, first: Self, second: Self) -> bool {
        self == second
    }

    open spec fn labelled_from(self, inner: Self, input: I, label: &'static str) -> bool {
        self == inner
    }

    fn from_error_kind(input: I, kind: ErrorKind) -> (r: Self) {
        Simple { i: input, e: kind }
    }

    fn or(self, other: Self) -> (r: Self) {
        other
    }

    fn add_context(self, input: I, label: &'static str) -> (r: Self) {
        self
    }
}

/// What one entry of a `Verbose` chain records.
#[derive(Debug, PartialEq, Eq, Clone, Copy)]
pub enum VerboseKind {
    /// A parser of this kind failed.
    E(ErrorKind),
    /// The failure happened inside the context with this label.
    Context(&'static str),
}

/// The verbose representation: a chain of positions, each with a kind or a label.
///
/// The chain is never empty. Its last entry is the failure itself; every label
/// added on the way out of the grammar goes to the front, so the chain reads
/// from the outermost context down to the failure.
#[derive(Debug, PartialEq, Eq)]
pub struct Verbose<I> {
    v: Vec<(I, VerboseKind)>,
}

impl<I> View for Verbose<I> {
    type V = Seq<(I, VerboseKind)>;

    /// The chain, the failure last.
    closed spec fn view(&self) -> Seq<(I, VerboseKind)> {
        self.v@
    }
}

impl<I> Verbose<I> {
    #[verifier::type_invariant]
    spec fn ends_with_the_failure(&self) -> bool {
        self.v@.len() > 0 && self.v@.last().1 is E
    }

    /// Adds the label `context`, entered at `input`, to the front of the chain.
    /// The entries recorded so far follow it in their order.
    pub fn append(self, input: I, context: &'static str) -> (r: Self)
        ensures
            r@ == seq![(input, VerboseKind::Context(context))] + self@,
    {
        proof {
            use_type_invariant(&self);
        }
        let mut v = self.v;
        v.insert(0, (input, VerboseKind::Context(context)));
        proof {
            assert(v@ =~= seq![(input, VerboseKind::Context(context))] + self.v@);
        }
        Verbose { v }
    }

    /// The entries of the chain, the failure last.
    pub fn entries(&self) -> (r: &[(I, VerboseKind)])
        ensures
            r@ == self@,
            r@.len() > 0,
            r@.last().1 is E,
    {
        proof {
            use_type_invariant(self);
        }
        self.v.as_slice()
    }
}

/// How far a chain got: the length of the input that was left where it failed,
/// which its last entry records. A smaller number is a failure farther into the
/// input.
pub open spec fn chain_failure_len<'a>(chain: Seq<(&'a [u8], VerboseKind)>) -> nat {
    chain.last().0@.len()
}

/// How far the error `e` got: see `chain_failure_len`.
pub open spec fn failure_len<'a>(e: Verbose<&'a [u8]>) -> nat {
    chain_failure_len(e@)
}

impl<'a> Er<&'a [u8]> for Verbose<&'a [u8]> {
    open spec fn made_from(self, input: &'a [u8], kind: ErrorKind) -> bool {
        self@ == seq![(input, VerboseKind::E(kind))]
    }

    /// The alternative that failed farther into the input wins; where both
    /// failed at the same distance, the one tried first.
    open spec fn merged_from(self, first: Self, second: Self) -> bool {
        self == if failure_len(second) < failure_len(first) {
            second
        } else {
            first
        }
    }

    open spec fn labelled_from(self, inner: Self, input: &'a [u8], label: &'static str) -> bool {
        self@ == seq![(input, VerboseKind::Context(label))] + inner@
    }

    fn from_error_kind(input: &'a [u8], kind: ErrorKind) -> (r: Self) {
        let mut v = Vec::new();
        v.push((input, VerboseKind::E(kind)));
        Verbose { v }
    }

    fn or(self, other: Self) -> (r: Self) {
        proof {
            use_type_invariant(&self);
            use_type_invariant(&other);
        }
        if other.v[other.v.len() - 1].0.len() < self.v[self.v.len() - 1].0.len() {
            other
        } else {
            self
        }
    }

    fn add_context(self, input: &'a [u8], label: &'static str) -> (r: Self) {
        self.append(input, label)
    }
}

} // verus!
