//! The input cursor: a borrowed view with a length, which can be compared with a
//! literal, asked where a span ends, and split.

use vstd::prelude::*;

verus! {

/// An input whose remaining length can be asked for.
pub trait InputLength {
    /// The number of items left in the input.
    spec fn spec_input_len(&self) -> nat;

    /// The number of items left in the input.
    fn input_len(&self) -> (n: usize)
        ensures
            n == self.spec_input_len(),
    ;
}

impl<'a, T> InputLength for &'a [T] {
    open spec fn spec_input_len(&self) -> nat {
        self@.len()
    }

    fn input_len(&self) -> (n: usize) {
        self.len()
    }
}

/// Whether `rest` is what is left of `input` after its first `n` items.
pub open spec fn is_rest_after<T>(input: Seq<T>, n: int, rest: Seq<T>) -> bool {
    0 <= n <= input.len() && rest == input.subrange(n, input.len() as int)
}

/// Whether `input` starts with `literal`.
pub open spec fn starts_with<T>(input: Seq<T>, literal: Seq<T>) -> bool {
    literal.len() <= input.len() && input.subrange(0, literal.len() as int) == literal
}

/// Compares the front of the input `i` with the literal `t`: whether `i` starts
/// with `t`.
pub fn has_prefix(i: &[u8], t: &[u8]) -> (b: bool)
    ensures
        b == starts_with(i@, t@),
{
    if t.len() > i.len() {
        return false;
    }
    let mut k: usize = 0;
    while k < t.len()
        invariant
            k <= t@.len() <= i@.len(),
            i@.subrange(0, k as int) == t@.subrange(0, k as int),
        decreases t@.len() - k,
    {
        if i[k] != t[k] {
            return false;
        }
        k += 1;
    }
    proof {
        assert(t@.subrange(0, t@.len() as int) =~= t@);
    }
    true
}

/// Whether the span of `input` that `cond` accepts ends at `n`: `cond` returned
/// `true` on each of the first `n` items, and `false` on the next one if there
/// is one.
pub open spec fn is_span_end<T, F: Fn(T) -> bool>(cond: F, input: Seq<T>, n: int) -> bool {
    &&& 0 <= n <= input.len()
    &&& forall|k: int| 0 <= k < n ==> cond.ensures((#[trigger] input[k],), true)
    &&& n < input.len() ==> cond.ensures((input[n],), false)
}

/// Whether `input` splits at `n` into `span` and `rest`.
pub open spec fn splits_at<T>(input: Seq<T>, n: int, span: Seq<T>, rest: Seq<T>) -> bool {
    0 <= n <= input.len() && span == input.subrange(0, n) && is_rest_after(input, n, rest)
}

/// The position at which the span that `cond` accepts ends: the length of the
/// longest prefix of `input` on whose items `cond` returns `true`.
pub fn span_end<T: Copy, F: Fn(T) -> bool>(input: &[T], cond: &F) -> (n: usize)
    requires
        forall|k: int| 0 <= k < input@.len() ==> cond.requires((#[trigger] input@[k],)),
    ensures
        is_span_end(*cond, input@, n as int),
{
    let mut n: usize = 0;
    while n < input.len()
        invariant
            n <= input@.len(),
            forall|k: int| 0 <= k < input@.len() ==> cond.requires((#[trigger] input@[k],)),
            forall|k: int| 0 <= k < n ==> cond.ensures((#[trigger] input@[k],), true),
        decreases input@.len() - n,
    {
        if !cond(input[n]) {
            return n;
        }
        n += 1;
    }
    n
}

} // verus!
