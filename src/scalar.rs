use vstd::prelude::*;

verus! {

/// The arithmetic a normalization layer computes with. Each operation is
/// named by a spec function, so the passes can state their results exactly
/// as expressions over these operations, in the order they are performed.
pub trait Scalar: Sized + Copy {
    spec fn spec_zero() -> Self;

    spec fn spec_plus(a: Self, b: Self) -> Self;

    spec fn spec_minus(a: Self, b: Self) -> Self;

    spec fn spec_times(a: Self, b: Self) -> Self;

    /// `a` divided by the count `n`.
    spec fn spec_div_count(a: Self, n: usize) -> Self;

    /// The reciprocal square root of `a`.
    spec fn spec_rsqrt(a: Self) -> Self;

    fn zero() -> (r: Self)
        ensures
            r == Self::spec_zero(),
    ;

    fn plus(a: Self, b: Self) -> (r: Self)
        ensures
            r == Self::spec_plus(a, b),
    ;

    fn minus(a: Self, b: Self) -> (r: Self)
        ensures
            r == Self::spec_minus(a, b),
    ;

    fn times(a: Self, b: Self) -> (r: Self)
        ensures
            r == Self::spec_times(a, b),
    ;

    fn div_count(a: Self, n: usize) -> (r: Self)
        requires
            n > 0,
        ensures
            r == Self::spec_div_count(a, n),
    ;

    fn rsqrt(a: Self) -> (r: Self)
        ensures
            r == Self::spec_rsqrt(a),
    ;
}

/// Left fold of `plus` over `f(0), ..., f(n - 1)`, starting from `init`:
/// `(((init + f(0)) + f(1)) + ...) + f(n - 1)`.
pub open spec fn fold_plus<S: Scalar>(init: S, f: spec_fn(int) -> S, n: int) -> S
    decreases n,
{
    if n <= 0 {
        init
    } else {
        S::spec_plus(fold_plus(init, f, n - 1), f(n - 1))
    }
}

/// Folds of two functions that agree on `0 .. n` are equal.
pub proof fn lemma_fold_plus_ext<S: Scalar>(init: S, f: spec_fn(int) -> S, g: spec_fn(int) -> S, n: int)
    requires
        forall|i: int| 0 <= i < n ==> #[trigger] f(i) == g(i),
    ensures
        fold_plus(init, f, n) == fold_plus(init, g, n),
    decreases n,
{
    if n > 0 {
        lemma_fold_plus_ext(init, f, g, n - 1);
    }
}

} // verus!
