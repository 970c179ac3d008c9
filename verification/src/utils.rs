//! Numeric sequences: constant fills and arithmetic progressions.
//!
//! Everything here is generic over a [`Scalar`]: a numeric representation
//! with total arithmetic. The contracts speak of the scalar's own
//! operations, so they hold bit for bit of whatever rounding the
//! representation performs.

use vstd::prelude::*;

verus! {

/// A numeric representation with total arithmetic.
///
/// Every operation is a function of its operands alone. The `*_spec`
/// functions name the results; nothing is promised about their algebra
/// (a rounding representation is neither associative nor distributive).
pub trait Scalar: Copy {
    /// The additive identity.
    spec fn zero_spec() -> Self;

    /// The multiplicative identity.
    spec fn one_spec() -> Self;

    /// The scalar nearest to the index `i`.
    spec fn from_index_spec(i: usize) -> Self;

    /// `self + rhs`.
    spec fn plus_spec(self, rhs: Self) -> Self;

    /// `self - rhs`.
    spec fn minus_spec(self, rhs: Self) -> Self;

    /// `self * rhs`.
    spec fn times_spec(self, rhs: Self) -> Self;

    /// `self / rhs`.
    spec fn over_spec(self, rhs: Self) -> Self;

    /// The integer part of `self`, rounded down, where it is a count that
    /// `usize` can hold; `None` for a negative, undefined or too large value.
    spec fn floor_count_spec(self) -> Option<usize>;

    fn zero() -> (r: Self)
        ensures
            r == Self::zero_spec(),
    ;

    fn one() -> (r: Self)
        ensures
            r == Self::one_spec(),
    ;

    fn from_index(i: usize) -> (r: Self)
        ensures
            r == Self::from_index_spec(i),
    ;

    fn plus(self, rhs: Self) -> (r: Self)
        ensures
            r == self.plus_spec(rhs),
    ;

    fn minus(self, rhs: Self) -> (r: Self)
        ensures
            r == self.minus_spec(rhs),
    ;

    fn times(self, rhs: Self) -> (r: Self)
        ensures
            r == self.times_spec(rhs),
    ;

    fn over(self, rhs: Self) -> (r: Self)
        ensures
            r == self.over_spec(rhs),
    ;

    fn floor_count(self) -> (r: Option<usize>)
        ensures
            r == self.floor_count_spec(),
    ;
}

/// `n` copies of `v`.
pub open spec fn constant_seq<T>(v: T, n: nat) -> Seq<T> {
    Seq::new(n, |i: int| v)
}

/// The `n` terms `a + i * step`, for `i` from 0.
pub open spec fn progression<T: Scalar>(a: T, step: T, n: nat) -> Seq<T> {
    Seq::new(n, |i: int| a.plus_spec(T::from_index_spec(i as usize).times_spec(step)))
}

/// The step that cuts the way from `a` to `b` into `parts` equal parts.
pub open spec fn even_step<T: Scalar>(a: T, b: T, parts: usize) -> T {
    b.minus_spec(a).over_spec(T::from_index_spec(parts))
}

/// How many terms `arange(a, b, step)` has: `floor((b - a) / step)`, where
/// that is a count.
pub open spec fn arange_count_spec<T: Scalar>(a: T, b: T, step: T) -> Option<usize> {
    b.minus_spec(a).over_spec(step).floor_count_spec()
}

/// The frequency scale of the sample positions `x`: term `i` is
/// `i / (x[last] - x[0])`.
pub open spec fn freq_scale<T: Scalar>(x: Seq<T>) -> Seq<T> {
    Seq::new(
        x.len(),
        |i: int| T::from_index_spec(i as usize).over_spec(x[x.len() - 1].minus_spec(x[0])),
    )
}

/// Returns `n` copies of `v`.
pub fn filled<T: Copy>(v: T, n: usize) -> (r: Vec<T>)
    ensures
        r@ == constant_seq(v, n as nat),
{
    let mut out: Vec<T> = Vec::new();
    let mut i: usize = 0;
    while i < n
        invariant
            i <= n,
            out@ == constant_seq(v, i as nat),
        decreases n - i,
    {
        out.push(v);
        i = i + 1;
        assert(out@ =~= constant_seq(v, i as nat));
    }
    out
}

/// Returns the `n` terms `a + i * step`.
pub fn stepped<T: Scalar>(a: T, step: T, n: usize) -> (r: Vec<T>)
    ensures
        r@ == progression(a, step, n as nat),
{
    let mut out: Vec<T> = Vec::new();
    let mut i: usize = 0;
    while i < n
        invariant
            i <= n,
            out@ == progression(a, step, i as nat),
        decreases n - i,
    {
        out.push(a.plus(T::from_index(i).times(step)));
        i = i + 1;
        assert(out@ =~= progression(a, step, i as nat));
    }
    out
}

/// Returns the frequency scale of the sample positions `x`.
pub fn calc_freq<T: Scalar>(x: &[T]) -> (r: Vec<T>)
    requires
        x@.len() > 0,
    ensures
        r@ == freq_scale(x@),
{
    let n: usize = x.len();
    let span = x[n - 1].minus(x[0]);
    let mut out: Vec<T> = Vec::new();
    let mut i: usize = 0;
    while i < n
        invariant
            i <= n,
            n == x@.len(),
            span == x@[n - 1].minus_spec(x@[0]),
            out@.len() == i,
            forall|j: int| 0 <= j < i ==> out@[j] == freq_scale(x@)[j],
        decreases n - i,
    {
        out.push(T::from_index(i).over(span));
        i = i + 1;
    }
    assert(out@ =~= freq_scale(x@));
    out
}

/// Returns `n` zeros.
pub fn zeros<T: Scalar>(n: usize) -> (r: Vec<T>)
    ensures
        r@ == constant_seq(T::zero_spec(), n as nat),
        r@.len() == n,
        forall|i: int| 0 <= i < n ==> r@[i] == T::zero_spec(),
{
    filled(T::zero(), n)
}

/// Returns as many zeros as `x` has elements.
pub fn zeros_like<T: Scalar>(x: &[T]) -> (r: Vec<T>)
    ensures
        r@ == constant_seq(T::zero_spec(), x@.len()),
{
    zeros(x.len())
}

/// Returns `n` ones.
pub fn ones<T: Scalar>(n: usize) -> (r: Vec<T>)
    ensures
        r@ == constant_seq(T::one_spec(), n as nat),
        r@.len() == n,
        forall|i: int| 0 <= i < n ==> r@[i] == T::one_spec(),
{
    filled(T::one(), n)
}

/// Returns as many ones as `x` has elements.
pub fn ones_like<T: Scalar>(x: &[T]) -> (r: Vec<T>)
    ensures
        r@ == constant_seq(T::one_spec(), x@.len()),
{
    ones(x.len())
}

/// Returns the `size` terms `a + i * ((b - a) / size)`: the half-open range
/// from `a` towards `b`, which never holds `b` itself.
pub fn xrange<T: Scalar>(a: T, b: T, size: usize) -> (r: Vec<T>)
    ensures
        r@ == progression(a, even_step(a, b, size), size as nat),
        r@.len() == size,
{
    let factor = b.minus(a).over(T::from_index(size));
    stepped(a, factor, size)
}

/// Returns the number of terms that `arange(a, b, step)` has, or `None`
/// where `floor((b - a) / step)` is no count.
pub fn arange_count<T: Scalar>(a: T, b: T, step: T) -> (r: Option<usize>)
    ensures
        r == arange_count_spec(a, b, step),
{
    b.minus(a).over(step).floor_count()
}

/// Returns the `floor((b - a) / step)` terms `a + i * step`.
pub fn arange<T: Scalar>(a: T, b: T, step: T) -> (r: Vec<T>)
    requires
        arange_count_spec(a, b, step).is_some(),
    ensures
        r@ == progression(a, step, arange_count_spec(a, b, step).unwrap() as nat),
        r@.len() == arange_count_spec(a, b, step).unwrap(),
{
    let size: usize = arange_count(a, b, step).unwrap();
    stepped(a, step, size)
}

/// Returns `arange(a, b, step)` where `floor((b - a) / step)` is a count,
/// and `None` where it is not.
pub fn checked_arange<T: Scalar>(a: T, b: T, step: T) -> (r: Option<Vec<T>>)
    ensures
        r.is_some() == arange_count_spec(a, b, step).is_some(),
        r.is_some() ==> r.unwrap()@ == progression(
            a,
            step,
            arange_count_spec(a, b, step).unwrap() as nat,
        ),
{
    match arange_count(a, b, step) {
        Some(_) => Some(arange(a, b, step)),
        None => None,
    }
}

/// Returns the `size` terms `a + i * ((b - a) / (size - 1))`.
pub fn linspace<T: Scalar>(a: T, b: T, size: usize) -> (r: Vec<T>)
    requires
        size >= 2,
    ensures
        r@ == progression(a, even_step(a, b, (size - 1) as usize), size as nat),
        r@.len() == size,
{
    let factor = b.minus(a).over(T::from_index(size - 1));
    stepped(a, factor, size)
}

} // verus!
