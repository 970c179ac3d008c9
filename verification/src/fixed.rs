//! A decimal fixed-point scalar: an exact representation with six decimal
//! places, whose every operation is verified.

use crate::space::{reciprocal_axis, reciprocal_bounds, reciprocal_len, Real, Space};
use crate::utils::{arange_count_spec, even_step, progression, Scalar};
use vstd::prelude::*;

verus! {

/// How many millionths make one.
pub const UNIT: i64 = 1_000_000;

/// A number in millionths, or the undefined value that an overflow or a
/// division by zero leaves behind. Every operation on the undefined value
/// is undefined again.
#[derive(Clone, Copy, Debug, PartialEq, Eq)]
pub struct Fixed {
    pub micro: Option<i64>,
}

/// The undefined value.
pub open spec fn undefined() -> Fixed {
    Fixed { micro: None }
}

/// The value of `v` millionths, where an `i64` holds `v`.
pub open spec fn fit(v: int) -> Fixed {
    if i64::MIN <= v <= i64::MAX {
        Fixed { micro: Some(v as i64) }
    } else {
        undefined()
    }
}

/// `x / y`, rounded towards zero. `y` is not zero.
pub open spec fn quot(x: int, y: int) -> int {
    if (x < 0) != (y < 0) {
        -((if x < 0 { -x } else { x }) / (if y < 0 { -y } else { y }))
    } else {
        (if x < 0 { -x } else { x }) / (if y < 0 { -y } else { y })
    }
}

/// `num_traits::NumCast::from` for `i64`, on a `usize`: the same number
/// where it is at most `i64::MAX`, and `None` above.
#[verifier::external_body]
fn index_to_i64(i: usize) -> (r: Option<i64>)
    ensures
        r == (if i <= i64::MAX { Some(i as i64) } else { None }),
{
    <i64 as num_traits::NumCast>::from(i)
}

/// `num_traits::NumCast::from` for `usize`, on an `i64`: the same number
/// where it is neither negative nor above `usize::MAX`, and `None`
/// otherwise.
#[verifier::external_body]
fn i64_to_index(v: i64) -> (r: Option<usize>)
    ensures
        r == (if 0 <= v <= usize::MAX { Some(v as usize) } else { None }),
{
    <usize as num_traits::NumCast>::from(v)
}

/// Returns the value of `v` millionths.
fn fit_wide(v: i128) -> (r: Fixed)
    ensures
        r == fit(v as int),
{
    if -9_223_372_036_854_775_808i128 <= v && v <= 9_223_372_036_854_775_807i128 {
        Fixed { micro: Some(v as i64) }
    } else {
        Fixed { micro: None }
    }
}

/// Returns `x / y`, rounded towards zero.
fn quotient(x: i128, y: i128) -> (q: i128)
    requires
        y != 0,
        -0x4000_0000_0000_0000_0000_0000_0000_0000 <= x <= 0x4000_0000_0000_0000_0000_0000_0000_0000,
        -0x4000_0000_0000_0000_0000_0000_0000_0000 <= y <= 0x4000_0000_0000_0000_0000_0000_0000_0000,
    ensures
        q == quot(x as int, y as int),
{
    let ax: u128 = if x < 0 { (-x) as u128 } else { x as u128 };
    let ay: u128 = if y < 0 { (-y) as u128 } else { y as u128 };
    let m: u128 = ax / ay;
    if (x < 0) != (y < 0) {
        -(m as i128)
    } else {
        m as i128
    }
}

impl Fixed {
    /// Returns the value of `micro` millionths.
    pub fn from_micro(micro: i64) -> (r: Fixed)
        ensures
            r == (Fixed { micro: Some(micro) }),
    {
        Fixed { micro: Some(micro) }
    }
}

impl Scalar for Fixed {
    open spec fn zero_spec() -> Self {
        Fixed { micro: Some(0) }
    }

    open spec fn one_spec() -> Self {
        Fixed { micro: Some(UNIT) }
    }

    open spec fn from_index_spec(i: usize) -> Self {
        fit(i * UNIT)
    }

    open spec fn plus_spec(self, rhs: Self) -> Self {
        match (self.micro, rhs.micro) {
            (Some(x), Some(y)) => fit(x + y),
            _ => undefined(),
        }
    }

    open spec fn minus_spec(self, rhs: Self) -> Self {
        match (self.micro, rhs.micro) {
            (Some(x), Some(y)) => fit(x - y),
            _ => undefined(),
        }
    }

    open spec fn times_spec(self, rhs: Self) -> Self {
        match (self.micro, rhs.micro) {
            (Some(x), Some(y)) => fit(quot(x * y, UNIT as int)),
            _ => undefined(),
        }
    }

    open spec fn over_spec(self, rhs: Self) -> Self {
        match (self.micro, rhs.micro) {
            (Some(x), Some(y)) => if y == 0 {
                undefined()
            } else {
                fit(quot(x * UNIT, y as int))
            },
            _ => undefined(),
        }
    }

    open spec fn floor_count_spec(self) -> Option<usize> {
        match self.micro {
            Some(x) => if 0 <= x && x / UNIT <= usize::MAX {
                Some((x / UNIT) as usize)
            } else {
                None
            },
            None => None,
        }
    }

    fn zero() -> (r: Self) {
        Fixed { micro: Some(0) }
    }

    fn one() -> (r: Self) {
        Fixed { micro: Some(UNIT) }
    }

    fn from_index(i: usize) -> (r: Self) {
        match index_to_i64(i) {
            Some(v) => fit_wide(v as i128 * UNIT as i128),
            None => {
                assert(i * UNIT > i64::MAX) by (nonlinear_arith)
                    requires
                        i > i64::MAX,
                        UNIT == 1_000_000,
                ;
                Fixed { micro: None }
            },
        }
    }

    fn plus(self, rhs: Self) -> (r: Self) {
        match (self.micro, rhs.micro) {
            (Some(x), Some(y)) => fit_wide(x as i128 + y as i128),
            _ => Fixed { micro: None },
        }
    }

    fn minus(self, rhs: Self) -> (r: Self) {
        match (self.micro, rhs.micro) {
            (Some(x), Some(y)) => fit_wide(x as i128 - y as i128),
            _ => Fixed { micro: None },
        }
    }

    fn times(self, rhs: Self) -> (r: Self) {
        match (self.micro, rhs.micro) {
            (Some(x), Some(y)) => {
                assert(-0x4000_0000_0000_0000_0000_0000_0000_0000 <= x * y
                    <= 0x4000_0000_0000_0000_0000_0000_0000_0000) by (nonlinear_arith)
                    requires
                        -0x8000_0000_0000_0000 <= x <= 0x8000_0000_0000_0000,
                        -0x8000_0000_0000_0000 <= y <= 0x8000_0000_0000_0000,
                ;
                fit_wide(quotient(x as i128 * y as i128, UNIT as i128))
            },
            _ => Fixed { micro: None },
        }
    }

    fn over(self, rhs: Self) -> (r: Self) {
        match (self.micro, rhs.micro) {
            (Some(x), Some(y)) => {
                if y == 0 {
                    Fixed { micro: None }
                } else {
                    fit_wide(quotient(x as i128 * UNIT as i128, y as i128))
                }
            },
            _ => Fixed { micro: None },
        }
    }

    fn floor_count(self) -> (r: Option<usize>) {
        match self.micro {
            Some(x) => {
                if x < 0 {
                    None
                } else {
                    i64_to_index(x / UNIT)
                }
            },
            None => None,
        }
    }
}

impl Real for Fixed {
    open spec fn negated_spec(self) -> Self {
        match self.micro {
            Some(x) => fit(-x),
            None => undefined(),
        }
    }

    open spec fn half_spec() -> Self {
        Fixed { micro: Some(500_000) }
    }

    open spec fn pi_spec() -> Self {
        Fixed { micro: Some(3_141_593) }
    }

    fn negated(self) -> (r: Self) {
        match self.micro {
            Some(x) => fit_wide(-(x as i128)),
            None => Fixed { micro: None },
        }
    }

    fn half() -> (r: Self) {
        Fixed { micro: Some(500_000) }
    }

    fn pi() -> (r: Self) {
        Fixed { micro: Some(3_141_593) }
    }
}

/// A progression of fixed-point numbers starts at its first term exactly,
/// whatever the step, as long as both are defined.
pub proof fn lemma_progression_starts_at(a: Fixed, step: Fixed, n: nat)
    requires
        a.micro.is_some(),
        step.micro.is_some(),
        n > 0,
    ensures
        progression(a, step, n)[0] == a,
{
    assert(0 * step.micro.unwrap() == 0);
}

/// Twice a fixed-point number is the same whether it is multiplied by two
/// or added to itself.
pub proof fn lemma_twice(x: Fixed)
    ensures
        Fixed::from_index_spec(2).times_spec(x) == x.plus_spec(x),
{
    assert(2usize * UNIT == 2_000_000);
    if let Some(l) = x.micro {
        if l >= 0 {
            assert((2_000_000 * l) / 1_000_000 == 2 * l) by (nonlinear_arith)
                requires
                    l >= 0,
            ;
        } else {
            assert((-(2_000_000 * l)) / 1_000_000 == -(2 * l)) by (nonlinear_arith)
                requires
                    l < 0,
            ;
        }
        assert(quot(2_000_000 * l, UNIT as int) == 2 * l);
    }
}

/// In fixed point the samples of real space along an axis start at `-L`
/// exactly and lie one spatial resolution apart, wherever `2 L` and the
/// resolution are defined.
pub proof fn lemma_spatial_axis_exact(s: Space<Fixed>, i: int)
    requires
        s.wf(),
        0 <= i < 3,
        s.extent()[i].micro.is_some(),
        s.extent()[i].plus_spec(s.extent()[i]).micro.is_some(),
        s.grid()[i] > 0,
        s.spatial_step(i).micro.is_some(),
    ensures
        s.spatial_axis(i).len() == s.grid()[i],
        s.spatial_axis(i)[0] == s.extent()[i].negated_spec(),
        forall|k: int|
            0 <= k < s.grid()[i] ==> #[trigger] s.spatial_axis(i)[k]
                == s.extent()[i].negated_spec().plus_spec(
                Fixed::from_index_spec(k as usize).times_spec(s.spatial_step(i)),
            ),
{
    let l = s.extent()[i];
    let n = s.grid()[i];
    lemma_twice(l);
    lemma_progression_starts_at(l.negated_spec(), s.spatial_step(i), n as nat);
}

/// Scaling up by the unit and down again changes nothing.
proof fn lemma_unit_cancels(x: int)
    requires
        x >= 0,
    ensures
        (x * 1_000_000) / 1_000_000 == x,
        quot(x * 1_000_000, 1_000_000) == x,
{
    assert((x * 1_000_000) / 1_000_000 == x) by (nonlinear_arith)
        requires
            x >= 0,
    ;
}

/// In fixed point the last of the `size` terms from `a` to `b`, spaced by
/// `(b - a) / (size - 1)`, lies less than `size - 1` millionths from `b`,
/// and never beyond it.
pub proof fn lemma_linspace_ends_near(a: Fixed, b: Fixed, size: usize)
    requires
        size >= 2,
        a.micro.is_some(),
        b.micro.is_some(),
        b.minus_spec(a).micro.is_some(),
        Fixed::from_index_spec((size - 1) as usize).micro.is_some(),
    ensures
        ({
            let last = progression(a, even_step(a, b, (size - 1) as usize), size as nat)[size - 1];
            let x = a.micro.unwrap();
            let y = b.micro.unwrap();
            &&& last.micro.is_some()
            &&& x <= y ==> y - (size - 1) < last.micro.unwrap() <= y
            &&& x >= y ==> y <= last.micro.unwrap() < y + (size - 1)
        }),
{
    let x: int = a.micro.unwrap() as int;
    let y: int = b.micro.unwrap() as int;
    let w: int = if x <= y { y - x } else { x - y };
    let p: int = size - 1;
    let u: int = 1_000_000;
    let parts = (size - 1) as usize;
    assert(parts * UNIT == p * u);
    let den: int = p * u;
    let s: int = (w * u) / den;
    assert(s >= 0 && s * den <= w * u < s * den + den) by (nonlinear_arith)
        requires
            s == (w * u) / den,
            den > 0,
            w * u >= 0,
    ;
    let t: int = s * p;
    assert(s * den == t * u && p * u * s == t * u && p * u * (-s) == -(t * u) && t >= s)
        by (nonlinear_arith)
        requires
            den == p * u,
            t == s * p,
            s >= 0,
            p >= 1,
    ;
    lemma_unit_cancels(t);
    let step = even_step(a, b, parts);
    if x <= y {
        assert(quot((y - x) * u, den) == s);
        assert(step.micro == Some(s as i64));
        assert(Fixed::from_index_spec(parts).times_spec(step).micro == Some(t as i64));
    } else {
        assert((y - x) * u == -(w * u)) by (nonlinear_arith)
            requires
                w == x - y,
        ;
        assert(quot((y - x) * u, den) == -s);
        assert(step.micro == Some((-s) as i64));
        assert(quot(-(t * u), u) == -t);
        assert(Fixed::from_index_spec(parts).times_spec(step).micro == Some((-t) as i64));
    }
}

/// In fixed point the count-driven range from `a` towards a greater `b`
/// is half-open: each of its `size` terms is defined, none is below `a`,
/// and none reaches `b`.
pub proof fn lemma_xrange_half_open(a: Fixed, b: Fixed, size: usize)
    requires
        a.micro.is_some(),
        b.micro.is_some(),
        a.micro.unwrap() < b.micro.unwrap(),
        b.minus_spec(a).micro.is_some(),
        Fixed::from_index_spec(size).micro.is_some(),
    ensures
        forall|k: int|
            0 <= k < size ==> {
                let term = #[trigger] progression(a, even_step(a, b, size), size as nat)[k];
                &&& term.micro.is_some()
                &&& a.micro.unwrap() <= term.micro.unwrap() < b.micro.unwrap()
            },
{
    let x: int = a.micro.unwrap() as int;
    let y: int = b.micro.unwrap() as int;
    let w: int = y - x;
    let u: int = 1_000_000;
    assert(size * UNIT == size * u);
    if size > 0 {
        let den: int = size * u;
        let s: int = (w * u) / den;
        assert(s >= 0 && s * den <= w * u) by (nonlinear_arith)
            requires
                s == (w * u) / den,
                den > 0,
                w * u >= 0,
        ;
        let whole: int = s * size;
        assert(s * den == whole * u && whole >= s) by (nonlinear_arith)
            requires
                den == size * u,
                whole == s * size,
                s >= 0,
                size >= 1,
        ;
        assert(whole <= w) by (nonlinear_arith)
            requires
                whole * u <= w * u,
                u == 1_000_000,
        ;
        assert(quot(w * u, den) == s);
        let step = even_step(a, b, size);
        assert(step.micro == Some(s as i64));
        assert forall|k: int| 0 <= k < size implies {
            let term = #[trigger] progression(a, step, size as nat)[k];
            &&& term.micro.is_some()
            &&& x <= term.micro.unwrap() < y
        } by {
            let t: int = k * s;
            assert(0 <= k * u <= size * u && (k * u) * s == t * u && 0 <= t && t + s <= whole)
                by (nonlinear_arith)
                requires
                    0 <= k <= size - 1,
                    u == 1_000_000,
                    t == k * s,
                    whole == s * size,
                    s >= 0,
            ;
            assert(t < w) by (nonlinear_arith)
                requires
                    t == k * s,
                    t + s <= whole,
                    whole <= w,
                    s >= 0,
                    0 < w,
            ;
            assert((k as usize) * UNIT == k * u);
            lemma_unit_cancels(t);
            assert(Fixed::from_index_spec(k as usize).times_spec(step).micro == Some(t as i64));
        }
    }
}

/// In fixed point the step-driven range from `a` up to `b` by a positive
/// `step` is half-open and goes as far as it can: term `k` is
/// `a + k * step` exactly, the last term is at most `b - step`, and one
/// term more would lie above `b - step`.
pub proof fn lemma_arange_half_open(a: Fixed, b: Fixed, step: Fixed)
    requires
        a.micro.is_some(),
        b.micro.is_some(),
        step.micro.is_some(),
        step.micro.unwrap() > 0,
        a.micro.unwrap() <= b.micro.unwrap(),
        arange_count_spec(a, b, step).is_some(),
        Fixed::from_index_spec(arange_count_spec(a, b, step).unwrap()).micro.is_some(),
    ensures
        a.micro.unwrap() + arange_count_spec(a, b, step).unwrap() * step.micro.unwrap()
            > b.micro.unwrap() - step.micro.unwrap(),
        forall|k: int|
            0 <= k < arange_count_spec(a, b, step).unwrap() ==> {
                let term = #[trigger] progression(
                    a,
                    step,
                    arange_count_spec(a, b, step).unwrap() as nat,
                )[k];
                &&& term.micro == Some((a.micro.unwrap() + k * step.micro.unwrap()) as i64)
                &&& a.micro.unwrap() + k * step.micro.unwrap() <= b.micro.unwrap()
                    - step.micro.unwrap()
            },
{
    let x: int = a.micro.unwrap() as int;
    let y: int = b.micro.unwrap() as int;
    let d: int = step.micro.unwrap() as int;
    let w: int = y - x;
    let u: int = 1_000_000;
    let count = arange_count_spec(a, b, step).unwrap();
    let q: int = (w * u) / d;
    assert(w * u >= 0 && q >= 0 && q * d <= w * u < q * d + d) by (nonlinear_arith)
        requires
            w >= 0,
            d > 0,
            u == 1_000_000,
            q == (w * u) / d,
    ;
    assert(quot(w * u, d) == q);
    assert(b.minus_spec(a).over_spec(step).micro == Some(q as i64));
    assert(count == q / u);
    assert(count * d <= w < count * d + d) by (nonlinear_arith)
        requires
            count == q / u,
            q >= 0,
            q * d <= w * u < q * d + d,
            d > 0,
            u == 1_000_000,
    ;
    assert(count * UNIT == count * u);
    assert forall|k: int| 0 <= k < count implies {
        let term = #[trigger] progression(a, step, count as nat)[k];
        &&& term.micro == Some((x + k * d) as i64)
        &&& x + k * d <= y - d
    } by {
        assert(0 <= k * u <= count * u && (k * u) * d == (k * d) * u && 0 <= k * d
            && k * d + d <= count * d) by (nonlinear_arith)
            requires
                0 <= k <= count - 1,
                u == 1_000_000,
                d > 0,
        ;
        assert((k as usize) * UNIT == k * u);
        lemma_unit_cancels(k * d);
        assert(Fixed::from_index_spec(k as usize).times_spec(step).micro == Some((k * d) as i64));
    }
}

/// In fixed point the range of a reciprocal domain is bounded by
/// `-B` and `B`, for `B = step * (n / 2)`, and symmetric about zero to
/// within one `step`: it starts at `-B` exactly, goes up by one `step`
/// from sample to sample, has at most `n` samples, and its last sample is
/// at most `B - step` and above `B - 2 * step`.
pub proof fn lemma_reciprocal_axis_bounded(step: Fixed, n: usize)
    requires
        step.micro.is_some(),
        step.micro.unwrap() > 0,
        Fixed::from_index_spec(n).micro.is_some(),
        reciprocal_len(step, n).is_some(),
    ensures
        ({
            let (a, b) = reciprocal_bounds(step, n);
            let axis = reciprocal_axis(step, n);
            let d = step.micro.unwrap();
            &&& a.micro.is_some()
            &&& b.micro.is_some()
            &&& a.micro.unwrap() == -b.micro.unwrap()
            &&& b.micro.unwrap() >= 0
            &&& axis.len() == reciprocal_len(step, n).unwrap()
            &&& axis.len() <= n
            &&& a.micro.unwrap() + (axis.len() - 1) * d > b.micro.unwrap() - 2 * d
            &&& forall|k: int|
                0 <= k < axis.len() ==> {
                    &&& (#[trigger] axis[k]).micro == Some((a.micro.unwrap() + k * d) as i64)
                    &&& a.micro.unwrap() <= a.micro.unwrap() + k * d <= b.micro.unwrap() - d
                }
        }),
{
    let d: int = step.micro.unwrap() as int;
    let u: int = 1_000_000;
    let (a, b) = reciprocal_bounds(step, n);
    let axis = reciprocal_axis(step, n);
    let count: int = reciprocal_len(step, n).unwrap() as int;
    // imax is n / 2, exactly.
    let m: int = 500_000 * n;
    assert(n * UNIT == n * u);
    assert(500_000 * (n * u) == m * u) by (nonlinear_arith)
        requires
            m == 500_000 * n,
    ;
    lemma_unit_cancels(m);
    let imax = Fixed::half_spec().times_spec(Fixed::from_index_spec(n));
    assert(imax.micro == Some(m as i64));
    // The bounds are -B and B.
    let big: int = (d * m) / u;
    assert(d * m >= 0 && big >= 0 && big * u <= d * m) by (nonlinear_arith)
        requires
            d > 0,
            m >= 0,
            u == 1_000_000,
            big == (d * m) / u,
    ;
    assert((-d) * m == -(d * m)) by (nonlinear_arith);
    assert(quot(d * m, u) == big);
    assert(quot((-d) * m, u) == -big);
    assert(a.micro.is_some() && b.micro.is_some());
    assert(b.micro.unwrap() == big);
    assert(a.micro.unwrap() == -big);
    // The count is floor(2 B / d), which is at most n.
    let q: int = (2 * big * u) / d;
    assert(b.minus_spec(a).micro == Some((2 * big) as i64));
    assert(2 * big * u >= 0 && q >= 0 && q * d <= 2 * big * u) by (nonlinear_arith)
        requires
            big >= 0,
            d > 0,
            u == 1_000_000,
            q == (2 * big * u) / d,
    ;
    assert(quot(2 * big * u, d) == q);
    assert(b.minus_spec(a).over_spec(step).micro == Some(q as i64));
    assert(count == q / u);
    assert(count * d <= 2 * big) by (nonlinear_arith)
        requires
            count == q / u,
            q >= 0,
            q * d <= 2 * big * u,
            d > 0,
            u == 1_000_000,
    ;
    assert(2 * big <= d * n) by (nonlinear_arith)
        requires
            big * u <= d * m,
            m == 500_000 * n,
            u == 1_000_000,
    ;
    assert(count <= n) by (nonlinear_arith)
        requires
            count * d <= 2 * big,
            2 * big <= d * n,
            d > 0,
    ;
    assert(count * UNIT <= n * UNIT) by (nonlinear_arith)
        requires
            0 <= count <= n,
            UNIT == 1_000_000,
    ;
    lemma_arange_half_open(a, b, step);
    assert((count - 1) * d == count * d - d) by (nonlinear_arith);
}

} // verus!
