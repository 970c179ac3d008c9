//! The library on the fixed-point scalar, where every value is exact.

use rust_particle::fixed::{Fixed, UNIT};
use rust_particle::space::{meshgrid, Real, Space};
use rust_particle::utils::{
    arange, arange_count, calc_freq, checked_arange, filled, linspace, ones, ones_like, stepped,
    xrange, zeros, zeros_like, Scalar,
};

fn fx(micro: i64) -> Fixed {
    Fixed::from_micro(micro)
}

fn fxs(micros: &[i64]) -> Vec<Fixed> {
    micros.iter().map(|m| fx(*m)).collect()
}

const UNDEFINED: Fixed = Fixed { micro: None };

#[test]
fn fixed_arithmetic_is_exact_or_undefined() {
    assert_eq!(Fixed::zero(), fx(0));
    assert_eq!(Fixed::one(), fx(UNIT));
    assert_eq!(Fixed::half(), fx(500_000));
    assert_eq!(Fixed::pi(), fx(3_141_593));
    assert_eq!(fx(1_500_000).plus(fx(250_000)), fx(1_750_000));
    assert_eq!(fx(1_500_000).minus(fx(2_000_000)), fx(-500_000));
    assert_eq!(fx(1_500_000).times(fx(-2_000_000)), fx(-3_000_000));
    assert_eq!(fx(1).times(fx(999_999)), fx(0));
    assert_eq!(fx(-7_000_000).over(fx(2_000_000)), fx(-3_500_000));
    assert_eq!(fx(1_000_000).over(fx(3_000_000)), fx(333_333));
    assert_eq!(fx(-1_000_000).over(fx(3_000_000)), fx(-333_333));
    assert_eq!(fx(1_000_000).over(fx(0)), UNDEFINED);
    assert_eq!(fx(i64::MAX).plus(fx(1)), UNDEFINED);
    assert_eq!(fx(i64::MIN).minus(fx(1)), UNDEFINED);
    assert_eq!(fx(i64::MIN).negated(), UNDEFINED);
    assert_eq!(fx(i64::MAX).times(fx(2_000_000)), UNDEFINED);
    assert_eq!(fx(i64::MIN).times(fx(i64::MIN)), UNDEFINED);
    assert_eq!(fx(i64::MAX).over(fx(1)), UNDEFINED);
    assert_eq!(UNDEFINED.plus(fx(1)), UNDEFINED);
    assert_eq!(fx(1).times(UNDEFINED), UNDEFINED);
    assert_eq!(UNDEFINED.negated(), UNDEFINED);
    assert_eq!(fx(4_000_000).negated(), fx(-4_000_000));
}

#[test]
fn fixed_casts_keep_the_number_or_fail() {
    assert_eq!(Fixed::from_index(0), fx(0));
    assert_eq!(Fixed::from_index(3), fx(3_000_000));
    assert_eq!(Fixed::from_index(9_223_372_036_854), fx(9_223_372_036_854_000_000));
    assert_eq!(Fixed::from_index(9_223_372_036_855), UNDEFINED);
    assert_eq!(Fixed::from_index(usize::MAX), UNDEFINED);
    assert_eq!(fx(0).floor_count(), Some(0));
    assert_eq!(fx(2_999_999).floor_count(), Some(2));
    assert_eq!(fx(3_000_000).floor_count(), Some(3));
    assert_eq!(fx(-1).floor_count(), None);
    assert_eq!(fx(-3_000_000).floor_count(), None);
    assert_eq!(UNDEFINED.floor_count(), None);
    assert_eq!(fx(i64::MAX).floor_count(), Some(9_223_372_036_854));
}

#[test]
fn fixed_fills() {
    let z: Vec<Fixed> = zeros(4);
    assert_eq!(z, fxs(&[0, 0, 0, 0]));
    let o: Vec<Fixed> = ones(3);
    assert_eq!(o, fxs(&[UNIT, UNIT, UNIT]));
    assert_eq!(zeros::<Fixed>(0), Vec::<Fixed>::new());
    assert_eq!(ones::<Fixed>(0), Vec::<Fixed>::new());
    assert_eq!(zeros_like(&o), fxs(&[0, 0, 0]));
    assert_eq!(ones_like(&z), fxs(&[UNIT, UNIT, UNIT, UNIT]));
    assert_eq!(filled(7u32, 3), vec![7, 7, 7]);
}

#[test]
fn fixed_xrange_leaves_the_end_out() {
    let r = xrange(fx(-2_000_000), fx(2_000_000), 4);
    assert_eq!(r, fxs(&[-2_000_000, -1_000_000, 0, 1_000_000]));
    assert_eq!(xrange(fx(0), fx(1_000_000), 3), fxs(&[0, 333_333, 666_666]));
    assert_eq!(xrange(fx(0), fx(1_000_000), 0), Vec::<Fixed>::new());
    assert_eq!(stepped(fx(1_000_000), fx(-250_000), 3), fxs(&[1_000_000, 750_000, 500_000]));
}

#[test]
fn fixed_linspace_reaches_the_end() {
    let r = linspace(fx(0), fx(1_000_000), 5);
    assert_eq!(r, fxs(&[0, 250_000, 500_000, 750_000, 1_000_000]));
    assert_eq!(linspace(fx(3_000_000), fx(-3_000_000), 2), fxs(&[3_000_000, -3_000_000]));
    assert_eq!(linspace(fx(0), fx(1_000_000), 4), fxs(&[0, 333_333, 666_666, 999_999]));
}

#[test]
fn fixed_arange_counts_by_the_floor() {
    assert_eq!(arange_count(fx(0), fx(1_000_000), fx(100_000)), Some(10));
    assert_eq!(arange_count(fx(0), fx(999_999), fx(100_000)), Some(9));
    assert_eq!(arange_count(fx(0), fx(1_000_000), fx(300_000)), Some(3));
    assert_eq!(arange_count(fx(0), fx(1_000_000), fx(0)), None);
    assert_eq!(arange_count(fx(0), fx(1_000_000), fx(-100_000)), None);
    assert_eq!(arange_count(fx(0), fx(0), fx(100_000)), Some(0));
    let r = arange(fx(0), fx(1_000_000), fx(300_000));
    assert_eq!(r, fxs(&[0, 300_000, 600_000]));
    assert_eq!(
        checked_arange(fx(-500_000), fx(500_000), fx(250_000)),
        Some(fxs(&[-500_000, -250_000, 0, 250_000]))
    );
    assert_eq!(checked_arange(fx(0), fx(1_000_000), fx(0)), None);
    assert_eq!(checked_arange(fx(1_000_000), fx(0), fx(100_000)), None);
}

#[test]
fn fixed_frequency_scale() {
    let f = calc_freq(&fxs(&[0, 1_000_000, 2_000_000, 4_000_000]));
    assert_eq!(f, fxs(&[0, 250_000, 500_000, 750_000]));
    let h = calc_freq(&fxs(&[-1_000_000, 0, 2_000_000]));
    assert_eq!(h, fxs(&[0, 333_333, 666_666]));
    let g = calc_freq(&fxs(&[5_000_000]));
    assert_eq!(g, vec![Fixed { micro: None }]);
}

#[test]
fn fixed_space_end_to_end() {
    let n: [usize; 3] = [500, 500, 500];
    let l = fxs(&[100_000_000, 100_000_000, 100_000_000]);
    let space = Space::new(&n, &l);
    assert_eq!(space.spatial_resolution(), fxs(&[400_000, 400_000, 400_000]));
    let x = space.spatial_range_x();
    assert_eq!(x.len(), 500);
    assert_eq!(x[0], fx(-100_000_000));
    assert_eq!(x[499], fx(99_600_000));
    assert_eq!(space.frequency_resolution(), fxs(&[5_000, 5_000, 5_000]));
    assert_eq!(space.momentum_resolution(), fxs(&[31_415, 31_415, 31_415]));
    let f = space.frequency_range_x();
    assert_eq!(f.len(), 500);
    assert_eq!(f[0], fx(-1_250_000));
    assert_eq!(f[250], fx(0));
    assert_eq!(f[499], fx(1_245_000));
    let q = space.momentum_range_x();
    assert_eq!(q.len(), 500);
    assert_eq!(q[0], fx(-7_853_750));
    assert_eq!(q[499], fx(7_822_335));
}

#[test]
fn fixed_space_axes_are_independent() {
    let n: [usize; 3] = [2, 4, 8];
    let l = fxs(&[1_000_000, 2_000_000, 4_000_000]);
    let space = Space::new(&n, &l);
    assert_eq!(space.spatial_resolution(), fxs(&[1_000_000, 1_000_000, 1_000_000]));
    assert_eq!(space.spatial_range_x(), fxs(&[-1_000_000, 0]));
    assert_eq!(space.spatial_range_y(), fxs(&[-2_000_000, -1_000_000, 0, 1_000_000]));
    assert_eq!(space.spatial_range_z().len(), 8);
    assert_eq!(space.frequency_resolution(), fxs(&[500_000, 250_000, 125_000]));
    assert_eq!(space.frequency_range_x(), fxs(&[-500_000, 0]));
    assert_eq!(space.frequency_range_y(), fxs(&[-500_000, -250_000, 0, 250_000]));
    assert_eq!(space.frequency_range_z().len(), 8);
    assert_eq!(space.momentum_resolution(), fxs(&[3_141_593, 1_570_796, 785_398]));
    assert_eq!(space.momentum_range_x(), fxs(&[-3_141_593, 0]));
    assert_eq!(space.momentum_range_y().len(), 4);
    assert_eq!(space.momentum_range_z().len(), 8);
    assert_eq!(space.frequency_range(1), Some(space.frequency_range_y()));
    assert_eq!(space.momentum_range(2), Some(space.momentum_range_z()));
}

#[test]
fn fixed_space_without_extent_has_no_reciprocal_range() {
    let n: [usize; 3] = [4, 4, 4];
    let l = fxs(&[0, 1_000_000, 1_000_000]);
    let space = Space::new(&n, &l);
    assert_eq!(space.frequency_resolution()[0], UNDEFINED);
    assert_eq!(space.frequency_range(0), None);
    assert_eq!(space.momentum_range(0), None);
    assert_eq!(space.frequency_range(1).map(|v| v.len()), Some(4));
}

#[test]
fn fixed_grids_broadcast_the_axes() {
    let n: [usize; 3] = [4, 2, 1];
    let l = fxs(&[2_000_000, 1_000_000, 1_000_000]);
    let space = Space::new(&n, &l);
    let (xx, yy) = space.spatial_grid_2d();
    let row = fxs(&[-2_000_000, -1_000_000, 0, 1_000_000]);
    assert_eq!(xx, vec![row.clone(), row.clone()]);
    assert_eq!(yy, vec![fxs(&[-1_000_000; 4]), fxs(&[0; 4])]);
    let (fxx, fyy) = space.frequency_grid_2d();
    assert_eq!(fxx, vec![space.frequency_range_x(), space.frequency_range_x()]);
    assert_eq!(fyy, vec![fxs(&[-500_000; 4]), fxs(&[0; 4])]);
    let (qxx, qyy) = space.momentum_grid_2d();
    assert_eq!(qxx, vec![space.momentum_range_x(), space.momentum_range_x()]);
    assert_eq!(qyy.len(), 2);
    assert_eq!(qyy[0], vec![space.momentum_range_y()[0]; 4]);
    let (a, b) = meshgrid(&Vec::<u8>::new(), &vec![1u8, 2]);
    assert_eq!(a, vec![Vec::<u8>::new(), Vec::new()]);
    assert_eq!(b, vec![Vec::<u8>::new(), Vec::new()]);
}
