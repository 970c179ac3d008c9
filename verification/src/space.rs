//! A three-dimensional domain in Cartesian coordinates, and its coordinate
//! axes and two-dimensional grids in real, frequency and momentum space.

use crate::utils::{
    arange_count_spec, checked_arange, constant_seq, even_step, filled, progression, xrange, Scalar,
};
use vstd::prelude::*;

verus! {

/// A [`Scalar`] with a sign and the two constants that the reciprocal
/// domains are scaled by.
pub trait Real: Scalar {
    /// `-self`.
    spec fn negated_spec(self) -> Self;

    /// One half.
    spec fn half_spec() -> Self;

    /// The circle constant, as near as the representation comes to it.
    spec fn pi_spec() -> Self;

    fn negated(self) -> (r: Self)
        ensures
            r == self.negated_spec(),
    ;

    fn half() -> (r: Self)
        ensures
            r == Self::half_spec(),
    ;

    fn pi() -> (r: Self)
        ensures
            r == Self::pi_spec(),
    ;
}

/// The start, the end and the step of the range that a reciprocal domain
/// has along an axis of `n` samples and resolution `step`: from
/// `-step * (n / 2)` to `step * (n / 2)`.
pub open spec fn reciprocal_bounds<T: Real>(step: T, n: usize) -> (T, T) {
    let imax = T::half_spec().times_spec(T::from_index_spec(n));
    (step.negated_spec().times_spec(imax), step.times_spec(imax))
}

/// How many samples that range has, where that is a count.
pub open spec fn reciprocal_len<T: Real>(step: T, n: usize) -> Option<usize> {
    let (a, b) = reciprocal_bounds(step, n);
    arange_count_spec(a, b, step)
}

/// The samples of that range; meaningful where `reciprocal_len` is a count.
pub open spec fn reciprocal_axis<T: Real>(step: T, n: usize) -> Seq<T> {
    let (a, b) = reciprocal_bounds(step, n);
    progression(a, step, reciprocal_len(step, n).unwrap() as nat)
}

/// Whether `xx` and `yy` are the two grids that broadcast the axes `rx` and
/// `ry`: both have one row for each element of `ry`; every row of `xx` is
/// `rx`, and row `j` of `yy` holds `ry[j]` as often as `rx` has elements.
pub open spec fn is_meshgrid<T>(xx: Seq<Vec<T>>, yy: Seq<Vec<T>>, rx: Seq<T>, ry: Seq<T>) -> bool {
    &&& xx.len() == ry.len()
    &&& yy.len() == ry.len()
    &&& forall|j: int| 0 <= j < ry.len() ==> (#[trigger] xx[j])@ == rx
    &&& forall|j: int| 0 <= j < ry.len() ==> (#[trigger] yy[j])@ == constant_seq(ry[j], rx.len())
}

/// Returns a copy of `v`.
fn copied<T: Copy>(v: &Vec<T>) -> (r: Vec<T>)
    ensures
        r@ == v@,
{
    let mut out: Vec<T> = Vec::new();
    let mut i: usize = 0;
    while i < v.len()
        invariant
            i <= v@.len(),
            out@ == v@.take(i as int),
        decreases v@.len() - i,
    {
        out.push(v[i]);
        i = i + 1;
        assert(out@ =~= v@.take(i as int));
    }
    assert(v@.take(v@.len() as int) =~= v@);
    out
}

/// Returns the two grids that broadcast `range_x` along the rows and
/// `range_y` along the columns.
pub fn meshgrid<T: Copy>(range_x: &Vec<T>, range_y: &Vec<T>) -> (g: (Vec<Vec<T>>, Vec<Vec<T>>))
    ensures
        is_meshgrid(g.0@, g.1@, range_x@, range_y@),
{
    let mut xx: Vec<Vec<T>> = Vec::new();
    let mut yy: Vec<Vec<T>> = Vec::new();
    let mut j: usize = 0;
    while j < range_y.len()
        invariant
            j <= range_y@.len(),
            xx@.len() == j,
            yy@.len() == j,
            forall|k: int| 0 <= k < j ==> (#[trigger] xx@[k])@ == range_x@,
            forall|k: int|
                0 <= k < j ==> (#[trigger] yy@[k])@ == constant_seq(range_y@[k], range_x@.len()),
        decreases range_y@.len() - j,
    {
        xx.push(copied(range_x));
        yy.push(filled(range_y[j], range_x.len()));
        j = j + 1;
    }
    (xx, yy)
}

/// A three-dimensional domain: along each axis a number of samples and a
/// half-extent.
pub struct Space<T: Real> {
    grid_length: Vec<usize>,
    space_size: Vec<T>,
}

impl<T: Real> Space<T> {
    #[verifier::type_invariant]
    spec fn three_axes(&self) -> bool {
        self.grid_length@.len() == 3 && self.space_size@.len() == 3
    }

    /// The number of samples along the axes x, y, z.
    pub closed spec fn grid(&self) -> Seq<usize> {
        self.grid_length@
    }

    /// The half-extent of the domain along the axes x, y, z.
    pub closed spec fn extent(&self) -> Seq<T> {
        self.space_size@
    }

    /// Whether the domain has its three axes. Every domain that `new` made
    /// has.
    pub open spec fn wf(&self) -> bool {
        self.grid().len() == 3 && self.extent().len() == 3
    }

    /// The distance of two samples in real space along axis `i`: `2 L / N`.
    pub open spec fn spatial_step(&self, i: int) -> T {
        T::from_index_spec(2).times_spec(self.extent()[i]).over_spec(
            T::from_index_spec(self.grid()[i]),
        )
    }

    /// The samples in real space along axis `i`: `N` of them, from `-L`
    /// towards `L`.
    pub open spec fn spatial_axis(&self, i: int) -> Seq<T> {
        let l = self.extent()[i];
        let n = self.grid()[i];
        progression(l.negated_spec(), even_step(l.negated_spec(), l, n), n as nat)
    }

    /// The distance of two samples in frequency space along axis `i`:
    /// `0.5 / L`.
    pub open spec fn frequency_step(&self, i: int) -> T {
        T::half_spec().over_spec(self.extent()[i])
    }

    /// How many samples frequency space has along axis `i`, where that is a
    /// count.
    pub open spec fn frequency_len(&self, i: int) -> Option<usize> {
        reciprocal_len(self.frequency_step(i), self.grid()[i])
    }

    /// The samples in frequency space along axis `i`.
    pub open spec fn frequency_axis(&self, i: int) -> Seq<T> {
        reciprocal_axis(self.frequency_step(i), self.grid()[i])
    }

    /// The distance of two samples in momentum space along axis `i`:
    /// `pi / L`.
    pub open spec fn momentum_step(&self, i: int) -> T {
        T::pi_spec().over_spec(self.extent()[i])
    }

    /// How many samples momentum space has along axis `i`, where that is a
    /// count.
    pub open spec fn momentum_len(&self, i: int) -> Option<usize> {
        reciprocal_len(self.momentum_step(i), self.grid()[i])
    }

    /// The samples in momentum space along axis `i`.
    pub open spec fn momentum_axis(&self, i: int) -> Seq<T> {
        reciprocal_axis(self.momentum_step(i), self.grid()[i])
    }

    /// Makes the domain with `n[i]` samples and half-extent `l[i]` along
    /// axis `i`.
    pub fn new(n: &[usize], l: &[T]) -> (s: Self)
        requires
            n@.len() == 3,
            l@.len() == 3,
        ensures
            s.wf(),
            s.grid() == n@,
            s.extent() == l@,
    {
        let mut grid_length: Vec<usize> = Vec::new();
        let mut space_size: Vec<T> = Vec::new();
        let mut i: usize = 0;
        while i < 3
            invariant
                i <= 3,
                n@.len() == 3,
                l@.len() == 3,
                grid_length@ == n@.take(i as int),
                space_size@ == l@.take(i as int),
            decreases 3 - i,
        {
            grid_length.push(n[i]);
            space_size.push(l[i]);
            i = i + 1;
            assert(grid_length@ =~= n@.take(i as int));
            assert(space_size@ =~= l@.take(i as int));
        }
        assert(n@.take(3) =~= n@);
        assert(l@.take(3) =~= l@);
        Self { grid_length, space_size }
    }

    /// Returns the spatial resolution along each axis.
    pub fn spatial_resolution(&self) -> (r: Vec<T>)
        ensures
            self.wf(),
            r@.len() == 3,
            forall|i: int| 0 <= i < 3 ==> r@[i] == self.spatial_step(i),
    {
        proof {
            use_type_invariant(self);
        }
        let mut out: Vec<T> = Vec::new();
        let mut ii: usize = 0;
        while ii < 3
            invariant
                ii <= 3,
                self.grid_length@.len() == 3,
                self.space_size@.len() == 3,
                out@.len() == ii,
                forall|i: int| 0 <= i < ii ==> out@[i] == self.spatial_step(i),
            decreases 3 - ii,
        {
            out.push(
                T::from_index(2).times(self.space_size[ii]).over(
                    T::from_index(self.grid_length[ii]),
                ),
            );
            ii = ii + 1;
        }
        out
    }

    /// Returns the samples in real space along the x axis.
    pub fn spatial_range_x(&self) -> (r: Vec<T>)
        ensures
            r@ == self.spatial_axis(0),
            r@.len() == self.grid()[0],
    {
        self.spatial_range(0)
    }

    /// Returns the samples in real space along the y axis.
    pub fn spatial_range_y(&self) -> (r: Vec<T>)
        ensures
            r@ == self.spatial_axis(1),
            r@.len() == self.grid()[1],
    {
        self.spatial_range(1)
    }

    /// Returns the samples in real space along the z axis.
    pub fn spatial_range_z(&self) -> (r: Vec<T>)
        ensures
            r@ == self.spatial_axis(2),
            r@.len() == self.grid()[2],
    {
        self.spatial_range(2)
    }

    /// Returns the samples in real space along axis `ii`.
    fn spatial_range(&self, ii: usize) -> (r: Vec<T>)
        requires
            ii < 3,
        ensures
            r@ == self.spatial_axis(ii as int),
            r@.len() == self.grid()[ii as int],
    {
        proof {
            use_type_invariant(self);
        }
        xrange(self.space_size[ii].negated(), self.space_size[ii], self.grid_length[ii])
    }

    /// Returns the two grids in real space over the x and y axes.
    pub fn spatial_grid_2d(&self) -> (g: (Vec<Vec<T>>, Vec<Vec<T>>))
        ensures
            is_meshgrid(g.0@, g.1@, self.spatial_axis(0), self.spatial_axis(1)),
    {
        let range_x = self.spatial_range_x();
        let range_y = self.spatial_range_y();
        meshgrid(&range_x, &range_y)
    }

    /// Returns the frequency resolution along each axis.
    pub fn frequency_resolution(&self) -> (r: Vec<T>)
        ensures
            self.wf(),
            r@.len() == 3,
            forall|i: int| 0 <= i < 3 ==> r@[i] == self.frequency_step(i),
    {
        proof {
            use_type_invariant(self);
        }
        let mut out: Vec<T> = Vec::new();
        let mut ii: usize = 0;
        while ii < 3
            invariant
                ii <= 3,
                self.space_size@.len() == 3,
                out@.len() == ii,
                forall|i: int| 0 <= i < ii ==> out@[i] == self.frequency_step(i),
            decreases 3 - ii,
        {
            out.push(T::half().over(self.space_size[ii]));
            ii = ii + 1;
        }
        out
    }

    /// Returns the samples in frequency space along the x axis.
    pub fn frequency_range_x(&self) -> (r: Vec<T>)
        requires
            self.frequency_len(0).is_some(),
        ensures
            r@ == self.frequency_axis(0),
            r@.len() == self.frequency_len(0).unwrap(),
    {
        self.frequency_range(0).unwrap()
    }

    /// Returns the samples in frequency space along the y axis.
    pub fn frequency_range_y(&self) -> (r: Vec<T>)
        requires
            self.frequency_len(1).is_some(),
        ensures
            r@ == self.frequency_axis(1),
            r@.len() == self.frequency_len(1).unwrap(),
    {
        self.frequency_range(1).unwrap()
    }

    /// Returns the samples in frequency space along the z axis.
    pub fn frequency_range_z(&self) -> (r: Vec<T>)
        requires
            self.frequency_len(2).is_some(),
        ensures
            r@ == self.frequency_axis(2),
            r@.len() == self.frequency_len(2).unwrap(),
    {
        self.frequency_range(2).unwrap()
    }

    /// Returns the samples in frequency space along axis `ii`, or `None`
    /// where their number is no count.
    pub fn frequency_range(&self, ii: usize) -> (r: Option<Vec<T>>)
        requires
            ii < 3,
        ensures
            r.is_some() == self.frequency_len(ii as int).is_some(),
            r.is_some() ==> r.unwrap()@ == self.frequency_axis(ii as int),
    {
        proof {
            use_type_invariant(self);
        }
        let df = T::half().over(self.space_size[ii]);
        reciprocal_range(df, self.grid_length[ii])
    }

    /// Returns the two grids in frequency space over the x and y axes.
    pub fn frequency_grid_2d(&self) -> (g: (Vec<Vec<T>>, Vec<Vec<T>>))
        requires
            self.frequency_len(0).is_some(),
            self.frequency_len(1).is_some(),
        ensures
            is_meshgrid(g.0@, g.1@, self.frequency_axis(0), self.frequency_axis(1)),
    {
        let range_x = self.frequency_range_x();
        let range_y = self.frequency_range_y();
        meshgrid(&range_x, &range_y)
    }

    /// Returns the momentum resolution along each axis.
    pub fn momentum_resolution(&self) -> (r: Vec<T>)
        ensures
            self.wf(),
            r@.len() == 3,
            forall|i: int| 0 <= i < 3 ==> r@[i] == self.momentum_step(i),
    {
        proof {
            use_type_invariant(self);
        }
        let mut out: Vec<T> = Vec::new();
        let mut ii: usize = 0;
        while ii < 3
            invariant
                ii <= 3,
                self.space_size@.len() == 3,
                out@.len() == ii,
                forall|i: int| 0 <= i < ii ==> out@[i] == self.momentum_step(i),
            decreases 3 - ii,
        {
            out.push(T::pi().over(self.space_size[ii]));
            ii = ii + 1;
        }
        out
    }

    /// Returns the samples in momentum space along the x axis.
    pub fn momentum_range_x(&self) -> (r: Vec<T>)
        requires
            self.momentum_len(0).is_some(),
        ensures
            r@ == self.momentum_axis(0),
            r@.len() == self.momentum_len(0).unwrap(),
    {
        self.momentum_range(0).unwrap()
    }

    /// Returns the samples in momentum space along the y axis.
    pub fn momentum_range_y(&self) -> (r: Vec<T>)
        requires
            self.momentum_len(1).is_some(),
        ensures
            r@ == self.momentum_axis(1),
            r@.len() == self.momentum_len(1).unwrap(),
    {
        self.momentum_range(1).unwrap()
    }

    /// Returns the samples in momentum space along the z axis.
    pub fn momentum_range_z(&self) -> (r: Vec<T>)
        requires
            self.momentum_len(2).is_some(),
        ensures
            r@ == self.momentum_axis(2),
            r@.len() == self.momentum_len(2).unwrap(),
    {
        self.momentum_range(2).unwrap()
    }

    /// Returns the samples in momentum space along axis `ii`, or `None`
    /// where their number is no count.
    pub fn momentum_range(&self, ii: usize) -> (r: Option<Vec<T>>)
        requires
            ii < 3,
        ensures
            r.is_some() == self.momentum_len(ii as int).is_some(),
            r.is_some() ==> r.unwrap()@ == self.momentum_axis(ii as int),
    {
        proof {
            use_type_invariant(self);
        }
        let dq = T::pi().over(self.space_size[ii]);
        reciprocal_range(dq, self.grid_length[ii])
    }

    /// Returns the two grids in momentum space over the x and y axes.
    pub fn momentum_grid_2d(&self) -> (g: (Vec<Vec<T>>, Vec<Vec<T>>))
        requires
            self.momentum_len(0).is_some(),
            self.momentum_len(1).is_some(),
        ensures
            is_meshgrid(g.0@, g.1@, self.momentum_axis(0), self.momentum_axis(1)),
    {
        let range_x = self.momentum_range_x();
        let range_y = self.momentum_range_y();
        meshgrid(&range_x, &range_y)
    }
}

/// Returns the range of a reciprocal domain along an axis of `n` samples
/// and resolution `step`, or `None` where its length is no count.
pub fn reciprocal_range<T: Real>(step: T, n: usize) -> (r: Option<Vec<T>>)
    ensures
        r.is_some() == reciprocal_len(step, n).is_some(),
        r.is_some() ==> r.unwrap()@ == reciprocal_axis(step, n),
{
    let imax = T::half().times(T::from_index(n));
    let a = step.negated().times(imax);
    let b = step.times(imax);
    checked_arange(a, b, step)
}

} // verus!
