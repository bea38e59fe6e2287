use vstd::prelude::*;

verus! {

/// A dense, fixed-size, row-major 2D container: `width * height` elements
/// in one linear buffer, with slot `(x, y)` stored at linear index
/// `x + y * width`. It backs both the simulation's spatial bucket grid and
/// the output pixel buffer.
///
/// Bounds are the caller's responsibility: every access requires in-range
/// coordinates. The simulation guarantees them by clamping positions
/// strictly inside the world before any grid access.
pub struct Array2D<T> {
    w: usize,
    h: usize,
    data: Vec<T>,
}

/// A row-major index computed from in-range coordinates lands inside the
/// linear buffer.
pub proof fn lemma_row_major_in_range(x: int, y: int, w: int, h: int)
    requires
        0 <= x < w,
        0 <= y < h,
    ensures
        0 <= x + y * w < w * h,
{
    assert(x + y * w < w * h) by (nonlinear_arith)
        requires
            0 <= x < w,
            0 <= y < h,
    ;
    assert(0 <= y * w) by (nonlinear_arith)
        requires
            0 <= y,
            0 <= w,
    ;
}

impl<T: Copy> Array2D<T> {
    /// The linear cell buffer, in row-major order.
    pub closed spec fn cells(self) -> Seq<T> {
        self.data@
    }

    pub closed spec fn spec_width(self) -> int {
        self.w as int
    }

    pub closed spec fn spec_height(self) -> int {
        self.h as int
    }

    /// The buffer holds exactly one slot per coordinate pair.
    pub open spec fn wf(self) -> bool {
        self.cells().len() == self.spec_width() * self.spec_height()
    }

    /// The element stored at `(x, y)`.
    pub open spec fn at(self, x: int, y: int) -> T
        recommends
            self.wf(),
            0 <= x < self.spec_width(),
            0 <= y < self.spec_height(),
    {
        self.cells()[x + y * self.spec_width()]
    }

    /// A grid with every slot equal to `fill`. There is no resizing: a new
    /// grid must be constructed to change dimensions.
    pub fn new(w: usize, h: usize, fill: T) -> (r: Self)
        requires
            (w as int) * (h as int) <= usize::MAX as int,
        ensures
            r.wf(),
            r.spec_width() == w as int,
            r.spec_height() == h as int,
            forall|i: int| 0 <= i < r.cells().len() ==> r.cells()[i] == fill,
    {
        proof {
            assert((w as int) * (h as int) >= 0) by (nonlinear_arith)
                requires
                    w as int >= 0,
                    h as int >= 0,
            ;
        }
        let n: usize = w * h;
        let mut data: Vec<T> = Vec::with_capacity(n);
        let mut i: usize = 0;
        while i < n
            invariant
                i <= n,
                data@.len() == i as int,
                forall|j: int| 0 <= j < i as int ==> data@[j] == fill,
            decreases n - i,
        {
            data.push(fill);
            i += 1;
        }
        Array2D { w, h, data }
    }

    pub fn width(&self) -> (r: usize)
        ensures
            r as int == self.spec_width(),
    {
        self.w
    }

    pub fn height(&self) -> (r: usize)
        ensures
            r as int == self.spec_height(),
    {
        self.h
    }

    /// Read the slot at `(x, y)`.
    pub fn get(&self, x: usize, y: usize) -> (r: T)
        requires
            self.wf(),
            (x as int) < self.spec_width(),
            (y as int) < self.spec_height(),
        ensures
            r == self.at(x as int, y as int),
    {
        // reading the length brings `cells().len() <= usize::MAX` into
        // scope, so the row-major index below cannot overflow
        let n: usize = self.data.len();
        proof {
            lemma_row_major_in_range(x as int, y as int, self.spec_width(), self.spec_height());
        }
        self.data[x + y * self.w]
    }

    /// Overwrite the slot at `(x, y)`.
    pub fn set(&mut self, x: usize, y: usize, val: T)
        requires
            old(self).wf(),
            (x as int) < old(self).spec_width(),
            (y as int) < old(self).spec_height(),
        ensures
            final(self).wf(),
            final(self).spec_width() == old(self).spec_width(),
            final(self).spec_height() == old(self).spec_height(),
            final(self).cells() == old(self).cells().update(
                x as int + y as int * old(self).spec_width(),
                val,
            ),
    {
        // reading the length brings `cells().len() <= usize::MAX` into
        // scope, so the row-major index below cannot overflow
        let n: usize = self.data.len();
        proof {
            lemma_row_major_in_range(x as int, y as int, self.spec_width(), self.spec_height());
        }
        let i: usize = x + y * self.w;
        self.data[i] = val;
    }

    /// A view of the linear buffer, for bulk read-out.
    pub fn as_vec(&self) -> (r: &Vec<T>)
        ensures
            r@ == self.cells(),
    {
        &self.data
    }

    /// Mutable access to the linear buffer, for bulk rewrites such as
    /// clearing the pixel buffer between frames. A caller that changes the
    /// buffer's length forfeits the grid's well-formedness.
    pub fn as_mut_vec(&mut self) -> (r: &mut Vec<T>)
        ensures
            r@ == old(self).cells(),
            final(self).cells() == final(r)@,
            final(self).spec_width() == old(self).spec_width(),
            final(self).spec_height() == old(self).spec_height(),
    {
        &mut self.data
    }
}

} // verus!
