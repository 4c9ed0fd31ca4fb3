//! A dense two-dimensional array: a width and a flat row-major buffer
//! whose length is a whole number of rows.

use vstd::prelude::*;

verus! {

/// A position: column, then row.
pub type GridPos = (usize, usize);

/// A dense grid of `width` columns.
#[derive(Debug)]
pub struct Array2D<T> {
    pub width: usize,
    pub data: Vec<T>,
}

impl<T> Array2D<T> {
    /// The buffer holds whole rows.
    pub open spec fn wf(&self) -> bool {
        self.width >= 1 && (self.data@.len() as int) % (self.width as int) == 0
    }

    pub open spec fn height_spec(&self) -> int {
        (self.data@.len() as int) / (self.width as int)
    }

    /// Wraps an existing row-major buffer.
    pub fn from_array(width: usize, data: Vec<T>) -> (r: Array2D<T>)
        requires
            width >= 1,
            (data@.len() as int) % (width as int) == 0,
        ensures
            r.width == width,
            r.data@ == data@,
            r.wf(),
    {
        Array2D { width, data }
    }

    /// A grid of default values.
    pub fn new(width: usize, height: usize) -> (r: Array2D<T>) where T: Default + Copy
        requires
            width >= 1,
            width * height <= usize::MAX,
        ensures
            r.width == width,
            r.data@.len() == width * height,
            r.wf(),
    {
        let n = width * height;
        let mut data: Vec<T> = Vec::new();
        let mut j: usize = 0;
        while j < n
            invariant
                j <= n,
                data@.len() == j,
            decreases n - j,
        {
            data.push(T::default());
            j += 1;
        }
        proof {
            assert(width * height == height * width) by (nonlinear_arith);
            vstd::arithmetic::div_mod::lemma_mod_multiples_basic(height as int, width as int);
        }
        Array2D { width, data }
    }

    /// The elements, flat and row-major.
    pub fn data(&self) -> (r: &[T])
        ensures
            r@ == self.data@,
    {
        self.data.as_slice()
    }

    /// The elements, flat and row-major, for writing.
    pub fn data_mut(&mut self) -> (r: &mut Vec<T>)
        ensures
            r@ == old(self).data@,
            final(self).data@ == final(r)@,
            final(self).width == old(self).width,
    {
        &mut self.data
    }

    pub fn width(&self) -> (r: usize)
        ensures
            r == self.width,
    {
        self.width
    }

    pub fn height(&self) -> (r: usize)
        requires
            self.width >= 1,
        ensures
            r == self.height_spec(),
    {
        self.data.len() / self.width
    }

    /// The flat offset of a position.
    fn calc_index(&self, pos: GridPos) -> (r: usize)
        requires
            self.wf(),
            pos.0 < self.width,
            (pos.1 as int) < self.height_spec(),
        ensures
            r == pos.0 + pos.1 * self.width,
            (r as int) < self.data@.len(),
    {
        let len = self.data.len();
        proof {
            lemma_row_col_in_bounds(
                self.width as int,
                self.data@.len() as int,
                pos.0 as int,
                pos.1 as int,
            );
        }
        pos.0 + pos.1 * self.width
    }

    /// The element at a position.
    pub fn get(&self, pos: GridPos) -> (r: &T)
        requires
            self.wf(),
            pos.0 < self.width,
            (pos.1 as int) < self.height_spec(),
        ensures
            *r == self.data@[pos.0 + pos.1 * self.width],
    {
        let idx = self.calc_index(pos);
        &self.data[idx]
    }

    /// Replaces the element at a position.
    pub fn set(&mut self, pos: GridPos, value: T)
        requires
            old(self).wf(),
            pos.0 < old(self).width,
            (pos.1 as int) < old(self).height_spec(),
        ensures
            final(self).width == old(self).width,
            final(self).data@ == old(self).data@.update(
                pos.0 + pos.1 * old(self).width,
                value,
            ),
    {
        let idx = self.calc_index(pos);
        self.data.set(idx, value);
    }
}

/// A position inside the grid maps to an offset inside the buffer.
proof fn lemma_row_col_in_bounds(w: int, len: int, x: int, y: int)
    requires
        w >= 1,
        len % w == 0,
        0 <= x < w,
        0 <= y < len / w,
    ensures
        x + y * w < len,
        x + y * w <= len,
{
    assert((y + 1) * w == y * w + w) by (nonlinear_arith);
    assert(x + y * w < (y + 1) * w);
    assert((y + 1) * w <= (len / w) * w) by (nonlinear_arith)
        requires
            y + 1 <= len / w,
            w >= 1,
    ;
    assert(len / w * w == len) by {
        vstd::arithmetic::div_mod::lemma_fundamental_div_mod(len, w);
    }
}

} // verus!
