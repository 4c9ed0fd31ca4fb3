//! A dense array of arbitrary rank: a shape vector and a flat data buffer
//! in row-major order, where adding one to the last coordinate moves one
//! step in the buffer.

use vstd::prelude::*;

verus! {

/// The product of the first `k` extents.
pub open spec fn dims_prefix_product(dims: Seq<usize>, k: int) -> int
    decreases k,
{
    if k <= 0 {
        1
    } else {
        dims_prefix_product(dims, k - 1) * dims[k - 1]
    }
}

/// The stride of the coordinate `k` places from the end: the product of
/// the last `k` extents.
pub open spec fn nd_stride(dims: Seq<usize>, k: int) -> int
    decreases k,
{
    if k <= 0 {
        1
    } else {
        nd_stride(dims, k - 1) * dims[dims.len() - k]
    }
}

/// Whether the last `k` coordinates pass the bounds test the lookup
/// applies: each may be at most its extent.
pub open spec fn nd_valid(idx: Seq<usize>, dims: Seq<usize>, k: int) -> bool
    decreases k,
{
    if k <= 0 {
        true
    } else {
        idx[idx.len() - k] <= dims[dims.len() - k] && nd_valid(idx, dims, k - 1)
    }
}

/// The flat offset contributed by the last `k` coordinates.
pub open spec fn nd_flat(idx: Seq<usize>, dims: Seq<usize>, k: int) -> int
    decreases k,
{
    if k <= 0 {
        0
    } else {
        nd_flat(idx, dims, k - 1) + idx[idx.len() - k] * nd_stride(dims, k - 1)
    }
}

/// The machine limit under which the lookup's arithmetic stays in bounds:
/// every stride it forms, and every partial sum it forms while the
/// coordinates it has seen pass the bounds test, fits a `usize`.
pub open spec fn nd_fits(idx: Seq<usize>, dims: Seq<usize>) -> bool {
    forall|k: int|
        1 <= k <= dims.len() && nd_valid(idx, dims, k - 1) ==> nd_stride(dims, k) <= usize::MAX
            && (nd_valid(idx, dims, k) ==> #[trigger] nd_flat(idx, dims, k) <= usize::MAX)
}

/// A dense array of rank `dims.len()`.
#[derive(Debug)]
pub struct NdArray<T> {
    pub dims: Vec<usize>,
    pub data: Vec<T>,
}

impl<T> NdArray<T> {
    /// The flat length agrees with the shape.
    pub open spec fn wf(&self) -> bool {
        dims_prefix_product(self.dims@, self.dims@.len() as int) == self.data@.len()
    }

    /// An array of the given shape, every element the type's default.
    pub fn zeros(dims: Vec<usize>) -> (r: NdArray<T>) where T: Default + Clone
        requires
            forall|k: int|
                0 <= k <= dims@.len() ==> #[trigger] dims_prefix_product(dims@, k) <= usize::MAX,
        ensures
            r.dims@ == dims@,
            r.wf(),
    {
        let nd = dims.len();
        let mut n: usize = 1;
        let mut k: usize = 0;
        while k < nd
            invariant
                k <= nd,
                nd == dims@.len(),
                n == dims_prefix_product(dims@, k as int),
                forall|q: int|
                    0 <= q <= dims@.len() ==> #[trigger] dims_prefix_product(dims@, q)
                        <= usize::MAX,
            decreases nd - k,
        {
            proof {
                assert(dims_prefix_product(dims@, k + 1) == dims_prefix_product(dims@, k as int)
                    * dims@[k as int]);
                assert(dims_prefix_product(dims@, k + 1) <= usize::MAX);
            }
            n = n * dims[k];
            k += 1;
        }
        let mut data: Vec<T> = Vec::new();
        let mut j: usize = 0;
        while j < n
            invariant
                j <= n,
                data@.len() == j,
            decreases n - j,
        {
            data.push(T::default());
            j += 1;
        }
        NdArray { dims, data }
    }

    /// How many elements the array holds.
    pub fn len(&self) -> (n: usize)
        ensures
            n == self.data@.len(),
    {
        self.data.len()
    }

    /// The shape.
    pub fn shape(&self) -> (r: &[usize])
        ensures
            r@ == self.dims@,
    {
        self.dims.as_slice()
    }

    /// The elements, flat and row-major.
    pub fn data(&self) -> (r: &[T])
        ensures
            r@ == self.data@,
    {
        self.data.as_slice()
    }

    /// The elements, flat and row-major, for writing.
    pub fn data_mut(&mut self) -> (r: &mut Vec<T>)
        ensures
            r@ == old(self).data@,
            final(self).data@ == final(r)@,
            final(self).dims@ == old(self).dims@,
    {
        &mut self.data
    }

    /// The flat offset of a coordinate tuple: each coordinate weighted by
    /// the product of the extents after it. `None` when a coordinate lies
    /// beyond its extent.
    pub fn calc_index(&self, index_nd: &[usize]) -> (r: Option<usize>)
        requires
            index_nd@.len() == self.dims@.len(),
            nd_fits(index_nd@, self.dims@),
        ensures
            match r {
                Some(v) => nd_valid(index_nd@, self.dims@, self.dims@.len() as int) && v == nd_flat(
                    index_nd@,
                    self.dims@,
                    self.dims@.len() as int,
                ),
                None => !nd_valid(index_nd@, self.dims@, self.dims@.len() as int),
            },
    {
        let nd = self.dims.len();
        let mut index_1d: usize = 0;
        let mut stride: usize = 1;
        let mut k: usize = 0;
        while k < nd
            invariant
                k <= nd,
                nd == self.dims@.len(),
                index_nd@.len() == nd,
                nd_fits(index_nd@, self.dims@),
                nd_valid(index_nd@, self.dims@, k as int),
                stride == nd_stride(self.dims@, k as int),
                index_1d == nd_flat(index_nd@, self.dims@, k as int),
            decreases nd - k,
        {
            let extent = index_nd[nd - 1 - k];
            let dim_size = self.dims[nd - 1 - k];
            if extent > dim_size {
                proof {
                    assert(!nd_valid(index_nd@, self.dims@, k + 1));
                    lemma_nd_invalid_up(index_nd@, self.dims@, k + 1, nd as int);
                }
                return None;
            }
            proof {
                assert(nd_valid(index_nd@, self.dims@, k + 1));
                assert(nd_flat(index_nd@, self.dims@, k + 1) == nd_flat(
                    index_nd@,
                    self.dims@,
                    k as int,
                ) + index_nd@[nd - 1 - k] * nd_stride(self.dims@, k as int));
                assert(nd_flat(index_nd@, self.dims@, k + 1) <= usize::MAX);
                assert(nd_stride(self.dims@, k + 1) == nd_stride(self.dims@, k as int)
                    * self.dims@[nd - 1 - k]);
                assert(nd_stride(self.dims@, k + 1) <= usize::MAX);
            }
            index_1d = index_1d + extent * stride;
            stride = stride * dim_size;
            k += 1;
        }
        Some(index_1d)
    }

    /// The flat offset of a coordinate tuple that lies within the shape.
    pub fn calc_index_or_panic(&self, index_nd: &[usize]) -> (r: usize)
        requires
            index_nd@.len() == self.dims@.len(),
            nd_fits(index_nd@, self.dims@),
            nd_valid(index_nd@, self.dims@, self.dims@.len() as int),
        ensures
            r == nd_flat(index_nd@, self.dims@, self.dims@.len() as int),
    {
        match self.calc_index(index_nd) {
            Some(v) => v,
            None => {
                proof {
                    assert(false);
                }
                0
            },
        }
    }
}

/// Once some suffix of the coordinates fails the bounds test, the whole
/// tuple does.
proof fn lemma_nd_invalid_up(idx: Seq<usize>, dims: Seq<usize>, k: int, n: int)
    requires
        0 <= k <= n,
        !nd_valid(idx, dims, k),
    ensures
        !nd_valid(idx, dims, n),
    decreases n - k,
{
    if k < n {
        assert(nd_valid(idx, dims, k + 1) ==> nd_valid(idx, dims, k));
        lemma_nd_invalid_up(idx, dims, k + 1, n);
    }
}

} // verus!
