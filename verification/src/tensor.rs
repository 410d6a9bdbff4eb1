//! The tensor type itself: a flat buffer of elements together with its
//! shape, the row-major strides derived from that shape, and access by
//! multi-index or by flat offset.

use vstd::prelude::*;
use vstd::pervasive::unreached;
use crate::shape::{
    checked_size, compute_strides, flat_offset, flatten_index, size_of_shape, stride_of,
    strides_fit, valid_index,
};
use crate::elems::fill_seq;

verus! {

/// The closed set of error kinds shared by every fallible operation.
#[derive(Clone, Copy, Debug, PartialEq, Eq)]
pub enum TensorErrors {
    /// A rank or length mismatch: wrong number of index components or
    /// ranges, a buffer whose length disagrees with the shape, or a
    /// matmul operand with an empty shape.
    InvalidShape,
    /// A multi-index component at or beyond its axis's size.
    OutOfBound,
    /// A slice range that is inverted or reaches past its axis's size.
    InvalidRange,
    /// Two operand shapes that are incompatible for the requested
    /// operation.
    MissMatchedShapes,
}

/// An N-dimensional array: a shape, the row-major strides derived from
/// it, a flat element buffer in row-major order, an advisory
/// `requires_grad` flag, and an optional gradient buffer that no
/// operation here ever reads.
#[derive(Clone, Debug)]
pub struct Tensor {
    pub shape: Vec<usize>,
    pub strides: Vec<usize>,
    pub data: Vec<i64>,
    pub requires_grad: bool,
    pub grad: Option<Vec<i64>>,
}

/// Copies a vector of dimension sizes element by element.
pub(crate) fn copy_dims(v: &Vec<usize>) -> (r: Vec<usize>)
    ensures
        r@ == v@,
{
    let mut r: Vec<usize> = Vec::new();
    let n: usize = v.len();
    let mut i: usize = 0;
    while i < n
        invariant
            i <= n,
            n == v@.len(),
            r@ == v@.take(i as int),
        decreases n - i,
    {
        r.push(v[i]);
        proof {
            assert(r@ =~= v@.take(i + 1));
        }
        i = i + 1;
    }
    proof {
        assert(v@.take(n as int) =~= v@);
    }
    r
}

/// Copies the first `n` dimension sizes of a vector.
pub(crate) fn copy_prefix(v: &Vec<usize>, n: usize) -> (r: Vec<usize>)
    requires
        n <= v@.len(),
    ensures
        r@ == v@.take(n as int),
{
    let mut r: Vec<usize> = Vec::new();
    let mut i: usize = 0;
    while i < n
        invariant
            i <= n,
            n <= v@.len(),
            r@ == v@.take(n as int).take(i as int),
        decreases n - i,
    {
        r.push(v[i]);
        proof {
            assert(r@ =~= v@.take(n as int).take(i + 1));
        }
        i = i + 1;
    }
    proof {
        assert(v@.take(n as int).take(n as int) =~= v@.take(n as int));
    }
    r
}

impl Tensor {
    /// Well-formedness, which every operation preserves: the strides are
    /// exactly the row-major strides of the shape, the buffer holds
    /// exactly one element per position the shape describes, and a
    /// gradient buffer, when present, has the same length.
    pub open spec fn wf(&self) -> bool {
        &&& self.strides@.len() == self.shape@.len()
        &&& (forall|ax: int|
            0 <= ax < self.shape@.len() ==> self.strides@[ax] as nat == stride_of(self.shape@, ax))
        &&& self.data@.len() == size_of_shape(self.shape@)
        &&& (self.grad matches Some(g) ==> g@.len() == size_of_shape(self.shape@))
    }

    /// Builds a tensor from a flat row-major buffer and a shape.
    /// Succeeds exactly when the buffer's length is the shape's size and
    /// every stride of the shape is representable; any other input is
    /// rejected with `InvalidShape`.  When `requires_grad` is set, the
    /// gradient buffer starts as zeros of the same length.
    pub fn new(data: Vec<i64>, shape: Vec<usize>, requires_grad: bool) -> (r: Result<
        Tensor,
        TensorErrors,
    >)
        ensures
            match r {
                Ok(t) => {
                    &&& data@.len() == size_of_shape(shape@)
                    &&& strides_fit(shape@)
                    &&& t.wf()
                    &&& t.shape@ == shape@
                    &&& t.data@ == data@
                    &&& t.requires_grad == requires_grad
                    &&& (requires_grad ==> (t.grad matches Some(g) && g@ == fill_seq(
                        size_of_shape(shape@),
                        0i64,
                    )))
                    &&& (!requires_grad ==> t.grad is None)
                },
                Err(e) => {
                    &&& e == TensorErrors::InvalidShape
                    &&& !(data@.len() == size_of_shape(shape@) && strides_fit(shape@))
                },
            },
    {
        let sz: usize = match checked_size(&shape) {
            Some(v) => v,
            None => {
                proof {
                    assert(data.len() == data@.len());
                }
                return Err(TensorErrors::InvalidShape);
            },
        };
        if data.len() != sz {
            return Err(TensorErrors::InvalidShape);
        }
        let st: Vec<usize> = match compute_strides(&shape) {
            Some(v) => v,
            None => {
                return Err(TensorErrors::InvalidShape);
            },
        };
        let grad: Option<Vec<i64>> = if requires_grad {
            let g: Vec<i64> = vec![0i64; sz];
            proof {
                assert(g@ =~= fill_seq(size_of_shape(shape@), 0i64));
            }
            Some(g)
        } else {
            None
        };
        Ok(Tensor { shape, strides: st, data, requires_grad, grad })
    }

    /// A tensor of the given shape filled with zeros.  When
    /// `requires_grad` is set, the gradient buffer starts as zeros too.
    pub fn zeros(shape: &Vec<usize>, requires_grad: bool) -> (t: Tensor)
        requires
            size_of_shape(shape@) <= usize::MAX,
            strides_fit(shape@),
        ensures
            t.wf(),
            t.shape@ == shape@,
            t.data@ == fill_seq(size_of_shape(shape@), 0i64),
            t.requires_grad == requires_grad,
            requires_grad ==> (t.grad matches Some(g) && g@ == fill_seq(size_of_shape(shape@), 0i64)),
            !requires_grad ==> t.grad is None,
    {
        Self::filled(shape, 0i64, requires_grad)
    }

    /// A tensor of the given shape filled with ones.  When
    /// `requires_grad` is set, the gradient buffer starts as ones too.
    pub fn ones(shape: &Vec<usize>, requires_grad: bool) -> (t: Tensor)
        requires
            size_of_shape(shape@) <= usize::MAX,
            strides_fit(shape@),
        ensures
            t.wf(),
            t.shape@ == shape@,
            t.data@ == fill_seq(size_of_shape(shape@), 1i64),
            t.requires_grad == requires_grad,
            requires_grad ==> (t.grad matches Some(g) && g@ == fill_seq(size_of_shape(shape@), 1i64)),
            !requires_grad ==> t.grad is None,
    {
        Self::filled(shape, 1i64, requires_grad)
    }

    /// A tensor of the given shape with every element `v`; the gradient
    /// buffer, when requested, starts with the same fill.
    fn filled(shape: &Vec<usize>, v: i64, requires_grad: bool) -> (t: Tensor)
        requires
            size_of_shape(shape@) <= usize::MAX,
            strides_fit(shape@),
        ensures
            t.wf(),
            t.shape@ == shape@,
            t.data@ == fill_seq(size_of_shape(shape@), v),
            t.requires_grad == requires_grad,
            requires_grad ==> (t.grad matches Some(g) && g@ == fill_seq(size_of_shape(shape@), v)),
            !requires_grad ==> t.grad is None,
    {
        let sz: usize = match checked_size(shape) {
            Some(s) => s,
            None => unreached(),
        };
        let st: Vec<usize> = match compute_strides(shape) {
            Some(s) => s,
            None => unreached(),
        };
        let data: Vec<i64> = vec![v; sz];
        proof {
            assert(data@ =~= fill_seq(size_of_shape(shape@), v));
        }
        let grad: Option<Vec<i64>> = if requires_grad {
            let g: Vec<i64> = vec![v; sz];
            proof {
                assert(g@ =~= fill_seq(size_of_shape(shape@), v));
            }
            Some(g)
        } else {
            None
        };
        Tensor { shape: copy_dims(shape), strides: st, data, requires_grad, grad }
    }

    /// Returns a copy of the tensor's shape.
    pub fn shape(&self) -> (r: Vec<usize>)
        ensures
            r@ == self.shape@,
    {
        copy_dims(&self.shape)
    }

    /// Returns the number of dimensions.
    pub fn ndim(&self) -> (r: usize)
        ensures
            r == self.shape@.len(),
    {
        self.shape.len()
    }

    /// Returns the total number of elements.
    pub fn size(&self) -> (r: usize)
        requires
            self.wf(),
        ensures
            r as nat == size_of_shape(self.shape@),
    {
        self.data.len()
    }

    /// Returns a copy of the tensor's row-major strides.
    pub fn strides(&self) -> (r: Vec<usize>)
        ensures
            r@ == self.strides@,
    {
        copy_dims(&self.strides)
    }

    /// Reads the element at a multi-index.  Rejects an index with the
    /// wrong number of components with `InvalidShape` and one with a
    /// component at or past its axis's size with `OutOfBound`; otherwise
    /// returns the element at the index's row-major position.
    pub fn get(&self, idx: &Vec<usize>) -> (r: Result<i64, TensorErrors>)
        requires
            self.wf(),
        ensures
            idx@.len() != self.shape@.len() ==> r == Err::<i64, TensorErrors>(
                TensorErrors::InvalidShape,
            ),
            idx@.len() == self.shape@.len() && !valid_index(self.shape@, idx@) ==> r == Err::<
                i64,
                TensorErrors,
            >(TensorErrors::OutOfBound),
            valid_index(self.shape@, idx@) ==> r == Ok::<i64, TensorErrors>(
                self.data@[flatten_index(self.shape@, idx@)],
            ),
    {
        let n: usize = self.shape.len();
        if idx.len() != n {
            return Err(TensorErrors::InvalidShape);
        }
        let mut ax: usize = 0;
        while ax < n
            invariant
                ax <= n,
                n == self.shape@.len(),
                idx@.len() == n,
                forall|i: int| 0 <= i < ax ==> idx@[i] < self.shape@[i],
            decreases n - ax,
        {
            if idx[ax] >= self.shape[ax] {
                return Err(TensorErrors::OutOfBound);
            }
            ax = ax + 1;
        }
        proof {
            assert(self.data.len() == self.data@.len());
        }
        let off: usize = flat_offset(&self.shape, &self.strides, idx);
        Ok(self.data[off])
    }

    /// Writes the element at a multi-index, with the same index checks
    /// and errors as `get`; on success only that one buffer position
    /// changes.
    pub fn set_at(&mut self, idx: &Vec<usize>, v: i64) -> (r: Result<(), TensorErrors>)
        requires
            old(self).wf(),
        ensures
            final(self).wf(),
            final(self).shape@ == old(self).shape@,
            final(self).strides@ == old(self).strides@,
            final(self).requires_grad == old(self).requires_grad,
            final(self).grad == old(self).grad,
            idx@.len() != old(self).shape@.len() ==> r == Err::<(), TensorErrors>(
                TensorErrors::InvalidShape,
            ) && final(self).data@ == old(self).data@,
            idx@.len() == old(self).shape@.len() && !valid_index(old(self).shape@, idx@) ==> r
                == Err::<(), TensorErrors>(TensorErrors::OutOfBound)
                && final(self).data@ == old(self).data@,
            valid_index(old(self).shape@, idx@) ==> r == Ok::<(), TensorErrors>(())
                && final(self).data@ == old(self).data@.update(
                flatten_index(old(self).shape@, idx@),
                v,
            ),
    {
        let n: usize = self.shape.len();
        if idx.len() != n {
            return Err(TensorErrors::InvalidShape);
        }
        let mut ax: usize = 0;
        while ax < n
            invariant
                *self == *old(self),
                self.wf(),
                ax <= n,
                n == self.shape@.len(),
                idx@.len() == n,
                forall|i: int| 0 <= i < ax ==> idx@[i] < self.shape@[i],
            decreases n - ax,
        {
            if idx[ax] >= self.shape[ax] {
                return Err(TensorErrors::OutOfBound);
            }
            ax = ax + 1;
        }
        proof {
            assert(self.data.len() == self.data@.len());
        }
        let off: usize = flat_offset(&self.shape, &self.strides, idx);
        self.data[off] = v;
        Ok(())
    }

    /// Reads the element at a flat row-major offset.  Offsets at or past
    /// the tensor's size address no element, so callers must stay below
    /// it.
    pub fn index(&self, i: usize) -> (r: i64)
        requires
            self.wf(),
            (i as nat) < size_of_shape(self.shape@),
        ensures
            r == self.data@[i as int],
    {
        self.data[i]
    }

    /// Writes the element at a flat row-major offset, which must be
    /// below the tensor's size; only that one buffer position changes.
    pub fn set_index(&mut self, i: usize, v: i64)
        requires
            old(self).wf(),
            (i as nat) < size_of_shape(old(self).shape@),
        ensures
            final(self).wf(),
            final(self).shape@ == old(self).shape@,
            final(self).strides@ == old(self).strides@,
            final(self).requires_grad == old(self).requires_grad,
            final(self).grad == old(self).grad,
            final(self).data@ == old(self).data@.update(i as int, v),
    {
        self.data[i] = v;
    }

    /// Copies the elements at flat offsets `start..end` out into a new
    /// buffer; the range must lie within the tensor's size.
    pub fn index_range(&self, start: usize, end: usize) -> (r: Vec<i64>)
        requires
            self.wf(),
            start <= end,
            (end as nat) <= size_of_shape(self.shape@),
        ensures
            r@ == self.data@.subrange(start as int, end as int),
    {
        let mut r: Vec<i64> = Vec::new();
        let mut i: usize = start;
        while i < end
            invariant
                start <= i <= end,
                end <= self.data@.len(),
                r@ == self.data@.subrange(start as int, i as int),
            decreases end - i,
        {
            r.push(self.data[i]);
            proof {
                assert(r@ =~= self.data@.subrange(start as int, i + 1));
            }
            i = i + 1;
        }
        r
    }

    /// Overwrites the elements at flat offsets `start..start + vals.len()`
    /// with `vals`; the range must lie within the tensor's size, and no
    /// other buffer position changes.
    pub fn set_range(&mut self, start: usize, vals: &Vec<i64>)
        requires
            old(self).wf(),
            start + vals@.len() <= size_of_shape(old(self).shape@),
        ensures
            final(self).wf(),
            final(self).shape@ == old(self).shape@,
            final(self).strides@ == old(self).strides@,
            final(self).requires_grad == old(self).requires_grad,
            final(self).grad == old(self).grad,
            final(self).data@.len() == old(self).data@.len(),
            forall|i: int|
                0 <= i < old(self).data@.len() ==> final(self).data@[i] == (if start <= i < start
                    + vals@.len() {
                    vals@[i - start]
                } else {
                    old(self).data@[i]
                }),
    {
        let n: usize = vals.len();
        let mut k: usize = 0;
        proof {
            assert(self.data.len() == self.data@.len());
        }
        while k < n
            invariant
                k <= n,
                n == vals@.len(),
                self.data@.len() <= usize::MAX,
                self.wf(),
                self.shape@ == old(self).shape@,
                self.strides@ == old(self).strides@,
                self.requires_grad == old(self).requires_grad,
                self.grad == old(self).grad,
                start + n <= self.data@.len(),
                self.data@.len() == old(self).data@.len(),
                forall|i: int|
                    0 <= i < old(self).data@.len() ==> self.data@[i] == (if start <= i < start + k {
                        vals@[i - start]
                    } else {
                        old(self).data@[i]
                    }),
            decreases n - k,
        {
            self.data[start + k] = vals[k];
            k = k + 1;
        }
    }
}

} // verus!
