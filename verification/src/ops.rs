//! Element-wise operations over equal-shaped tensors, scalar scaling, and
//! sub-range slicing.

use vstd::prelude::*;
use vstd::pervasive::unreached;
use vstd::std_specs::cmp::PartialEqSpec;
use core::ops::Range;
use crate::shape::{
    checked_size, compute_strides, flat_offset, flatten_index, lemma_padded_mono,
    lemma_positive_size_all_positive, lemma_size_mono, size_of_shape, stride_of, strides_fit,
    unflatten, unflatten_index, valid_index,
};
use crate::elems::{
    add_fits, add_seq, had_fits, had_seq, in_elem, scale_fits, scale_seq, sub_fits, sub_seq,
};
use crate::tensor::{copy_dims, Tensor, TensorErrors};

verus! {

/// The element-wise sum of two equal-length buffers, built position by
/// position.
fn zip_add(a: &Vec<i64>, b: &Vec<i64>) -> (r: Vec<i64>)
    requires
        a@.len() == b@.len(),
        add_fits(a@, b@),
    ensures
        r@ == add_seq(a@, b@),
{
    let n: usize = a.len();
    let mut r: Vec<i64> = Vec::new();
    let mut i: usize = 0;
    while i < n
        invariant
            i <= n,
            n == a@.len(),
            n == b@.len(),
            add_fits(a@, b@),
            r@ == add_seq(a@, b@).take(i as int),
        decreases n - i,
    {
        proof {
            assert(in_elem(a@[i as int] + b@[i as int]));
        }
        r.push(a[i] + b[i]);
        proof {
            assert(r@ =~= add_seq(a@, b@).take(i + 1));
        }
        i = i + 1;
    }
    proof {
        assert(add_seq(a@, b@).take(n as int) =~= add_seq(a@, b@));
    }
    r
}

/// The element-wise difference of two equal-length buffers.
fn zip_sub(a: &Vec<i64>, b: &Vec<i64>) -> (r: Vec<i64>)
    requires
        a@.len() == b@.len(),
        sub_fits(a@, b@),
    ensures
        r@ == sub_seq(a@, b@),
{
    let n: usize = a.len();
    let mut r: Vec<i64> = Vec::new();
    let mut i: usize = 0;
    while i < n
        invariant
            i <= n,
            n == a@.len(),
            n == b@.len(),
            sub_fits(a@, b@),
            r@ == sub_seq(a@, b@).take(i as int),
        decreases n - i,
    {
        proof {
            assert(in_elem(a@[i as int] - b@[i as int]));
        }
        r.push(a[i] - b[i]);
        proof {
            assert(r@ =~= sub_seq(a@, b@).take(i + 1));
        }
        i = i + 1;
    }
    proof {
        assert(sub_seq(a@, b@).take(n as int) =~= sub_seq(a@, b@));
    }
    r
}

/// The element-wise product of two equal-length buffers.
fn zip_had(a: &Vec<i64>, b: &Vec<i64>) -> (r: Vec<i64>)
    requires
        a@.len() == b@.len(),
        had_fits(a@, b@),
    ensures
        r@ == had_seq(a@, b@),
{
    let n: usize = a.len();
    let mut r: Vec<i64> = Vec::new();
    let mut i: usize = 0;
    while i < n
        invariant
            i <= n,
            n == a@.len(),
            n == b@.len(),
            had_fits(a@, b@),
            r@ == had_seq(a@, b@).take(i as int),
        decreases n - i,
    {
        proof {
            assert(in_elem(a@[i as int] * b@[i as int]));
        }
        r.push(a[i] * b[i]);
        proof {
            assert(r@ =~= had_seq(a@, b@).take(i + 1));
        }
        i = i + 1;
    }
    proof {
        assert(had_seq(a@, b@).take(n as int) =~= had_seq(a@, b@));
    }
    r
}

/// Every element of `a` times the scalar `k`.
fn zip_scale(a: &Vec<i64>, k: i64) -> (r: Vec<i64>)
    requires
        scale_fits(a@, k),
    ensures
        r@ == scale_seq(a@, k),
{
    let n: usize = a.len();
    let mut r: Vec<i64> = Vec::new();
    let mut i: usize = 0;
    while i < n
        invariant
            i <= n,
            n == a@.len(),
            scale_fits(a@, k),
            r@ == scale_seq(a@, k).take(i as int),
        decreases n - i,
    {
        proof {
            assert(in_elem(a@[i as int] * k));
        }
        r.push(a[i] * k);
        proof {
            assert(r@ =~= scale_seq(a@, k).take(i + 1));
        }
        i = i + 1;
    }
    proof {
        assert(scale_seq(a@, k).take(n as int) =~= scale_seq(a@, k));
    }
    r
}

/// The per-axis starting offsets of a slice request.
pub open spec fn range_starts(rs: Seq<Range<usize>>) -> Seq<usize> {
    Seq::new(rs.len(), |i: int| rs[i].start)
}

/// The per-axis extents of a slice request.
pub open spec fn range_dims(rs: Seq<Range<usize>>) -> Seq<usize> {
    Seq::new(rs.len(), |i: int| ((rs[i].end - rs[i].start) as usize))
}

/// A range lies within an axis of size `d`: it is not inverted and does
/// not reach past `d`.
pub open spec fn range_in_axis(r: Range<usize>, d: usize) -> bool {
    r.start <= r.end && r.end <= d
}

/// Every range lies within its axis: not inverted and not reaching past
/// the axis's size.
pub open spec fn ranges_valid(s: Seq<usize>, rs: Seq<Range<usize>>) -> bool {
    forall|ax: int| 0 <= ax < rs.len() ==> range_in_axis(#[trigger] rs[ax], s[ax])
}

/// A multi-index shifted by per-axis starting offsets.
pub open spec fn shifted_index(idx: Seq<usize>, starts: Seq<usize>) -> Seq<usize> {
    Seq::new(idx.len(), |i: int| ((idx[i] + starts[i]) as usize))
}

/// The row-major copy of a sub-block of `data`: `data` is laid out by
/// shape `s`, and the block starts at `starts` and extends `dims` along
/// each axis.  Position `k` of the copy holds the source element whose
/// multi-index is position `k`'s multi-index in the block, shifted by
/// `starts`.
pub open spec fn block_seq(
    data: Seq<i64>,
    s: Seq<usize>,
    starts: Seq<usize>,
    dims: Seq<usize>,
) -> Seq<i64> {
    Seq::new(
        size_of_shape(dims),
        |k: int| data[flatten_index(s, shifted_index(unflatten_index(dims, k), starts))],
    )
}

/// Compares two dimension vectors, deciding spec-level equality of their
/// views.
pub(crate) fn dims_eq(a: &Vec<usize>, b: &Vec<usize>) -> (r: bool)
    ensures
        r <==> a@ == b@,
{
    let r: bool = a == b;
    proof {
        if r {
            assert(a@ =~= b@);
        } else {
            if a@ == b@ {
                assert(a.eq_spec(b));
            }
        }
    }
    r
}

impl Tensor {
    /// Element-wise sum.  Succeeds exactly when the two shapes are equal
    /// (no broadcasting); a mismatch is rejected with
    /// `MissMatchedShapes`.  The result's `requires_grad` is the OR of
    /// the operands' and its gradient buffer is absent.
    pub fn add(&self, other: &Tensor) -> (r: Result<Tensor, TensorErrors>)
        requires
            self.wf(),
            other.wf(),
            self.shape@ == other.shape@ ==> add_fits(self.data@, other.data@),
        ensures
            self.shape@ != other.shape@ ==> r == Err::<Tensor, TensorErrors>(
                TensorErrors::MissMatchedShapes,
            ),
            self.shape@ == other.shape@ ==> (r matches Ok(t) && {
                &&& t.wf()
                &&& t.shape@ == self.shape@
                &&& t.data@ == add_seq(self.data@, other.data@)
                &&& t.requires_grad == (self.requires_grad || other.requires_grad)
                &&& t.grad is None
            }),
    {
        if !dims_eq(&self.shape, &other.shape) {
            return Err(TensorErrors::MissMatchedShapes);
        }
        let data: Vec<i64> = zip_add(&self.data, &other.data);
        Ok(Tensor {
            shape: copy_dims(&self.shape),
            strides: copy_dims(&self.strides),
            data,
            requires_grad: self.requires_grad || other.requires_grad,
            grad: None,
        })
    }

    /// Element-wise difference, with the same shape-equality contract as
    /// `add`.
    pub fn sub(&self, other: &Tensor) -> (r: Result<Tensor, TensorErrors>)
        requires
            self.wf(),
            other.wf(),
            self.shape@ == other.shape@ ==> sub_fits(self.data@, other.data@),
        ensures
            self.shape@ != other.shape@ ==> r == Err::<Tensor, TensorErrors>(
                TensorErrors::MissMatchedShapes,
            ),
            self.shape@ == other.shape@ ==> (r matches Ok(t) && {
                &&& t.wf()
                &&& t.shape@ == self.shape@
                &&& t.data@ == sub_seq(self.data@, other.data@)
                &&& t.requires_grad == (self.requires_grad || other.requires_grad)
                &&& t.grad is None
            }),
    {
        if !dims_eq(&self.shape, &other.shape) {
            return Err(TensorErrors::MissMatchedShapes);
        }
        let data: Vec<i64> = zip_sub(&self.data, &other.data);
        Ok(Tensor {
            shape: copy_dims(&self.shape),
            strides: copy_dims(&self.strides),
            data,
            requires_grad: self.requires_grad || other.requires_grad,
            grad: None,
        })
    }

    /// Element-wise (Hadamard) product, with the same shape-equality
    /// contract as `add`.
    pub fn mul(&self, other: &Tensor) -> (r: Result<Tensor, TensorErrors>)
        requires
            self.wf(),
            other.wf(),
            self.shape@ == other.shape@ ==> had_fits(self.data@, other.data@),
        ensures
            self.shape@ != other.shape@ ==> r == Err::<Tensor, TensorErrors>(
                TensorErrors::MissMatchedShapes,
            ),
            self.shape@ == other.shape@ ==> (r matches Ok(t) && {
                &&& t.wf()
                &&& t.shape@ == self.shape@
                &&& t.data@ == had_seq(self.data@, other.data@)
                &&& t.requires_grad == (self.requires_grad || other.requires_grad)
                &&& t.grad is None
            }),
    {
        if !dims_eq(&self.shape, &other.shape) {
            return Err(TensorErrors::MissMatchedShapes);
        }
        let data: Vec<i64> = zip_had(&self.data, &other.data);
        Ok(Tensor {
            shape: copy_dims(&self.shape),
            strides: copy_dims(&self.strides),
            data,
            requires_grad: self.requires_grad || other.requires_grad,
            grad: None,
        })
    }

    /// In-place element-wise sum.  The shapes must already be equal:
    /// there is no result to carry an error, so callers pre-validate.
    /// Only the buffer contents change.
    pub fn add_assign(&mut self, other: &Tensor)
        requires
            old(self).wf(),
            other.wf(),
            old(self).shape@ == other.shape@,
            add_fits(old(self).data@, other.data@),
        ensures
            final(self).wf(),
            final(self).shape@ == old(self).shape@,
            final(self).strides@ == old(self).strides@,
            final(self).requires_grad == old(self).requires_grad,
            final(self).grad == old(self).grad,
            final(self).data@ == add_seq(old(self).data@, other.data@),
    {
        let data: Vec<i64> = zip_add(&self.data, &other.data);
        self.data = data;
    }

    /// In-place element-wise difference, with the same pre-validated
    /// shape-equality contract as `add_assign`.
    pub fn sub_assign(&mut self, other: &Tensor)
        requires
            old(self).wf(),
            other.wf(),
            old(self).shape@ == other.shape@,
            sub_fits(old(self).data@, other.data@),
        ensures
            final(self).wf(),
            final(self).shape@ == old(self).shape@,
            final(self).strides@ == old(self).strides@,
            final(self).requires_grad == old(self).requires_grad,
            final(self).grad == old(self).grad,
            final(self).data@ == sub_seq(old(self).data@, other.data@),
    {
        let data: Vec<i64> = zip_sub(&self.data, &other.data);
        self.data = data;
    }

    /// Multiplies every element by a scalar into a new tensor; shape and
    /// `requires_grad` pass through, the gradient buffer is absent.
    pub fn multiply_by_scalar(&self, k: i64) -> (r: Tensor)
        requires
            self.wf(),
            scale_fits(self.data@, k),
        ensures
            r.wf(),
            r.shape@ == self.shape@,
            r.data@ == scale_seq(self.data@, k),
            r.requires_grad == self.requires_grad,
            r.grad is None,
    {
        let data: Vec<i64> = zip_scale(&self.data, k);
        Tensor {
            shape: copy_dims(&self.shape),
            strides: copy_dims(&self.strides),
            data,
            requires_grad: self.requires_grad,
            grad: None,
        }
    }

    /// Extracts a sub-range of the tensor along every axis into a new,
    /// independently owned tensor.  A request with the wrong number of
    /// ranges is rejected with `InvalidShape`; one with an inverted
    /// range or a range past its axis's end with `InvalidRange`.  On
    /// success the result's shape is each range's extent, its strides
    /// are freshly computed for that shape, and its buffer is the
    /// selected block copied in row-major order -- a request of size 0
    /// succeeds with an empty buffer.  `requires_grad` is copied; the
    /// gradient buffer is absent.
    #[verifier::loop_isolation(false)]
    pub fn slice(&self, ranges: Vec<Range<usize>>) -> (r: Result<Tensor, TensorErrors>)
        requires
            self.wf(),
        ensures
            ranges@.len() != self.shape@.len() ==> r == Err::<Tensor, TensorErrors>(
                TensorErrors::InvalidShape,
            ),
            ranges@.len() == self.shape@.len() && !ranges_valid(self.shape@, ranges@) ==> r
                == Err::<Tensor, TensorErrors>(TensorErrors::InvalidRange),
            ranges@.len() == self.shape@.len() && ranges_valid(self.shape@, ranges@) ==> (
            r matches Ok(t) && {
                &&& t.wf()
                &&& t.shape@ == range_dims(ranges@)
                &&& t.data@ == block_seq(
                    self.data@,
                    self.shape@,
                    range_starts(ranges@),
                    range_dims(ranges@),
                )
                &&& t.requires_grad == self.requires_grad
                &&& t.grad is None
            }),
    {
        let n: usize = self.shape.len();
        if ranges.len() != n {
            return Err(TensorErrors::InvalidShape);
        }
        let mut ax: usize = 0;
        while ax < n
            invariant
                ax <= n,
                forall|i: int| 0 <= i < ax ==> range_in_axis(#[trigger] ranges@[i], self.shape@[i]),
            decreases n - ax,
        {
            if ranges[ax].start > ranges[ax].end || ranges[ax].end > self.shape[ax] {
                return Err(TensorErrors::InvalidRange);
            }
            proof {
                assert(range_in_axis(ranges@[ax as int], self.shape@[ax as int]));
            }
            ax = ax + 1;
        }
        proof {
            assert(ranges_valid(self.shape@, ranges@));
        }
        let mut dims: Vec<usize> = Vec::new();
        let mut starts: Vec<usize> = Vec::new();
        let mut bx: usize = 0;
        while bx < n
            invariant
                bx <= n,
                dims@ == range_dims(ranges@).take(bx as int),
                starts@ == range_starts(ranges@).take(bx as int),
            decreases n - bx,
        {
            proof {
                assert(range_in_axis(ranges@[bx as int], self.shape@[bx as int]));
            }
            dims.push(ranges[bx].end - ranges[bx].start);
            starts.push(ranges[bx].start);
            proof {
                assert(dims@ =~= range_dims(ranges@).take(bx + 1));
                assert(starts@ =~= range_starts(ranges@).take(bx + 1));
            }
            bx = bx + 1;
        }
        proof {
            assert(dims@ =~= range_dims(ranges@));
            assert(starts@ =~= range_starts(ranges@));
            assert forall|i: int| 0 <= i < n implies dims@[i] <= self.shape@[i] by {
                assert(ranges@[i].end <= self.shape@[i]);
            };
            assert forall|cx: int| 0 <= cx < dims@.len() implies stride_of(dims@, cx)
                <= usize::MAX by {
                assert forall|i: int|
                    0 <= i < dims@.skip(cx + 1).len() implies #[trigger] dims@.skip(cx + 1)[i]
                    <= self.shape@.skip(cx + 1)[i] by {
                    assert(dims@.skip(cx + 1)[i] == dims@[i + cx + 1]);
                    assert(self.shape@.skip(cx + 1)[i] == self.shape@[i + cx + 1]);
                };
                lemma_padded_mono(dims@.skip(cx + 1), self.shape@.skip(cx + 1));
                assert(self.strides@[cx] as nat == stride_of(self.shape@, cx));
            };
            assert(strides_fit(dims@));
            lemma_size_mono(dims@, self.shape@);
            assert(self.data.len() == self.data@.len());
        }
        let st: Vec<usize> = match compute_strides(&dims) {
            Some(v) => v,
            None => unreached(),
        };
        let sz: usize = match checked_size(&dims) {
            Some(v) => v,
            None => unreached(),
        };
        let mut out: Vec<i64> = Vec::new();
        let mut k: usize = 0;
        while k < sz
            invariant
                k <= sz,
                out@ == block_seq(self.data@, self.shape@, starts@, dims@).take(k as int),
            decreases sz - k,
        {
            proof {
                lemma_positive_size_all_positive(dims@);
            }
            let beta: Vec<usize> = unflatten(&dims, &st, k);
            let mut sidx: Vec<usize> = Vec::new();
            let mut cx: usize = 0;
            while cx < n
                invariant
                    cx <= n,
                    sidx@ == shifted_index(beta@, starts@).take(cx as int),
                decreases n - cx,
            {
                proof {
                    assert(range_in_axis(ranges@[cx as int], self.shape@[cx as int]));
                    assert(beta@[cx as int] < dims@[cx as int]);
                    assert(starts@[cx as int] + dims@[cx as int] <= self.shape@[cx as int]);
                }
                sidx.push(beta[cx] + starts[cx]);
                proof {
                    assert(sidx@ =~= shifted_index(beta@, starts@).take(cx + 1));
                }
                cx = cx + 1;
            }
            proof {
                assert(sidx@ =~= shifted_index(beta@, starts@));
                assert forall|i: int| 0 <= i < n implies sidx@[i] < self.shape@[i] by {
                    assert(range_in_axis(ranges@[i], self.shape@[i]));
                    assert(beta@[i] < dims@[i]);
                    assert(starts@[i] + dims@[i] <= self.shape@[i]);
                };
                assert(valid_index(self.shape@, sidx@));
            }
            let off: usize = flat_offset(&self.shape, &self.strides, &sidx);
            out.push(self.data[off]);
            proof {
                assert(block_seq(self.data@, self.shape@, starts@, dims@)[k as int]
                    == self.data@[off as int]);
                assert(out@ =~= block_seq(self.data@, self.shape@, starts@, dims@).take(k + 1));
            }
            k = k + 1;
        }
        proof {
            assert(out@ =~= block_seq(self.data@, self.shape@, starts@, dims@));
        }
        Ok(
            Tensor {
                shape: dims,
                strides: st,
                data: out,
                requires_grad: self.requires_grad,
                grad: None,
            },
        )
    }

    /// Multiplies every element by a scalar in place; everything but the
    /// buffer contents, the gradient buffer included, stays as it was.
    pub fn multiply_by_scalar_assign(&mut self, k: i64)
        requires
            old(self).wf(),
            scale_fits(old(self).data@, k),
        ensures
            final(self).wf(),
            final(self).shape@ == old(self).shape@,
            final(self).strides@ == old(self).strides@,
            final(self).requires_grad == old(self).requires_grad,
            final(self).grad == old(self).grad,
            final(self).data@ == scale_seq(old(self).data@, k),
    {
        let data: Vec<i64> = zip_scale(&self.data, k);
        self.data = data;
    }
}

} // verus!
