//! Laws the operations obey, stated and proved once over the same
//! spec-level models that the operation contracts use.

use vstd::prelude::*;
use vstd::arithmetic::mul::{lemma_mul_basics, lemma_mul_is_distributive_add_other_way};
use crate::shape::{
    all_positive, flatten_index, lemma_flatten_bounds, lemma_flatten_unflatten,
    lemma_positive_size_all_positive, lemma_size_eq_padded, lex_less, size_of_shape, stride_of,
    unflatten_index, valid_index,
};
use crate::elems::{
    add_fits, add_seq, fill_seq, in_elem, scale_fits, scale_seq, sub_fits, sub_seq,
};
use crate::ops::{block_seq, shifted_index};

verus! {

/// A multi-index of zeros: the starting corner of a full-range slice.
pub open spec fn zero_starts(n: nat) -> Seq<usize> {
    Seq::new(n, |i: int| 0usize)
}

/// Row-major strides enumerate a shape's elements in exactly
/// lexicographic multi-index order: of two valid multi-indices, the
/// lexicographically smaller one flattens to the strictly smaller
/// buffer position, and conversely.
pub proof fn lemma_row_major_matches_lex_order(s: Seq<usize>, x: Seq<usize>, y: Seq<usize>)
    requires
        valid_index(s, x),
        valid_index(s, y),
    ensures
        lex_less(x, y) <==> flatten_index(s, x) < flatten_index(s, y),
    decreases s.len(),
{
    if s.len() > 0 {
        assert(valid_index(s.skip(1), x.skip(1)));
        assert(valid_index(s.skip(1), y.skip(1)));
        assert(all_positive(s.skip(1)));
        lemma_size_eq_padded(s.skip(1));
        let t: int = size_of_shape(s.skip(1)) as int;
        assert(stride_of(s, 0) == t) by {
            assert(s.skip(0int + 1) =~= s.skip(1));
        };
        lemma_flatten_bounds(s.skip(1), x.skip(1));
        lemma_flatten_bounds(s.skip(1), y.skip(1));
        let fx: int = flatten_index(s.skip(1), x.skip(1));
        let fy: int = flatten_index(s.skip(1), y.skip(1));
        if x[0] < y[0] {
            assert((x[0] as int) * t + fx < (y[0] as int) * t + fy) by (nonlinear_arith)
                requires
                    (x[0] as int) < (y[0] as int),
                    0 <= fx < t,
                    0 <= fy,
            ;
        } else if x[0] > y[0] {
            assert((y[0] as int) * t + fy < (x[0] as int) * t + fx) by (nonlinear_arith)
                requires
                    (y[0] as int) < (x[0] as int),
                    0 <= fy < t,
                    0 <= fx,
            ;
        } else {
            lemma_row_major_matches_lex_order(s.skip(1), x.skip(1), y.skip(1));
        }
    }
}

/// Addition and subtraction are mutual inverses: adding `b` element-wise
/// and then subtracting it gives back exactly the first operand.
pub proof fn lemma_add_sub_inverse(a: Seq<i64>, b: Seq<i64>)
    requires
        a.len() == b.len(),
        add_fits(a, b),
    ensures
        sub_fits(add_seq(a, b), b),
        sub_seq(add_seq(a, b), b) == a,
{
    assert forall|i: int| 0 <= i < a.len() implies in_elem(a[i] + b[i]) && add_seq(a, b)[i] == ((
    a[i] + b[i]) as i64) by {
        assert(in_elem(a[i] + b[i]));
    };
    assert(sub_fits(add_seq(a, b), b));
    assert forall|i: int| 0 <= i < a.len() implies sub_seq(add_seq(a, b), b)[i] == a[i] by {
        assert(in_elem(a[i] + b[i]));
        assert(add_seq(a, b)[i] == (a[i] + b[i]) as i64);
    };
    assert(sub_seq(add_seq(a, b), b) =~= a);
}

/// Scaling by 1 is the identity.
pub proof fn lemma_scale_one_identity(a: Seq<i64>)
    ensures
        scale_fits(a, 1),
        scale_seq(a, 1) == a,
{
    assert forall|i: int| 0 <= i < a.len() implies in_elem(a[i] * 1) && (a[i] * 1) == a[i] by {
        lemma_mul_basics(a[i] as int);
    };
    assert(scale_seq(a, 1) =~= a);
}

/// Scaling by 0 zeroes every element.
pub proof fn lemma_scale_zero(a: Seq<i64>)
    ensures
        scale_fits(a, 0),
        scale_seq(a, 0) == fill_seq(a.len(), 0i64),
{
    assert forall|i: int| 0 <= i < a.len() implies in_elem(a[i] * 0) && (a[i] * 0) == 0 by {
        lemma_mul_basics(a[i] as int);
    };
    assert(scale_seq(a, 0) =~= fill_seq(a.len(), 0i64));
}

/// Scaling distributes over addition: scaling the element-wise sum by
/// `k` equals the element-wise sum of the two scaled operands.
pub proof fn lemma_scale_distributes_over_add(a: Seq<i64>, b: Seq<i64>, k: i64)
    requires
        a.len() == b.len(),
        add_fits(a, b),
        scale_fits(a, k),
        scale_fits(b, k),
        scale_fits(add_seq(a, b), k),
    ensures
        add_fits(scale_seq(a, k), scale_seq(b, k)),
        scale_seq(add_seq(a, b), k) == add_seq(scale_seq(a, k), scale_seq(b, k)),
{
    assert forall|i: int|
        0 <= i < scale_seq(a, k).len() && i < scale_seq(b, k).len() implies in_elem(
        (#[trigger] scale_seq(a, k)[i]) + scale_seq(b, k)[i],
    ) by {
        assert(in_elem(a[i] + b[i]));
        assert(in_elem(a[i] * k));
        assert(in_elem(b[i] * k));
        assert(in_elem(add_seq(a, b)[i] * k));
        assert(add_seq(a, b)[i] == (a[i] + b[i]) as i64);
        lemma_mul_is_distributive_add_other_way(k as int, a[i] as int, b[i] as int);
        assert((a[i] + b[i]) * k == a[i] * k + b[i] * k);
    };
    assert(add_fits(scale_seq(a, k), scale_seq(b, k)));
    assert forall|i: int| 0 <= i < a.len() implies scale_seq(add_seq(a, b), k)[i] == add_seq(
        scale_seq(a, k),
        scale_seq(b, k),
    )[i] by {
        assert(in_elem(a[i] + b[i]));
        assert(in_elem(a[i] * k));
        assert(in_elem(b[i] * k));
        assert(in_elem(add_seq(a, b)[i] * k));
        assert(add_seq(a, b)[i] == (a[i] + b[i]) as i64);
        lemma_mul_is_distributive_add_other_way(k as int, a[i] as int, b[i] as int);
        assert((a[i] + b[i]) * k == a[i] * k + b[i] * k);
        assert(in_elem(scale_seq(a, k)[i] + scale_seq(b, k)[i]));
    };
    assert(scale_seq(add_seq(a, b), k) =~= add_seq(scale_seq(a, k), scale_seq(b, k)));
}

/// A full-range block copy of a buffer over its own shape is the
/// identity.
pub proof fn lemma_block_full_identity(d: Seq<i64>, dims: Seq<usize>)
    requires
        d.len() == size_of_shape(dims),
    ensures
        block_seq(d, dims, zero_starts(dims.len()), dims) == d,
{
    assert forall|k: int| 0 <= k < size_of_shape(dims) implies block_seq(
        d,
        dims,
        zero_starts(dims.len()),
        dims,
    )[k] == d[k] by {
        lemma_positive_size_all_positive(dims);
        lemma_flatten_unflatten(dims, k);
        assert(shifted_index(unflatten_index(dims, k), zero_starts(dims.len()))
            =~= unflatten_index(dims, k));
    };
    assert(block_seq(d, dims, zero_starts(dims.len()), dims) =~= d);
}

/// Re-extraction is idempotent: slicing a block out of a buffer and
/// then slicing the whole of the result again, with full ranges over
/// the new shape, returns the same data as the original selection.
pub proof fn lemma_slice_reslice_identity(
    data: Seq<i64>,
    s: Seq<usize>,
    starts: Seq<usize>,
    dims: Seq<usize>,
)
    requires
        data.len() == size_of_shape(s),
        s.len() == starts.len(),
        s.len() == dims.len(),
        forall|ax: int| 0 <= ax < s.len() ==> starts[ax] + dims[ax] <= s[ax],
    ensures
        block_seq(block_seq(data, s, starts, dims), dims, zero_starts(dims.len()), dims)
            == block_seq(data, s, starts, dims),
{
    lemma_block_full_identity(block_seq(data, s, starts, dims), dims);
}

} // verus!
