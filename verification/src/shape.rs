//! The shape and stride model: how a multi-dimensional index maps onto a
//! flat row-major buffer.
//!
//! A shape is a sequence of dimension sizes.  Its strides are row-major:
//! the last axis has stride 1 and every other axis has the stride of the
//! next axis times that axis's size, where a size-0 axis counts as size 1
//! so that every axis keeps a positive, well-defined stride.

use vstd::prelude::*;
use vstd::arithmetic::mul::*;
use vstd::arithmetic::div_mod::*;

verus! {

/// The number of elements a shape describes: the product of its dimension
/// sizes.  The empty shape describes a single scalar.
pub open spec fn size_of_shape(s: Seq<usize>) -> nat
    decreases s.len(),
{
    if s.len() == 0 {
        1
    } else {
        (s[0] as nat) * size_of_shape(s.skip(1))
    }
}

/// A dimension size with degenerate (size-0) axes counted as 1, the
/// convention used for strides.
pub open spec fn dim_or_one(d: usize) -> nat {
    if d == 0 {
        1
    } else {
        d as nat
    }
}

/// The product of the dimension sizes with size-0 axes counted as 1.
/// Always positive, and equal to `size_of_shape` when no axis is 0.
pub open spec fn padded_size_of(s: Seq<usize>) -> nat
    decreases s.len(),
{
    if s.len() == 0 {
        1
    } else {
        dim_or_one(s[0]) * padded_size_of(s.skip(1))
    }
}

/// The row-major stride of axis `ax`: the padded product of all dimension
/// sizes after `ax`.
pub open spec fn stride_of(s: Seq<usize>, ax: int) -> nat {
    padded_size_of(s.skip(ax + 1))
}

/// Every stride of the shape is representable as a `usize`.
pub open spec fn strides_fit(s: Seq<usize>) -> bool {
    forall|ax: int| 0 <= ax < s.len() ==> stride_of(s, ax) <= usize::MAX
}

/// Every dimension size is positive.
pub open spec fn all_positive(s: Seq<usize>) -> bool {
    forall|ax: int| 0 <= ax < s.len() ==> s[ax] > 0
}

/// `idx` is a multi-index that addresses one element of a tensor of shape
/// `s`: one component per axis, each strictly below that axis's size.
pub open spec fn valid_index(s: Seq<usize>, idx: Seq<usize>) -> bool {
    &&& idx.len() == s.len()
    &&& forall|ax: int| 0 <= ax < s.len() ==> idx[ax] < s[ax]
}

/// The flat row-major position of multi-index `idx` in shape `s`: the sum
/// over all axes of the index component times that axis's stride.
pub open spec fn flatten_index(s: Seq<usize>, idx: Seq<usize>) -> int
    decreases s.len(),
{
    if s.len() == 0 {
        0
    } else {
        (idx[0] as int) * stride_of(s, 0) + flatten_index(s.skip(1), idx.skip(1))
    }
}

/// The multi-index whose flat row-major position in shape `s` is `k`:
/// the first component is `k` divided by the first stride, and the rest
/// unflatten the remainder.
pub open spec fn unflatten_index(s: Seq<usize>, k: int) -> Seq<usize>
    decreases s.len(),
{
    if s.len() == 0 {
        Seq::empty()
    } else {
        seq![(k / stride_of(s, 0) as int) as usize] + unflatten_index(s.skip(1), k % stride_of(s, 0) as int)
    }
}

/// Strict lexicographic order on multi-indices of equal length.
pub open spec fn lex_less(x: Seq<usize>, y: Seq<usize>) -> bool
    decreases x.len(),
{
    if x.len() == 0 || y.len() == 0 {
        false
    } else if x[0] != y[0] {
        x[0] < y[0]
    } else {
        lex_less(x.skip(1), y.skip(1))
    }
}

/// The padded size is always at least 1.
pub proof fn lemma_padded_size_positive(s: Seq<usize>)
    ensures
        padded_size_of(s) >= 1,
    decreases s.len(),
{
    if s.len() > 0 {
        lemma_padded_size_positive(s.skip(1));
        lemma_mul_strictly_positive(dim_or_one(s[0]) as int, padded_size_of(s.skip(1)) as int);
    }
}

/// When every dimension is positive the padded size is the exact size.
pub proof fn lemma_size_eq_padded(s: Seq<usize>)
    requires
        all_positive(s),
    ensures
        size_of_shape(s) == padded_size_of(s),
    decreases s.len(),
{
    if s.len() > 0 {
        assert(all_positive(s.skip(1)));
        lemma_size_eq_padded(s.skip(1));
    }
}

/// A shape with a positive size has every dimension positive.
pub proof fn lemma_positive_size_all_positive(s: Seq<usize>)
    requires
        size_of_shape(s) > 0,
    ensures
        all_positive(s),
    decreases s.len(),
{
    if s.len() > 0 {
        assert(size_of_shape(s) == (s[0] as nat) * size_of_shape(s.skip(1)));
        lemma_mul_by_zero_is_zero(size_of_shape(s.skip(1)) as int);
        lemma_mul_by_zero_is_zero(s[0] as int);
        assert(s[0] > 0 && size_of_shape(s.skip(1)) > 0) by {
            if s[0] == 0 || size_of_shape(s.skip(1)) == 0 {
                assert(size_of_shape(s) == 0) by (nonlinear_arith)
                    requires
                        size_of_shape(s) == (s[0] as nat) * size_of_shape(s.skip(1)),
                        s[0] == 0 || size_of_shape(s.skip(1)) == 0,
                ;
            }
        };
        lemma_positive_size_all_positive(s.skip(1));
        assert forall|ax: int| 0 <= ax < s.len() implies s[ax] > 0 by {
            if ax > 0 {
                assert(s.skip(1)[ax - 1] == s[ax]);
            }
        };
    }
}

/// The size never exceeds the padded size.
pub proof fn lemma_size_le_padded(s: Seq<usize>)
    ensures
        size_of_shape(s) <= padded_size_of(s),
    decreases s.len(),
{
    if s.len() > 0 {
        lemma_size_le_padded(s.skip(1));
        assert((s[0] as nat) * size_of_shape(s.skip(1)) <= dim_or_one(s[0]) * padded_size_of(s.skip(1)))
            by (nonlinear_arith)
            requires
                size_of_shape(s.skip(1)) <= padded_size_of(s.skip(1)),
                dim_or_one(s[0]) >= s[0],
                s[0] >= 0,
        ;
    }
}

/// Componentwise no-larger padded dimensions give a no-larger padded
/// size.
pub proof fn lemma_padded_mono_or_one(a: Seq<usize>, b: Seq<usize>)
    requires
        a.len() == b.len(),
        forall|i: int| 0 <= i < a.len() ==> dim_or_one(a[i]) <= dim_or_one(b[i]),
    ensures
        padded_size_of(a) <= padded_size_of(b),
    decreases a.len(),
{
    if a.len() > 0 {
        assert forall|i: int| 0 <= i < a.skip(1).len() implies dim_or_one(#[trigger] a.skip(1)[i])
            <= dim_or_one(b.skip(1)[i]) by {
            assert(a.skip(1)[i] == a[i + 1]);
            assert(b.skip(1)[i] == b[i + 1]);
        };
        lemma_padded_mono_or_one(a.skip(1), b.skip(1));
        assert(dim_or_one(a[0]) * padded_size_of(a.skip(1)) <= dim_or_one(b[0]) * padded_size_of(
            b.skip(1),
        )) by (nonlinear_arith)
            requires
                padded_size_of(a.skip(1)) <= padded_size_of(b.skip(1)),
                dim_or_one(a[0]) <= dim_or_one(b[0]),
                padded_size_of(a.skip(1)) >= 0,
                dim_or_one(a[0]) >= 0,
        ;
    }
}

/// Componentwise no-larger dimensions give a no-larger padded size.
pub proof fn lemma_padded_mono(a: Seq<usize>, b: Seq<usize>)
    requires
        a.len() == b.len(),
        forall|i: int| 0 <= i < a.len() ==> a[i] <= b[i],
    ensures
        padded_size_of(a) <= padded_size_of(b),
{
    assert forall|i: int| 0 <= i < a.len() implies dim_or_one(#[trigger] a[i]) <= dim_or_one(
        b[i],
    ) by {
        assert(a[i] <= b[i]);
    };
    lemma_padded_mono_or_one(a, b);
}

/// The size of a concatenation is the product of the sizes.
pub proof fn lemma_size_concat(a: Seq<usize>, b: Seq<usize>)
    ensures
        size_of_shape(a + b) == size_of_shape(a) * size_of_shape(b),
    decreases a.len(),
{
    if a.len() == 0 {
        assert(a + b =~= b);
        lemma_mul_basics(size_of_shape(b) as int);
    } else {
        assert((a + b).skip(1) =~= a.skip(1) + b);
        lemma_size_concat(a.skip(1), b);
        assert((a + b)[0] == a[0]);
        let a0: int = a[0] as int;
        let s1: int = size_of_shape(a.skip(1)) as int;
        let sbv: int = size_of_shape(b) as int;
        assert(size_of_shape(a + b) == a0 * (s1 * sbv));
        lemma_mul_is_associative(a0, s1, sbv);
        assert(size_of_shape(a + b) == (a0 * s1) * sbv);
        assert(size_of_shape(a) == a0 * s1);
    }
}

/// The padded size of a concatenation is the product of the padded
/// sizes.
pub proof fn lemma_padded_concat(a: Seq<usize>, b: Seq<usize>)
    ensures
        padded_size_of(a + b) == padded_size_of(a) * padded_size_of(b),
    decreases a.len(),
{
    if a.len() == 0 {
        assert(a + b =~= b);
        lemma_mul_basics(padded_size_of(b) as int);
    } else {
        assert((a + b).skip(1) =~= a.skip(1) + b);
        lemma_padded_concat(a.skip(1), b);
        assert((a + b)[0] == a[0]);
        let a0: int = dim_or_one(a[0]) as int;
        let s1: int = padded_size_of(a.skip(1)) as int;
        let sbv: int = padded_size_of(b) as int;
        assert(padded_size_of(a + b) == a0 * (s1 * sbv));
        lemma_mul_is_associative(a0, s1, sbv);
        assert(padded_size_of(a + b) == (a0 * s1) * sbv);
        assert(padded_size_of(a) == a0 * s1);
    }
}

/// Componentwise no-larger dimensions give a no-larger size.
pub proof fn lemma_size_mono(a: Seq<usize>, b: Seq<usize>)
    requires
        a.len() == b.len(),
        forall|i: int| 0 <= i < a.len() ==> a[i] <= b[i],
    ensures
        size_of_shape(a) <= size_of_shape(b),
    decreases a.len(),
{
    if a.len() > 0 {
        assert(forall|i: int| 0 <= i < a.skip(1).len() ==> a.skip(1)[i] <= b.skip(1)[i]);
        lemma_size_mono(a.skip(1), b.skip(1));
        assert((a[0] as nat) * size_of_shape(a.skip(1)) <= (b[0] as nat) * size_of_shape(b.skip(1)))
            by (nonlinear_arith)
            requires
                size_of_shape(a.skip(1)) <= size_of_shape(b.skip(1)),
                a[0] <= b[0],
                size_of_shape(a.skip(1)) >= 0,
                a[0] >= 0,
        ;
    }
}

/// When the whole padded size is representable, so is every stride.
pub proof fn lemma_padded_bounds_strides(s: Seq<usize>)
    requires
        padded_size_of(s) <= usize::MAX,
    ensures
        strides_fit(s),
{
    assert forall|ax: int| 0 <= ax < s.len() implies stride_of(s, ax) <= usize::MAX by {
        assert(s =~= s.take(ax + 1) + s.skip(ax + 1));
        lemma_padded_concat(s.take(ax + 1), s.skip(ax + 1));
        lemma_padded_size_positive(s.take(ax + 1));
        assert(padded_size_of(s.skip(ax + 1)) <= padded_size_of(s)) by (nonlinear_arith)
            requires
                padded_size_of(s) == padded_size_of(s.take(ax + 1)) * padded_size_of(s.skip(ax + 1)),
                padded_size_of(s.take(ax + 1)) >= 1,
                padded_size_of(s.skip(ax + 1)) >= 0,
        ;
    };
}

/// Flat positions are never negative.
pub proof fn lemma_flatten_nonneg(s: Seq<usize>, idx: Seq<usize>)
    ensures
        flatten_index(s, idx) >= 0,
    decreases s.len(),
{
    if s.len() > 0 {
        lemma_flatten_nonneg(s.skip(1), idx.skip(1));
        lemma_mul_nonnegative(idx[0] as int, stride_of(s, 0) as int);
    }
}

/// A valid multi-index flattens to a position inside the buffer:
/// `0 <= flatten_index(s, idx) < size_of_shape(s)`.
pub proof fn lemma_flatten_bounds(s: Seq<usize>, idx: Seq<usize>)
    requires
        valid_index(s, idx),
    ensures
        0 <= flatten_index(s, idx) < size_of_shape(s),
    decreases s.len(),
{
    lemma_flatten_nonneg(s, idx);
    if s.len() > 0 {
        assert(valid_index(s.skip(1), idx.skip(1)));
        lemma_flatten_bounds(s.skip(1), idx.skip(1));
        assert(all_positive(s));
        assert(all_positive(s.skip(1)));
        lemma_size_eq_padded(s.skip(1));
        let t: int = size_of_shape(s.skip(1)) as int;
        assert(stride_of(s, 0) == padded_size_of(s.skip(1))) by {
            assert(s.skip(0int + 1) =~= s.skip(1));
        };
        assert((idx[0] as int) * t + flatten_index(s.skip(1), idx.skip(1)) < (s[0] as nat) * t)
            by (nonlinear_arith)
            requires
                idx[0] < s[0],
                0 <= flatten_index(s.skip(1), idx.skip(1)) < t,
        ;
    }
}

/// Unflattening a valid flat position gives back that position's valid
/// multi-index: `unflatten_index` is a right inverse of `flatten_index`.
pub proof fn lemma_flatten_unflatten(s: Seq<usize>, k: int)
    requires
        all_positive(s),
        0 <= k < size_of_shape(s),
    ensures
        valid_index(s, unflatten_index(s, k)),
        flatten_index(s, unflatten_index(s, k)) == k,
    decreases s.len(),
{
    if s.len() == 0 {
        assert(unflatten_index(s, k) =~= Seq::<usize>::empty());
    } else {
        assert(all_positive(s.skip(1)));
        lemma_size_eq_padded(s.skip(1));
        let t: int = size_of_shape(s.skip(1)) as int;
        assert(stride_of(s, 0) == t) by {
            assert(s.skip(0int + 1) =~= s.skip(1));
        };
        lemma_padded_size_positive(s.skip(1));
        let q: int = k / t;
        let r: int = k % t;
        lemma_fundamental_div_mod(k, t);
        lemma_mod_division_less_than_divisor(k, t);
        lemma_div_pos_is_pos(k, t);
        assert(0 <= r < t);
        assert(k == q * t + r);
        assert(q < s[0]) by (nonlinear_arith)
            requires
                k == q * t + r,
                k < (s[0] as nat) * t,
                0 <= r < t,
                q >= 0,
        ;
        lemma_flatten_unflatten(s.skip(1), r);
        let idx = unflatten_index(s, k);
        assert(idx == seq![q as usize] + unflatten_index(s.skip(1), r));
        assert(idx[0] == q as usize);
        assert(idx.skip(1) =~= unflatten_index(s.skip(1), r));
        assert(valid_index(s, idx)) by {
            assert forall|ax: int| 0 <= ax < s.len() implies idx[ax] < s[ax] by {
                if ax > 0 {
                    assert(idx.skip(1)[ax - 1] == idx[ax]);
                    assert(s.skip(1)[ax - 1] == s[ax]);
                }
            };
        };
        assert(flatten_index(s, idx) == (q as usize as int) * t + r);
    }
}

/// Flattening then unflattening gives back the same multi-index:
/// `unflatten_index` is a left inverse of `flatten_index`, so flattening
/// is injective on valid multi-indices.
pub proof fn lemma_unflatten_flatten(s: Seq<usize>, idx: Seq<usize>)
    requires
        valid_index(s, idx),
    ensures
        unflatten_index(s, flatten_index(s, idx)) == idx,
    decreases s.len(),
{
    if s.len() == 0 {
        assert(unflatten_index(s, 0) =~= idx);
    } else {
        assert(valid_index(s.skip(1), idx.skip(1)));
        assert(all_positive(s));
        assert(all_positive(s.skip(1)));
        lemma_size_eq_padded(s.skip(1));
        let t: int = size_of_shape(s.skip(1)) as int;
        assert(stride_of(s, 0) == t) by {
            assert(s.skip(0int + 1) =~= s.skip(1));
        };
        lemma_padded_size_positive(s.skip(1));
        lemma_flatten_bounds(s.skip(1), idx.skip(1));
        let r: int = flatten_index(s.skip(1), idx.skip(1));
        let k: int = flatten_index(s, idx);
        assert(k == (idx[0] as int) * t + r);
        lemma_fundamental_div_mod_converse_div(k, t, idx[0] as int, r);
        lemma_fundamental_div_mod_converse_mod(k, t, idx[0] as int, r);
        assert(k / t == idx[0] as int);
        assert(k % t == r);
        lemma_unflatten_flatten(s.skip(1), idx.skip(1));
        assert(unflatten_index(s, k) =~= idx);
    }
}

/// Computes the row-major strides of `shape`: the last axis has stride 1
/// and each axis before it has the next axis's stride times that axis's
/// size, size-0 axes counting as 1.  Returns `None` exactly when some
/// stride does not fit in a `usize`.
pub fn compute_strides(shape: &Vec<usize>) -> (r: Option<Vec<usize>>)
    ensures
        match r {
            Some(st) => {
                &&& strides_fit(shape@)
                &&& st@.len() == shape@.len()
                &&& forall|ax: int| 0 <= ax < shape@.len() ==> st@[ax] as nat == stride_of(shape@, ax)
            },
            None => !strides_fit(shape@),
        },
{
    let n: usize = shape.len();
    let mut st: Vec<usize> = vec![1; n];
    let mut acc: usize = 1;
    let mut ax: usize = n;
    proof {
        assert(shape@.skip(n as int) =~= Seq::<usize>::empty());
    }
    while ax > 0
        invariant
            ax <= n,
            n == shape@.len(),
            st@.len() == n,
            ax > 0 ==> acc as nat == padded_size_of(shape@.skip(ax as int)),
            forall|i: int| ax <= i < n ==> st@[i] as nat == stride_of(shape@, i),
        decreases ax,
    {
        ax = ax - 1;
        proof {
            assert(shape@.skip(ax as int).skip(1) =~= shape@.skip(ax + 1));
            assert(padded_size_of(shape@.skip(ax as int)) == dim_or_one(shape@[ax as int]) * padded_size_of(
                shape@.skip(ax + 1)));
        }
        st[ax] = acc;
        assert(st@[ax as int] as nat == stride_of(shape@, ax as int));
        if ax > 0 {
            let d: usize = if shape[ax] == 0 {
                1
            } else {
                shape[ax]
            };
            let ghost acc0: usize = acc;
            proof {
                assert((acc0 as nat) == padded_size_of(shape@.skip(ax + 1)));
                assert((d as nat) == dim_or_one(shape@[ax as int]));
            }
            acc = match acc.checked_mul(d) {
                Some(v) => v,
                None => {
                    proof {
                        assert(stride_of(shape@, ax - 1) == padded_size_of(shape@.skip(ax as int)));
                        assert(stride_of(shape@, ax - 1) > usize::MAX) by (nonlinear_arith)
                            requires
                                stride_of(shape@, ax - 1) == dim_or_one(shape@[ax as int]) * padded_size_of(
                                    shape@.skip(ax + 1)),
                                (acc as nat) == padded_size_of(shape@.skip(ax + 1)),
                                (d as nat) == dim_or_one(shape@[ax as int]),
                                (acc as nat) * (d as nat) > usize::MAX,
                        ;
                    }
                    return None;
                },
            };
            proof {
                assert((acc as nat) == (acc0 as nat) * (d as nat));
                lemma_mul_is_commutative(acc0 as int, d as int);
                assert((acc as nat) == padded_size_of(shape@.skip(ax as int)));
            }
        }
    }
    Some(st)
}

/// Computes the number of elements `shape` describes, the product of its
/// dimension sizes.  Returns `None` only when that product, or the padded
/// product behind one of the strides, does not fit in a `usize`.
pub fn checked_size(shape: &Vec<usize>) -> (r: Option<usize>)
    ensures
        match r {
            Some(v) => v as nat == size_of_shape(shape@),
            None => size_of_shape(shape@) > usize::MAX || !strides_fit(shape@),
        },
{
    let n: usize = shape.len();
    let mut acc: usize = 1;
    let mut ax: usize = n;
    proof {
        assert(shape@.skip(n as int) =~= Seq::<usize>::empty());
    }
    while ax > 0
        invariant
            ax <= n,
            n == shape@.len(),
            acc as nat == size_of_shape(shape@.skip(ax as int)),
        decreases ax,
    {
        ax = ax - 1;
        proof {
            assert(shape@.skip(ax as int).skip(1) =~= shape@.skip(ax + 1));
            assert(size_of_shape(shape@.skip(ax as int)) == (shape@[ax as int] as nat) * size_of_shape(
                shape@.skip(ax + 1)));
        }
        acc = match shape[ax].checked_mul(acc) {
            Some(v) => v,
            None => {
                proof {
                    lemma_checked_size_overflow(shape@, ax as int);
                }
                return None;
            },
        };
    }
    proof {
        assert(shape@.skip(0) =~= shape@);
    }
    Some(acc)
}

/// When the tail product starting at axis `ax` already overflows a
/// `usize`, either the whole size does or some stride does.
proof fn lemma_checked_size_overflow(s: Seq<usize>, ax: int)
    requires
        0 <= ax < s.len(),
        size_of_shape(s.skip(ax)) > usize::MAX,
    ensures
        size_of_shape(s) > usize::MAX || !strides_fit(s),
    decreases ax,
{
    lemma_size_le_padded(s.skip(ax));
    if ax == 0 {
        assert(s.skip(0) =~= s);
    } else {
        assert(stride_of(s, ax - 1) == padded_size_of(s.skip(ax)));
        assert(stride_of(s, ax - 1) > usize::MAX);
    }
}

/// Sums `idx[ax] * strides[ax]` over all axes: the flat row-major offset
/// of the multi-index `idx` within a buffer laid out by `strides`.
pub fn flat_offset(shape: &Vec<usize>, strides: &Vec<usize>, idx: &Vec<usize>) -> (r: usize)
    requires
        strides@.len() == shape@.len(),
        forall|ax: int| 0 <= ax < shape@.len() ==> strides@[ax] as nat == stride_of(shape@, ax),
        valid_index(shape@, idx@),
        size_of_shape(shape@) <= usize::MAX,
    ensures
        r == flatten_index(shape@, idx@),
        r < size_of_shape(shape@),
{
    proof {
        lemma_flatten_bounds(shape@, idx@);
    }
    let n: usize = shape.len();
    let mut acc: usize = 0;
    let mut ax: usize = 0;
    proof {
        assert(shape@.skip(0) =~= shape@);
        assert(idx@.skip(0) =~= idx@);
    }
    while ax < n
        invariant
            ax <= n,
            n == shape@.len(),
            strides@.len() == n,
            idx@.len() == n,
            forall|i: int| 0 <= i < n ==> strides@[i] as nat == stride_of(shape@, i),
            valid_index(shape@, idx@),
            size_of_shape(shape@) <= usize::MAX,
            acc + flatten_index(shape@.skip(ax as int), idx@.skip(ax as int)) == flatten_index(shape@, idx@),
            flatten_index(shape@, idx@) < size_of_shape(shape@),
            acc <= flatten_index(shape@, idx@),
        decreases n - ax,
    {
        proof {
            assert(shape@.skip(ax as int).skip(1) =~= shape@.skip(ax + 1));
            assert(idx@.skip(ax as int).skip(1) =~= idx@.skip(ax + 1));
            assert(shape@.skip(ax as int)[0] == shape@[ax as int]);
            assert(idx@.skip(ax as int)[0] == idx@[ax as int]);
            assert(stride_of(shape@.skip(ax as int), 0) == stride_of(shape@, ax as int)) by {
                assert(shape@.skip(ax as int).skip(1) =~= shape@.skip(ax + 1));
            };
            lemma_flatten_nonneg(shape@.skip(ax + 1), idx@.skip(ax + 1));
            lemma_mul_nonnegative(idx@[ax as int] as int, stride_of(shape@, ax as int) as int);
        }
        acc = acc + idx[ax] * strides[ax];
        ax = ax + 1;
    }
    proof {
        assert(shape@.skip(n as int) =~= Seq::<usize>::empty());
        assert(idx@.skip(n as int) =~= Seq::<usize>::empty());
    }
    acc
}

/// Splits the flat position `k` into one coordinate per axis: each axis's
/// coordinate is the remaining position divided by that axis's stride.
pub fn unflatten(shape: &Vec<usize>, strides: &Vec<usize>, k: usize) -> (r: Vec<usize>)
    requires
        strides@.len() == shape@.len(),
        forall|ax: int| 0 <= ax < shape@.len() ==> strides@[ax] as nat == stride_of(shape@, ax),
        all_positive(shape@),
        k < size_of_shape(shape@),
    ensures
        r@ == unflatten_index(shape@, k as int),
        valid_index(shape@, r@),
        flatten_index(shape@, r@) == k as int,
{
    proof {
        lemma_flatten_unflatten(shape@, k as int);
    }
    let n: usize = shape.len();
    let mut r: Vec<usize> = Vec::new();
    let mut rem: usize = k;
    let mut ax: usize = 0;
    proof {
        assert(shape@.skip(0) =~= shape@);
        assert(r@ + unflatten_index(shape@.skip(0), rem as int) =~= unflatten_index(shape@, k as int));
        lemma_size_eq_padded(shape@);
        lemma_size_le_padded(shape@);
    }
    while ax < n
        invariant
            ax <= n,
            n == shape@.len(),
            strides@.len() == n,
            forall|i: int| 0 <= i < n ==> strides@[i] as nat == stride_of(shape@, i),
            all_positive(shape@),
            r@.len() == ax,
            (rem as nat) < padded_size_of(shape@.skip(ax as int)),
            r@ + unflatten_index(shape@.skip(ax as int), rem as int) == unflatten_index(shape@, k as int),
        decreases n - ax,
    {
        proof {
            assert(shape@.skip(ax as int).skip(1) =~= shape@.skip(ax + 1));
            assert(stride_of(shape@.skip(ax as int), 0) == stride_of(shape@, ax as int));
            lemma_padded_size_positive(shape@.skip(ax + 1));
        }
        let t: usize = strides[ax];
        let q: usize = rem / t;
        let m: usize = rem % t;
        proof {
            let ti: int = t as int;
            lemma_fundamental_div_mod(rem as int, ti);
            lemma_mod_division_less_than_divisor(rem as int, ti);
            lemma_div_pos_is_pos(rem as int, ti);
            assert(unflatten_index(shape@.skip(ax as int), rem as int) == seq![q] + unflatten_index(
                shape@.skip(ax + 1), m as int));
            assert((r@ + unflatten_index(shape@.skip(ax as int), rem as int)) =~= (r@.push(q) + unflatten_index(
                shape@.skip(ax + 1), m as int)));
        }
        r.push(q);
        rem = m;
        ax = ax + 1;
    }
    proof {
        assert(shape@.skip(n as int) =~= Seq::<usize>::empty());
        assert(r@ + unflatten_index(shape@.skip(n as int), rem as int) =~= r@);
    }
    r
}

} // verus!
