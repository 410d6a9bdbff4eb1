//! Batched matrix multiplication with broadcasting of leading batch
//! dimensions.
//!
//! The trailing two axes of each operand form its matrix; a rank-1 left
//! operand counts as a 1xk row vector and a rank-1 right operand as a
//! kx1 column vector.  Whatever comes before the matrix axes is the
//! operand's batch shape; the two batch shapes are aligned on the right,
//! padded with 1s on the left, and broadcast axis by axis.

use vstd::prelude::*;
use vstd::pervasive::unreached;
use vstd::arithmetic::mul::{
    lemma_mul_basics, lemma_mul_inequality, lemma_mul_is_associative,
    lemma_mul_is_distributive_add_other_way, lemma_mul_nonnegative,
};
use crate::shape::{
    all_positive, checked_size, compute_strides, dim_or_one, flat_offset, flatten_index,
    lemma_flatten_bounds, lemma_padded_bounds_strides, lemma_padded_concat,
    lemma_padded_mono_or_one, lemma_padded_size_positive, lemma_positive_size_all_positive,
    lemma_size_concat, lemma_size_le_padded, padded_size_of, size_of_shape, stride_of, strides_fit,
    unflatten, unflatten_index, valid_index,
};
use crate::elems::in_elem;
use crate::tensor::{copy_prefix, Tensor, TensorErrors};

verus! {

/// The left operand's matrix row count: 1 for a rank-1 row vector, else
/// the second-to-last dimension.
pub open spec fn lhs_rows(s: Seq<usize>) -> usize {
    if s.len() == 1 {
        1usize
    } else {
        s[s.len() - 2]
    }
}

/// The left operand's matrix column count: the last dimension.
pub open spec fn lhs_cols(s: Seq<usize>) -> usize {
    s[s.len() - 1]
}

/// The right operand's matrix row count: the whole extent for a rank-1
/// column vector, else the second-to-last dimension.
pub open spec fn rhs_rows(s: Seq<usize>) -> usize {
    if s.len() == 1 {
        s[0]
    } else {
        s[s.len() - 2]
    }
}

/// The right operand's matrix column count: 1 for a rank-1 column
/// vector, else the last dimension.
pub open spec fn rhs_cols(s: Seq<usize>) -> usize {
    if s.len() == 1 {
        1usize
    } else {
        s[s.len() - 1]
    }
}

/// The operand's batch dimensions: every axis before the matrix axes.
pub open spec fn batch_dims(s: Seq<usize>) -> Seq<usize> {
    if s.len() <= 2 {
        Seq::empty()
    } else {
        s.take(s.len() - 2)
    }
}

/// The dimension of batch shape `b` at aligned position `i` when padded
/// on the left with 1s to length `l`.
pub open spec fn aligned_dim(b: Seq<usize>, l: int, i: int) -> usize {
    if i < l - b.len() {
        1usize
    } else {
        b[i - (l - b.len())]
    }
}

/// Two aligned batch dimensions broadcast together when they are equal
/// or one of them is 1.
pub open spec fn pair_ok(da: usize, db: usize) -> bool {
    da == db || da == 1 || db == 1
}

/// The broadcast of two compatible dimensions: a size-1 axis takes the
/// other's size.
pub open spec fn pair_bcast(da: usize, db: usize) -> usize {
    if da == 1 {
        db
    } else {
        da
    }
}

/// The length of the broadcast batch shape: the longer of the two batch
/// shapes.
pub open spec fn bcast_len(sa: Seq<usize>, sb: Seq<usize>) -> int {
    if batch_dims(sa).len() >= batch_dims(sb).len() {
        batch_dims(sa).len() as int
    } else {
        batch_dims(sb).len() as int
    }
}

/// Every aligned pair of batch dimensions broadcasts together.
pub open spec fn batch_ok(sa: Seq<usize>, sb: Seq<usize>) -> bool {
    forall|i: int|
        0 <= i < bcast_len(sa, sb) ==> pair_ok(
            #[trigger] aligned_dim(batch_dims(sa), bcast_len(sa, sb), i),
            aligned_dim(batch_dims(sb), bcast_len(sa, sb), i),
        )
}

/// The broadcast batch shape: axis by axis, the broadcast of the two
/// aligned batch dimensions.
pub open spec fn bcast_shape(sa: Seq<usize>, sb: Seq<usize>) -> Seq<usize> {
    Seq::new(
        bcast_len(sa, sb) as nat,
        |i: int|
            pair_bcast(
                aligned_dim(batch_dims(sa), bcast_len(sa, sb), i),
                aligned_dim(batch_dims(sb), bcast_len(sa, sb), i),
            ),
    )
}

/// The operands multiply: neither shape is empty, the left column count
/// is the right row count, and the batch shapes broadcast.
pub open spec fn mm_compat(sa: Seq<usize>, sb: Seq<usize>) -> bool {
    &&& sa.len() >= 1
    &&& sb.len() >= 1
    &&& lhs_cols(sa) == rhs_rows(sb)
    &&& batch_ok(sa, sb)
}

/// The result's shape: the broadcast batch shape followed by the matrix
/// rows and columns, with the axis of a rank-1 operand dropped.
pub open spec fn mm_out_shape(sa: Seq<usize>, sb: Seq<usize>) -> Seq<usize> {
    bcast_shape(sa, sb) + (if sa.len() == 1 {
        Seq::empty()
    } else {
        seq![lhs_rows(sa)]
    }) + (if sb.len() == 1 {
        Seq::empty()
    } else {
        seq![rhs_cols(sb)]
    })
}

/// A broadcast batch index projected onto one operand's batch shape:
/// the operand's size-1 axes contribute index 0, every other axis takes
/// the aligned component of `beta`.
pub open spec fn project_index(b: Seq<usize>, beta: Seq<usize>) -> Seq<usize> {
    Seq::new(
        b.len(),
        |i: int|
            if b[i] == 1 {
                0usize
            } else {
                beta[i + beta.len() - b.len()]
            },
    )
}

/// The flat offset in the left operand's buffer where its matrix block
/// for batch index `beta` begins.
pub open spec fn lhs_base(sa: Seq<usize>, sb: Seq<usize>, beta: Seq<usize>) -> int {
    flatten_index(batch_dims(sa), project_index(batch_dims(sa), beta)) * (lhs_rows(sa) * lhs_cols(
        sa,
    ))
}

/// The flat offset in the right operand's buffer where its matrix block
/// for batch index `beta` begins.
pub open spec fn rhs_base(sa: Seq<usize>, sb: Seq<usize>, beta: Seq<usize>) -> int {
    flatten_index(batch_dims(sb), project_index(batch_dims(sb), beta)) * (rhs_rows(sb) * rhs_cols(
        sb,
    ))
}

/// The inner product of `n` terms: element `ab + t` of `a` times element
/// `bb + t * step` of `b`, summed over `t` ascending.
pub open spec fn dot(a: Seq<i64>, b: Seq<i64>, ab: int, bb: int, step: int, n: int) -> int
    decreases n,
{
    if n <= 0 {
        0
    } else {
        dot(a, b, ab, bb, step, n - 1) + a[ab + (n - 1)] * b[bb + (n - 1) * step]
    }
}

/// One term of the contraction: the product at position `t`.
pub open spec fn prod_at(a: Seq<i64>, b: Seq<i64>, ab: int, bb: int, step: int, t: int) -> int {
    a[ab + t] * b[bb + t * step]
}

/// Every prefix sum of one cell's contraction is representable.
pub open spec fn cell_sums_fit(
    a: Seq<i64>,
    b: Seq<i64>,
    ab: int,
    bb: int,
    step: int,
    n: int,
) -> bool {
    forall|t: int| 0 <= t <= n ==> in_elem(#[trigger] dot(a, b, ab, bb, step, t))
}

/// Every product in one cell's contraction is representable.
pub open spec fn cell_prods_fit(
    a: Seq<i64>,
    b: Seq<i64>,
    ab: int,
    bb: int,
    step: int,
    n: int,
) -> bool {
    forall|t: int| 0 <= t < n ==> in_elem(#[trigger] prod_at(a, b, ab, bb, step, t))
}

/// The whole contraction of one output cell stays representable.
pub open spec fn mm_cell_fits(
    ad: Seq<i64>,
    bd: Seq<i64>,
    sa: Seq<usize>,
    sb: Seq<usize>,
    beta: Seq<usize>,
    i: int,
    j: int,
) -> bool {
    &&& cell_sums_fit(
        ad,
        bd,
        lhs_base(sa, sb, beta) + i * lhs_cols(sa),
        rhs_base(sa, sb, beta) + j,
        rhs_cols(sb) as int,
        lhs_cols(sa) as int,
    )
    &&& cell_prods_fit(
        ad,
        bd,
        lhs_base(sa, sb, beta) + i * lhs_cols(sa),
        rhs_base(sa, sb, beta) + j,
        rhs_cols(sb) as int,
        lhs_cols(sa) as int,
    )
}

/// Every output cell's contraction stays representable.
pub open spec fn mm_fits(ad: Seq<i64>, bd: Seq<i64>, sa: Seq<usize>, sb: Seq<usize>) -> bool {
    forall|beta: Seq<usize>, i: int, j: int|
        valid_index(bcast_shape(sa, sb), beta) && 0 <= i < lhs_rows(sa) && 0 <= j < rhs_cols(sb)
            ==> #[trigger] mm_cell_fits(ad, bd, sa, sb, beta, i, j)
}

/// The value of one cell of the result: the contraction of the left
/// operand's row `i` with the right operand's column `j` in the matrix
/// blocks that batch index `beta` selects, summed over the inner axis
/// ascending.
pub open spec fn mm_entry(
    ad: Seq<i64>,
    bd: Seq<i64>,
    sa: Seq<usize>,
    sb: Seq<usize>,
    beta: Seq<usize>,
    i: int,
    j: int,
) -> int {
    dot(
        ad,
        bd,
        lhs_base(sa, sb, beta) + i * lhs_cols(sa),
        rhs_base(sa, sb, beta) + j,
        rhs_cols(sb) as int,
        lhs_cols(sa) as int,
    )
}

/// The flat position of cell (`beta`, `i`, `j`) in the result's buffer.
pub open spec fn mm_out_pos(
    sa: Seq<usize>,
    sb: Seq<usize>,
    beta: Seq<usize>,
    i: int,
    j: int,
) -> int {
    flatten_index(bcast_shape(sa, sb), beta) * (lhs_rows(sa) * rhs_cols(sb)) + i * rhs_cols(sb) + j
}

/// Computes the shape that multiplying tensors of the two given shapes
/// produces.  An empty operand shape is rejected with `InvalidShape`; a
/// left column count different from the right row count, or two batch
/// dimensions that do not broadcast, with `MissMatchedShapes`.
#[verifier::loop_isolation(false)]
pub fn matmul_output_shape(a_shape: &Vec<usize>, b_shape: &Vec<usize>) -> (r: Result<
    Vec<usize>,
    TensorErrors,
>)
    ensures
        r == Err::<Vec<usize>, TensorErrors>(TensorErrors::InvalidShape) <==> (a_shape@.len() == 0
            || b_shape@.len() == 0),
        r == Err::<Vec<usize>, TensorErrors>(TensorErrors::MissMatchedShapes) <==> (a_shape@.len()
            >= 1 && b_shape@.len() >= 1 && !(lhs_cols(a_shape@) == rhs_rows(b_shape@) && batch_ok(
            a_shape@,
            b_shape@,
        ))),
        mm_compat(a_shape@, b_shape@) <==> (r matches Ok(v) && v@ == mm_out_shape(
            a_shape@,
            b_shape@,
        )),
{
    let ra: usize = a_shape.len();
    let rb: usize = b_shape.len();
    if ra == 0 || rb == 0 {
        return Err(TensorErrors::InvalidShape);
    }
    let ac: usize = a_shape[ra - 1];
    let br: usize = if rb == 1 {
        b_shape[0]
    } else {
        b_shape[rb - 2]
    };
    if ac != br {
        return Err(TensorErrors::MissMatchedShapes);
    }
    let la: usize = if ra <= 2 {
        0
    } else {
        ra - 2
    };
    let lb: usize = if rb <= 2 {
        0
    } else {
        rb - 2
    };
    let l: usize = if la >= lb {
        la
    } else {
        lb
    };
    proof {
        assert(batch_dims(a_shape@).len() == la);
        assert(batch_dims(b_shape@).len() == lb);
        assert(bcast_len(a_shape@, b_shape@) == l as int);
    }
    let mut out: Vec<usize> = Vec::new();
    let mut i: usize = 0;
    while i < l
        invariant
            i <= l,
            out@ == bcast_shape(a_shape@, b_shape@).take(i as int),
            forall|x: int|
                0 <= x < i ==> pair_ok(
                    #[trigger] aligned_dim(batch_dims(a_shape@), bcast_len(a_shape@, b_shape@), x),
                    aligned_dim(batch_dims(b_shape@), bcast_len(a_shape@, b_shape@), x),
                ),
        decreases l - i,
    {
        let da: usize = if i < l - la {
            1
        } else {
            a_shape[i - (l - la)]
        };
        let db: usize = if i < l - lb {
            1
        } else {
            b_shape[i - (l - lb)]
        };
        proof {
            if i >= l - la {
                assert(batch_dims(a_shape@)[i - (l - la)] == a_shape@[i - (l - la)]);
            }
            if i >= l - lb {
                assert(batch_dims(b_shape@)[i - (l - lb)] == b_shape@[i - (l - lb)]);
            }
            assert(da == aligned_dim(batch_dims(a_shape@), bcast_len(a_shape@, b_shape@), i as int));
            assert(db == aligned_dim(batch_dims(b_shape@), bcast_len(a_shape@, b_shape@), i as int));
        }
        if !(da == db || da == 1 || db == 1) {
            proof {
                assert(!pair_ok(
                    aligned_dim(batch_dims(a_shape@), bcast_len(a_shape@, b_shape@), i as int),
                    aligned_dim(batch_dims(b_shape@), bcast_len(a_shape@, b_shape@), i as int),
                ));
            }
            return Err(TensorErrors::MissMatchedShapes);
        }
        out.push(
            if da == 1 {
                db
            } else {
                da
            },
        );
        proof {
            assert(out@ =~= bcast_shape(a_shape@, b_shape@).take(i + 1));
        }
        i = i + 1;
    }
    proof {
        assert(batch_ok(a_shape@, b_shape@));
        assert(out@ =~= bcast_shape(a_shape@, b_shape@));
    }
    if ra != 1 {
        out.push(a_shape[ra - 2]);
    }
    if rb != 1 {
        out.push(b_shape[rb - 1]);
    }
    proof {
        assert(out@ =~= mm_out_shape(a_shape@, b_shape@));
    }
    Ok(out)
}

/// The size of a two-axis shape is the product of the two extents.
proof fn lemma_size_pair(r: usize, c: usize)
    ensures
        size_of_shape(seq![r, c]) == (r as nat) * (c as nat),
        padded_size_of(seq![r, c]) == dim_or_one(r) * dim_or_one(c),
{
    let s2 = seq![r, c];
    let s1 = seq![c];
    assert(s2.skip(1) =~= s1);
    assert(s1.skip(1) =~= Seq::<usize>::empty());
    assert(size_of_shape(Seq::<usize>::empty()) == 1);
    assert(padded_size_of(Seq::<usize>::empty()) == 1);
    assert(size_of_shape(s1) == (c as nat) * size_of_shape(s1.skip(1)));
    assert(padded_size_of(s1) == dim_or_one(c) * padded_size_of(s1.skip(1)));
    lemma_mul_basics(c as int);
    lemma_mul_basics(dim_or_one(c) as int);
    assert(size_of_shape(s1) == c as nat);
    assert(padded_size_of(s1) == dim_or_one(c));
    assert(size_of_shape(s2) == (r as nat) * size_of_shape(s2.skip(1)));
    assert(padded_size_of(s2) == dim_or_one(r) * padded_size_of(s2.skip(1)));
}

/// A left operand's size splits into its batch size times its matrix
/// size.
proof fn lemma_size_split_lhs(s: Seq<usize>)
    requires
        s.len() >= 1,
    ensures
        size_of_shape(s) == size_of_shape(batch_dims(s)) * ((lhs_rows(s) as nat) * (lhs_cols(
            s,
        ) as nat)),
{
    if s.len() == 1 {
        assert(s.skip(1) =~= Seq::<usize>::empty());
        lemma_mul_basics(s[0] as int);
    } else {
        assert(s =~= batch_dims(s) + seq![s[s.len() - 2], s[s.len() - 1]]);
        lemma_size_concat(batch_dims(s), seq![s[s.len() - 2], s[s.len() - 1]]);
        lemma_size_pair(s[s.len() - 2], s[s.len() - 1]);
    }
}

/// A right operand's size splits into its batch size times its matrix
/// size.
proof fn lemma_size_split_rhs(s: Seq<usize>)
    requires
        s.len() >= 1,
    ensures
        size_of_shape(s) == size_of_shape(batch_dims(s)) * ((rhs_rows(s) as nat) * (rhs_cols(
            s,
        ) as nat)),
{
    if s.len() == 1 {
        assert(s.skip(1) =~= Seq::<usize>::empty());
        lemma_mul_basics(s[0] as int);
    } else {
        assert(s =~= batch_dims(s) + seq![s[s.len() - 2], s[s.len() - 1]]);
        lemma_size_concat(batch_dims(s), seq![s[s.len() - 2], s[s.len() - 1]]);
        lemma_size_pair(s[s.len() - 2], s[s.len() - 1]);
    }
}

/// The middle part of the result shape: the kept matrix-row axis.
spec fn mid_lhs(sa: Seq<usize>) -> Seq<usize> {
    if sa.len() == 1 {
        Seq::empty()
    } else {
        seq![lhs_rows(sa)]
    }
}

/// The trailing part of the result shape: the kept matrix-column axis.
spec fn mid_rhs(sb: Seq<usize>) -> Seq<usize> {
    if sb.len() == 1 {
        Seq::empty()
    } else {
        seq![rhs_cols(sb)]
    }
}

/// The size of a one-axis shape is its extent.
proof fn lemma_size_single(d: usize)
    ensures
        size_of_shape(seq![d]) == d as nat,
        padded_size_of(seq![d]) == dim_or_one(d),
{
    let s1 = seq![d];
    assert(s1.skip(1) =~= Seq::<usize>::empty());
    assert(size_of_shape(Seq::<usize>::empty()) == 1);
    assert(padded_size_of(Seq::<usize>::empty()) == 1);
    assert(size_of_shape(s1) == (d as nat) * size_of_shape(s1.skip(1)));
    assert(padded_size_of(s1) == dim_or_one(d) * padded_size_of(s1.skip(1)));
    lemma_mul_basics(d as int);
    lemma_mul_basics(dim_or_one(d) as int);
}

/// The result's size splits into the broadcast batch size times the
/// result matrix size.
proof fn lemma_size_split_out(sa: Seq<usize>, sb: Seq<usize>)
    requires
        sa.len() >= 1,
        sb.len() >= 1,
    ensures
        size_of_shape(mm_out_shape(sa, sb)) == size_of_shape(bcast_shape(sa, sb)) * ((lhs_rows(
            sa,
        ) as nat) * (rhs_cols(sb) as nat)),
        padded_size_of(bcast_shape(sa, sb)) <= padded_size_of(mm_out_shape(sa, sb)),
        (lhs_rows(sa) as nat) * (rhs_cols(sb) as nat) <= padded_size_of(mid_lhs(sa))
            * padded_size_of(mid_rhs(sb)),
        padded_size_of(mid_lhs(sa)) * padded_size_of(mid_rhs(sb)) <= padded_size_of(
            mm_out_shape(sa, sb),
        ),
        padded_size_of(mm_out_shape(sa, sb)) == padded_size_of(bcast_shape(sa, sb)) * (
        padded_size_of(mid_lhs(sa)) * padded_size_of(mid_rhs(sb))),
{
    let bsh = bcast_shape(sa, sb);
    let ma = mid_lhs(sa);
    let mb = mid_rhs(sb);
    assert(mm_out_shape(sa, sb) == (bsh + ma) + mb);
    lemma_size_concat(bsh + ma, mb);
    lemma_size_concat(bsh, ma);
    lemma_padded_concat(bsh + ma, mb);
    lemma_padded_concat(bsh, ma);
    lemma_padded_size_positive(bsh);
    lemma_padded_size_positive(ma);
    lemma_padded_size_positive(mb);
    let ra_: nat = lhs_rows(sa) as nat;
    let cb_: nat = rhs_cols(sb) as nat;
    assert(size_of_shape(ma) == ra_) by {
        if sa.len() == 1 {
        } else {
            lemma_size_single(lhs_rows(sa));
        }
    };
    assert(size_of_shape(mb) == cb_) by {
        if sb.len() == 1 {
        } else {
            lemma_size_single(rhs_cols(sb));
        }
    };
    assert(ra_ <= padded_size_of(ma)) by {
        if sa.len() == 1 {
        } else {
            lemma_size_single(lhs_rows(sa));
            lemma_size_le_padded(ma);
        }
    };
    assert(cb_ <= padded_size_of(mb)) by {
        if sb.len() == 1 {
        } else {
            lemma_size_single(rhs_cols(sb));
            lemma_size_le_padded(mb);
        }
    };
    assert(size_of_shape(mm_out_shape(sa, sb)) == size_of_shape(bsh) * (ra_ * cb_)) by {
        lemma_mul_is_associative(size_of_shape(bsh) as int, ra_ as int, cb_ as int);
    };
    assert(ra_ * cb_ <= padded_size_of(ma) * padded_size_of(mb)) by (nonlinear_arith)
        requires
            ra_ <= padded_size_of(ma),
            cb_ <= padded_size_of(mb),
            ra_ >= 0,
            cb_ >= 0,
    ;
    assert(padded_size_of(mm_out_shape(sa, sb)) == padded_size_of(bsh) * (padded_size_of(ma)
        * padded_size_of(mb))) by {
        lemma_mul_is_associative(
            padded_size_of(bsh) as int,
            padded_size_of(ma) as int,
            padded_size_of(mb) as int,
        );
    };
    assert(padded_size_of(bsh) <= padded_size_of(mm_out_shape(sa, sb))) by (nonlinear_arith)
        requires
            padded_size_of(mm_out_shape(sa, sb)) == padded_size_of(bsh) * (padded_size_of(ma)
                * padded_size_of(mb)),
            padded_size_of(ma) >= 1,
            padded_size_of(mb) >= 1,
            padded_size_of(bsh) >= 0,
    ;
    assert(padded_size_of(ma) * padded_size_of(mb) <= padded_size_of(mm_out_shape(sa, sb)))
        by (nonlinear_arith)
        requires
            padded_size_of(mm_out_shape(sa, sb)) == padded_size_of(bsh) * (padded_size_of(ma)
                * padded_size_of(mb)),
            padded_size_of(bsh) >= 1,
            padded_size_of(ma) * padded_size_of(mb) >= 0,
    ;
}

/// An operand's padded batch size never exceeds the padded broadcast
/// batch size.
proof fn lemma_batch_padded_le(ba: Seq<usize>, bsh: Seq<usize>, al: int)
    requires
        0 <= al,
        bsh.len() == al + ba.len(),
        forall|i: int| 0 <= i < ba.len() ==> dim_or_one(#[trigger] ba[i]) <= dim_or_one(
            bsh[al + i],
        ),
    ensures
        padded_size_of(ba) <= padded_size_of(bsh),
{
    assert(bsh =~= bsh.take(al) + bsh.skip(al));
    lemma_padded_concat(bsh.take(al), bsh.skip(al));
    lemma_padded_size_positive(bsh.take(al));
    assert forall|i: int| 0 <= i < ba.len() implies dim_or_one(#[trigger] ba[i]) <= dim_or_one(
        bsh.skip(al)[i],
    ) by {
        assert(bsh.skip(al)[i] == bsh[al + i]);
    };
    lemma_padded_mono_or_one(ba, bsh.skip(al));
    assert(padded_size_of(bsh.skip(al)) <= padded_size_of(bsh)) by (nonlinear_arith)
        requires
            padded_size_of(bsh) == padded_size_of(bsh.take(al)) * padded_size_of(bsh.skip(al)),
            padded_size_of(bsh.take(al)) >= 1,
            padded_size_of(bsh.skip(al)) >= 0,
    ;
}

/// A valid broadcast batch index projects to a valid batch index of
/// either operand, and the operand's batch dimensions stay under the
/// broadcast dimensions.
proof fn lemma_project_valid(ba: Seq<usize>, bsh: Seq<usize>, beta: Seq<usize>, al: int)
    requires
        0 <= al,
        bsh.len() == al + ba.len(),
        valid_index(bsh, beta),
        forall|i: int|
            0 <= i < ba.len() ==> pair_ok(#[trigger] ba[i], ba[i]) && (ba[i] == 1 || bsh[al + i]
                == ba[i]),
    ensures
        valid_index(ba, project_index(ba, beta)),
{
    assert forall|i: int| 0 <= i < ba.len() implies #[trigger] project_index(ba, beta)[i]
        < ba[i] by {
        if ba[i] == 1 {
        } else {
            assert(beta[al + i] < bsh[al + i]);
        }
    };
}

/// The element at flat position `p` of the result buffer: decompose `p`
/// into its batch block, row and column, and take that cell's
/// contraction.
spec fn mm_flat_entry(ad: Seq<i64>, bd: Seq<i64>, sa: Seq<usize>, sb: Seq<usize>, p: int) -> i64 {
    let cells = (lhs_rows(sa) as int) * (rhs_cols(sb) as int);
    let cols = rhs_cols(sb) as int;
    mm_entry(
        ad,
        bd,
        sa,
        sb,
        unflatten_index(bcast_shape(sa, sb), p / cells),
        (p % cells) / cols,
        (p % cells) % cols,
    ) as i64
}

/// Every filled position of the result buffer already holds its cell's
/// value.
spec fn mm_filled(
    out: Seq<i64>,
    ad: Seq<i64>,
    bd: Seq<i64>,
    sa: Seq<usize>,
    sb: Seq<usize>,
) -> bool {
    forall|p: int| 0 <= p < out.len() ==> out[p] == #[trigger] mm_flat_entry(ad, bd, sa, sb, p)
}

/// Projects a broadcast batch index onto one operand's batch shape:
/// `pad` is how many 1s pad that operand's batch shape on the left.
fn project_batch(batch: &Vec<usize>, beta: &Vec<usize>, pad: usize) -> (r: Vec<usize>)
    requires
        pad + batch@.len() == beta@.len(),
    ensures
        r@ == project_index(batch@, beta@),
{
    let n: usize = batch.len();
    let mut r: Vec<usize> = Vec::new();
    let mut u: usize = 0;
    proof {
        assert(beta.len() == beta@.len());
    }
    while u < n
        invariant
            u <= n,
            n == batch@.len(),
            pad + n == beta@.len(),
            beta@.len() <= usize::MAX,
            r@ == project_index(batch@, beta@).take(u as int),
        decreases n - u,
    {
        r.push(
            if batch[u] == 1 {
                0
            } else {
                beta[u + pad]
            },
        );
        proof {
            assert(r@ =~= project_index(batch@, beta@).take(u + 1));
        }
        u = u + 1;
    }
    proof {
        assert(project_index(batch@, beta@).take(n as int) =~= project_index(batch@, beta@));
    }
    r
}

/// Contracts one output cell: elements `row..row + n` of `a` against the
/// column of `b` that starts at `col` and steps by `step`, summed with
/// `t` ascending.
fn contract_cell(a: &Vec<i64>, b: &Vec<i64>, row: usize, col: usize, step: usize, n: usize) -> (r:
    i64)
    requires
        row + n <= a@.len(),
        n > 0 ==> (col as int) + ((n - 1) as int) * (step as int) < b@.len(),
        cell_sums_fit(a@, b@, row as int, col as int, step as int, n as int),
        cell_prods_fit(a@, b@, row as int, col as int, step as int, n as int),
    ensures
        r as int == dot(a@, b@, row as int, col as int, step as int, n as int),
{
    let mut acc: i64 = 0;
    let mut t: usize = 0;
    proof {
        assert(a.len() == a@.len());
        assert(b.len() == b@.len());
        assert(in_elem(dot(a@, b@, row as int, col as int, step as int, 0)));
    }
    while t < n
        invariant
            t <= n,
            row + n <= a@.len(),
            a@.len() <= usize::MAX,
            b@.len() <= usize::MAX,
            n > 0 ==> (col as int) + ((n - 1) as int) * (step as int) < b@.len(),
            cell_sums_fit(a@, b@, row as int, col as int, step as int, n as int),
            cell_prods_fit(a@, b@, row as int, col as int, step as int, n as int),
            acc as int == dot(a@, b@, row as int, col as int, step as int, t as int),
        decreases n - t,
    {
        proof {
            assert(in_elem(prod_at(a@, b@, row as int, col as int, step as int, t as int)));
            assert(in_elem(dot(a@, b@, row as int, col as int, step as int, t + 1)));
            lemma_mul_inequality(t as int, (n - 1) as int, step as int);
            lemma_mul_nonnegative(t as int, step as int);
        }
        let av: i64 = a[row + t];
        let bv: i64 = b[col + t * step];
        proof {
            assert(av as int * bv as int == prod_at(
                a@,
                b@,
                row as int,
                col as int,
                step as int,
                t as int,
            ));
            assert(dot(a@, b@, row as int, col as int, step as int, t + 1) == dot(
                a@,
                b@,
                row as int,
                col as int,
                step as int,
                t as int,
            ) + prod_at(a@, b@, row as int, col as int, step as int, t as int));
        }
        acc = acc + av * bv;
        t = t + 1;
    }
    acc
}

/// One operand's matrix size is representable whenever its strides are
/// and its whole size is.
proof fn lemma_mat_size_bound(s: Seq<usize>, rows: usize, cols: usize)
    requires
        s.len() >= 1,
        strides_fit(s),
        size_of_shape(s) <= usize::MAX,
        s.len() >= 2 ==> rows == s[s.len() - 2] && cols == s[s.len() - 1],
        s.len() == 1 ==> rows as int * (cols as int) <= usize::MAX,
    ensures
        (rows as nat) * (cols as nat) <= usize::MAX,
{
    if s.len() == 1 {
    } else if s.len() == 2 {
        assert(s =~= seq![rows, cols]);
        lemma_size_pair(rows, cols);
    } else {
        assert(s.skip(s.len() - 2) =~= seq![rows, cols]);
        assert(stride_of(s, s.len() - 3) == padded_size_of(s.skip(s.len() - 2)));
        lemma_size_pair(rows, cols);
        assert((rows as nat) * (cols as nat) <= dim_or_one(rows) * dim_or_one(cols))
            by (nonlinear_arith)
            requires
                dim_or_one(rows) >= rows,
                dim_or_one(cols) >= cols,
                rows >= 0,
                cols >= 0,
        ;
        assert(stride_of(s, s.len() - 3) <= usize::MAX);
    }
}

/// Everything the multiplication needs to know about sizes before it
/// runs: every derived shape keeps representable strides and sizes, and
/// each operand's size splits into its batch size times its matrix size.
#[verifier::rlimit(100)]
proof fn lemma_mm_prep(sa: Seq<usize>, sb: Seq<usize>)
    requires
        mm_compat(sa, sb),
        padded_size_of(mm_out_shape(sa, sb)) <= usize::MAX,
        strides_fit(sa),
        strides_fit(sb),
        size_of_shape(sa) <= usize::MAX,
        size_of_shape(sb) <= usize::MAX,
    ensures
        strides_fit(bcast_shape(sa, sb)),
        strides_fit(batch_dims(sa)),
        strides_fit(batch_dims(sb)),
        strides_fit(mm_out_shape(sa, sb)),
        size_of_shape(bcast_shape(sa, sb)) <= padded_size_of(bcast_shape(sa, sb)),
        padded_size_of(bcast_shape(sa, sb)) <= usize::MAX,
        size_of_shape(batch_dims(sa)) <= usize::MAX,
        size_of_shape(batch_dims(sb)) <= usize::MAX,
        size_of_shape(sa) == size_of_shape(batch_dims(sa)) * ((lhs_rows(sa) as nat) * (lhs_cols(
            sa,
        ) as nat)),
        size_of_shape(sb) == size_of_shape(batch_dims(sb)) * ((rhs_rows(sb) as nat) * (rhs_cols(
            sb,
        ) as nat)),
        (lhs_rows(sa) as nat) * (lhs_cols(sa) as nat) <= usize::MAX,
        (rhs_rows(sb) as nat) * (rhs_cols(sb) as nat) <= usize::MAX,
        (lhs_rows(sa) as nat) * (rhs_cols(sb) as nat) <= usize::MAX,
        size_of_shape(bcast_shape(sa, sb)) * ((lhs_rows(sa) as nat) * (rhs_cols(sb) as nat))
            <= usize::MAX,
        size_of_shape(mm_out_shape(sa, sb)) == size_of_shape(bcast_shape(sa, sb)) * ((lhs_rows(
            sa,
        ) as nat) * (rhs_cols(sb) as nat)),
{
    let bsh = bcast_shape(sa, sb);
    let l: int = bcast_len(sa, sb);
    let la: int = batch_dims(sa).len() as int;
    let lb: int = batch_dims(sb).len() as int;
    lemma_size_split_out(sa, sb);
    lemma_padded_bounds_strides(mm_out_shape(sa, sb));
    lemma_padded_bounds_strides(bsh);
    lemma_size_le_padded(bsh);
    lemma_size_split_lhs(sa);
    lemma_size_split_rhs(sb);
    assert forall|i: int| 0 <= i < la implies dim_or_one(#[trigger] batch_dims(sa)[i])
        <= dim_or_one(bsh[(l - la) + i]) by {
        assert(aligned_dim(batch_dims(sa), l, (l - la) + i) == batch_dims(sa)[i]);
        assert(pair_ok(
            aligned_dim(batch_dims(sa), l, (l - la) + i),
            aligned_dim(batch_dims(sb), l, (l - la) + i),
        ));
        assert(bsh[(l - la) + i] == pair_bcast(
            aligned_dim(batch_dims(sa), l, (l - la) + i),
            aligned_dim(batch_dims(sb), l, (l - la) + i),
        ));
    };
    lemma_batch_padded_le(batch_dims(sa), bsh, l - la);
    assert forall|i: int| 0 <= i < lb implies dim_or_one(#[trigger] batch_dims(sb)[i])
        <= dim_or_one(bsh[(l - lb) + i]) by {
        assert(aligned_dim(batch_dims(sb), l, (l - lb) + i) == batch_dims(sb)[i]);
        assert(pair_ok(
            aligned_dim(batch_dims(sa), l, (l - lb) + i),
            aligned_dim(batch_dims(sb), l, (l - lb) + i),
        ));
        assert(bsh[(l - lb) + i] == pair_bcast(
            aligned_dim(batch_dims(sa), l, (l - lb) + i),
            aligned_dim(batch_dims(sb), l, (l - lb) + i),
        ));
    };
    lemma_batch_padded_le(batch_dims(sb), bsh, l - lb);
    lemma_size_le_padded(batch_dims(sa));
    lemma_size_le_padded(batch_dims(sb));
    lemma_padded_bounds_strides(batch_dims(sa));
    lemma_padded_bounds_strides(batch_dims(sb));
    if sa.len() == 1 {
        lemma_mul_basics(lhs_cols(sa) as int);
    }
    lemma_mat_size_bound(sa, lhs_rows(sa), lhs_cols(sa));
    if sb.len() == 1 {
        lemma_mul_basics(rhs_rows(sb) as int);
    }
    lemma_mat_size_bound(sb, rhs_rows(sb), rhs_cols(sb));
    assert((lhs_rows(sa) as nat) * (rhs_cols(sb) as nat) <= usize::MAX) by (nonlinear_arith)
        requires
            (lhs_rows(sa) as nat) * (rhs_cols(sb) as nat) <= padded_size_of(mid_lhs(sa))
                * padded_size_of(mid_rhs(sb)),
            padded_size_of(mid_lhs(sa)) * padded_size_of(mid_rhs(sb)) <= padded_size_of(
                mm_out_shape(sa, sb),
            ),
            padded_size_of(mm_out_shape(sa, sb)) <= usize::MAX,
    ;
    assert(size_of_shape(bsh) * ((lhs_rows(sa) as nat) * (rhs_cols(sb) as nat)) <= usize::MAX)
        by (nonlinear_arith)
        requires
            size_of_shape(bsh) <= padded_size_of(bsh),
            (lhs_rows(sa) as nat) * (rhs_cols(sb) as nat) <= padded_size_of(mid_lhs(sa))
                * padded_size_of(mid_rhs(sb)),
            padded_size_of(mm_out_shape(sa, sb)) == padded_size_of(bsh) * (padded_size_of(
                mid_lhs(sa),
            ) * padded_size_of(mid_rhs(sb))),
            padded_size_of(mm_out_shape(sa, sb)) <= usize::MAX,
            size_of_shape(bsh) >= 0,
            padded_size_of(bsh) >= 0,
            (lhs_rows(sa) as nat) * (rhs_cols(sb) as nat) >= 0,
    ;
}

/// For one batch index of the fill: the projections onto the operand
/// batch shapes are valid, and each operand's matrix block lies inside
/// its buffer.
proof fn lemma_mm_bases(sa: Seq<usize>, sb: Seq<usize>, beta: Seq<usize>)
    requires
        mm_compat(sa, sb),
        valid_index(bcast_shape(sa, sb), beta),
    ensures
        valid_index(batch_dims(sa), project_index(batch_dims(sa), beta)),
        valid_index(batch_dims(sb), project_index(batch_dims(sb), beta)),
        0 <= lhs_base(sa, sb, beta),
        lhs_base(sa, sb, beta) + (lhs_rows(sa) as int) * (lhs_cols(sa) as int) <= size_of_shape(
            sa,
        ),
        0 <= rhs_base(sa, sb, beta),
        rhs_base(sa, sb, beta) + (rhs_rows(sb) as int) * (rhs_cols(sb) as int) <= size_of_shape(
            sb,
        ),
{
    let bsh = bcast_shape(sa, sb);
    let l: int = bcast_len(sa, sb);
    let la: int = batch_dims(sa).len() as int;
    let lb: int = batch_dims(sb).len() as int;
    assert forall|i: int| 0 <= i < la implies pair_ok(
        #[trigger] batch_dims(sa)[i],
        batch_dims(sa)[i],
    ) && (batch_dims(sa)[i] == 1 || bsh[(l - la) + i] == batch_dims(sa)[i]) by {
        assert(aligned_dim(batch_dims(sa), l, (l - la) + i) == batch_dims(sa)[i]);
        assert(pair_ok(
            aligned_dim(batch_dims(sa), l, (l - la) + i),
            aligned_dim(batch_dims(sb), l, (l - la) + i),
        ));
    };
    lemma_project_valid(batch_dims(sa), bsh, beta, l - la);
    assert forall|i: int| 0 <= i < lb implies pair_ok(
        #[trigger] batch_dims(sb)[i],
        batch_dims(sb)[i],
    ) && (batch_dims(sb)[i] == 1 || bsh[(l - lb) + i] == batch_dims(sb)[i]) by {
        assert(aligned_dim(batch_dims(sb), l, (l - lb) + i) == batch_dims(sb)[i]);
        assert(pair_ok(
            aligned_dim(batch_dims(sa), l, (l - lb) + i),
            aligned_dim(batch_dims(sb), l, (l - lb) + i),
        ));
    };
    lemma_project_valid(batch_dims(sb), bsh, beta, l - lb);
    lemma_flatten_bounds(batch_dims(sa), project_index(batch_dims(sa), beta));
    lemma_flatten_bounds(batch_dims(sb), project_index(batch_dims(sb), beta));
    lemma_size_split_lhs(sa);
    lemma_size_split_rhs(sb);
    let fa: int = flatten_index(batch_dims(sa), project_index(batch_dims(sa), beta));
    let fb: int = flatten_index(batch_dims(sb), project_index(batch_dims(sb), beta));
    lemma_mul_nonnegative(fa, (lhs_rows(sa) as int) * (lhs_cols(sa) as int));
    lemma_mul_nonnegative(fb, (rhs_rows(sb) as int) * (rhs_cols(sb) as int));
    assert(fa * ((lhs_rows(sa) as int) * (lhs_cols(sa) as int)) + (lhs_rows(sa) as int) * (
    lhs_cols(sa) as int) <= size_of_shape(sa)) by (nonlinear_arith)
        requires
            fa < size_of_shape(batch_dims(sa)),
            size_of_shape(sa) == size_of_shape(batch_dims(sa)) * ((lhs_rows(sa) as nat) * (
            lhs_cols(sa) as nat)),
            (lhs_rows(sa) as int) * (lhs_cols(sa) as int) >= 0,
    ;
    assert(fb * ((rhs_rows(sb) as int) * (rhs_cols(sb) as int)) + (rhs_rows(sb) as int) * (
    rhs_cols(sb) as int) <= size_of_shape(sb)) by (nonlinear_arith)
        requires
            fb < size_of_shape(batch_dims(sb)),
            size_of_shape(sb) == size_of_shape(batch_dims(sb)) * ((rhs_rows(sb) as nat) * (
            rhs_cols(sb) as nat)),
            (rhs_rows(sb) as int) * (rhs_cols(sb) as int) >= 0,
    ;
}

/// Fills one batch block of the result: every cell (`i`, `j`) of the
/// matrix block that batch index `beta` selects, rows outermost, columns
/// within a row, appended to `out` in order.
#[verifier::loop_isolation(false)]
#[verifier::rlimit(100)]
fn mm_fill_block(
    out: &mut Vec<i64>,
    a: &Vec<i64>,
    b: &Vec<i64>,
    abase: usize,
    bbase: usize,
    ar: usize,
    ac: usize,
    bc: usize,
    arbc: usize,
    bf: usize,
    Ghost(sa): Ghost<Seq<usize>>,
    Ghost(sb): Ghost<Seq<usize>>,
    Ghost(beta): Ghost<Seq<usize>>,
)
    requires
        mm_compat(sa, sb),
        valid_index(bcast_shape(sa, sb), beta),
        flatten_index(bcast_shape(sa, sb), beta) == bf as int,
        ar == lhs_rows(sa),
        ac == lhs_cols(sa),
        bc == rhs_cols(sb),
        arbc as int == (ar as int) * (bc as int),
        abase as int == lhs_base(sa, sb, beta),
        bbase as int == rhs_base(sa, sb, beta),
        a@.len() == size_of_shape(sa),
        b@.len() == size_of_shape(sb),
        mm_fits(a@, b@, sa, sb),
        old(out)@.len() == (bf as int) * (arbc as int),
        mm_filled(old(out)@, a@, b@, sa, sb),
    ensures
        final(out)@.len() == (bf as int) * (arbc as int) + (arbc as int),
        mm_filled(final(out)@, a@, b@, sa, sb),
{
    let ghost ad: Seq<i64> = a@;
    let ghost bd: Seq<i64> = b@;
    proof {
        lemma_mm_bases(sa, sb, beta);
        crate::shape::lemma_unflatten_flatten(bcast_shape(sa, sb), beta);
        assert(a.len() == a@.len());
        assert(b.len() == b@.len());
        lemma_mul_basics(bc as int);
        if ac == 0 {
            assert(rhs_rows(sb) == ac);
            assert((rhs_rows(sb) as int) * (rhs_cols(sb) as int) == 0) by (nonlinear_arith)
                requires
                    rhs_rows(sb) == 0,
            ;
            lemma_mul_basics(flatten_index(batch_dims(sb), project_index(batch_dims(sb), beta)));
            assert(bbase == 0);
        }
    }
    let mut i: usize = 0;
    while i < ar
        invariant
            i <= ar,
            out@.len() == (bf as int) * (arbc as int) + (i as int) * (bc as int),
            mm_filled(out@, ad, bd, sa, sb),
        decreases ar - i,
    {
        proof {
            assert((i as int) * (bc as int) + (bc as int) <= arbc as int) by (nonlinear_arith)
                requires
                    i < ar,
                    arbc as int == (ar as int) * (bc as int),
                    bc >= 0,
            ;
            assert((i as int) * (ac as int) + (ac as int) <= (ar as int) * (ac as int))
                by (nonlinear_arith)
                requires
                    i < ar,
                    ac >= 0,
            ;
        }
        let row: usize = abase + i * ac;
        let mut j: usize = 0;
        while j < bc
            invariant
                j <= bc,
                out@.len() == (bf as int) * (arbc as int) + (i as int) * (bc as int) + (j as int),
                mm_filled(out@, ad, bd, sa, sb),
            decreases bc - j,
        {
            proof {
                assert(mm_cell_fits(ad, bd, sa, sb, beta, i as int, j as int));
                assert(row as int == lhs_base(sa, sb, beta) + (i as int) * (lhs_cols(sa) as int));
                assert((bbase + j) as int == rhs_base(sa, sb, beta) + (j as int));
                assert(row + ac <= a@.len());
                if ac > 0 {
                    assert(((ac - 1) as int) * (bc as int) + (bc as int) == (ac as int) * (
                    bc as int)) by {
                        lemma_mul_is_distributive_add_other_way(bc as int, (ac - 1) as int, 1);
                        lemma_mul_basics(bc as int);
                    };
                    assert((bc as int) <= (ac as int) * (bc as int)) by (nonlinear_arith)
                        requires
                            ac >= 1,
                            bc >= 0,
                    ;
                    assert((rhs_rows(sb) as int) * (rhs_cols(sb) as int) == (ac as int) * (
                    bc as int));
                    assert((bbase as int) + (j as int) + ((ac - 1) as int) * (bc as int)
                        < b@.len());
                }
            }
            let acc: i64 = contract_cell(a, b, row, bbase + j, bc, ac);
            let ghost prev: Seq<i64> = out@;
            proof {
                assert(acc as int == mm_entry(ad, bd, sa, sb, beta, i as int, j as int));
                assert(in_elem(dot(ad, bd, row as int, (bbase + j) as int, bc as int, ac as int)));
                let p: int = prev.len() as int;
                let rem: int = (i as int) * (bc as int) + (j as int);
                lemma_mul_nonnegative(i as int, bc as int);
                assert(0 <= rem < arbc as int);
                vstd::arithmetic::div_mod::lemma_fundamental_div_mod_converse(
                    p,
                    arbc as int,
                    bf as int,
                    rem,
                );
                vstd::arithmetic::div_mod::lemma_fundamental_div_mod_converse(
                    rem,
                    bc as int,
                    i as int,
                    j as int,
                );
                assert(unflatten_index(bcast_shape(sa, sb), bf as int) == beta);
                assert(mm_flat_entry(ad, bd, sa, sb, p) == acc);
            }
            out.push(acc);
            proof {
                assert forall|p2: int| 0 <= p2 < out@.len() implies out@[p2]
                    == #[trigger] mm_flat_entry(ad, bd, sa, sb, p2) by {
                    if p2 < prev.len() {
                        assert(out@[p2] == prev[p2]);
                    } else {
                        assert(out@[p2] == acc);
                    }
                };
            }
            j = j + 1;
        }
        proof {
            assert((i + 1) * (bc as int) == (i as int) * (bc as int) + (bc as int)) by {
                lemma_mul_is_distributive_add_other_way(bc as int, i as int, 1);
                lemma_mul_basics(bc as int);
            };
        }
        i = i + 1;
    }
    proof {
        assert((ar as int) * (bc as int) == arbc as int);
    }
}

impl Tensor {
    /// Batched matrix multiplication with broadcasting, following the
    /// rules of `mm_compat` and `mm_out_shape`: an empty operand shape
    /// is rejected with `InvalidShape`; mismatched inner dimensions or
    /// batch dimensions that do not broadcast with `MissMatchedShapes`.
    /// On success every cell of the result is the inner product of the
    /// selected row of `self` and column of `other`, summed over the
    /// inner axis ascending; `requires_grad` is the OR of the operands'
    /// and the gradient buffer is absent.
    #[verifier::loop_isolation(false)]
    #[verifier::rlimit(100)]
    pub fn matmul(&self, other: &Tensor) -> (r: Result<Tensor, TensorErrors>)
        requires
            self.wf(),
            other.wf(),
            mm_compat(self.shape@, other.shape@) ==> padded_size_of(
                mm_out_shape(self.shape@, other.shape@),
            ) <= usize::MAX,
            mm_compat(self.shape@, other.shape@) ==> mm_fits(
                self.data@,
                other.data@,
                self.shape@,
                other.shape@,
            ),
        ensures
            r == Err::<Tensor, TensorErrors>(TensorErrors::InvalidShape) <==> (self.shape@.len()
                == 0 || other.shape@.len() == 0),
            r == Err::<Tensor, TensorErrors>(TensorErrors::MissMatchedShapes) <==> (
            self.shape@.len() >= 1 && other.shape@.len() >= 1 && !(lhs_cols(self.shape@)
                == rhs_rows(other.shape@) && batch_ok(self.shape@, other.shape@))),
            mm_compat(self.shape@, other.shape@) ==> (r matches Ok(t) && {
                &&& t.wf()
                &&& t.shape@ == mm_out_shape(self.shape@, other.shape@)
                &&& t.data@.len() == size_of_shape(mm_out_shape(self.shape@, other.shape@))
                &&& t.requires_grad == (self.requires_grad || other.requires_grad)
                &&& t.grad is None
                &&& forall|beta: Seq<usize>, i: int, j: int|
                    valid_index(bcast_shape(self.shape@, other.shape@), beta) && 0 <= i < lhs_rows(
                        self.shape@,
                    ) && 0 <= j < rhs_cols(other.shape@) ==> t.data@[mm_out_pos(
                        self.shape@,
                        other.shape@,
                        beta,
                        i,
                        j,
                    )] == #[trigger] mm_entry(
                        self.data@,
                        other.data@,
                        self.shape@,
                        other.shape@,
                        beta,
                        i,
                        j,
                    )
            }),
    {
        let ghost sa: Seq<usize> = self.shape@;
        let ghost sb: Seq<usize> = other.shape@;
        let ghost ad: Seq<i64> = self.data@;
        let ghost bd: Seq<i64> = other.data@;
        let out_shape: Vec<usize> = match matmul_output_shape(&self.shape, &other.shape) {
            Ok(v) => v,
            Err(e) => {
                return Err(e);
            },
        };
        proof {
            assert(mm_compat(sa, sb));
        }
        let ra: usize = self.shape.len();
        let rb: usize = other.shape.len();
        let ar: usize = if ra == 1 {
            1
        } else {
            self.shape[ra - 2]
        };
        let ac: usize = self.shape[ra - 1];
        let bc: usize = if rb == 1 {
            1
        } else {
            other.shape[rb - 1]
        };
        proof {
            assert(ar == lhs_rows(sa));
            assert(ac == lhs_cols(sa));
            assert(bc == rhs_cols(sb));
            assert(ac == rhs_rows(sb));
        }
        let la: usize = if ra <= 2 {
            0
        } else {
            ra - 2
        };
        let lb: usize = if rb <= 2 {
            0
        } else {
            rb - 2
        };
        let l: usize = if la >= lb {
            la
        } else {
            lb
        };
        proof {
            assert(batch_dims(sa).len() == la);
            assert(batch_dims(sb).len() == lb);
            assert(bcast_len(sa, sb) == l as int);
        }
        proof {
            assert(out_shape@.len() >= l);
        }
        let batch_a: Vec<usize> = copy_prefix(&self.shape, la);
        let batch_b: Vec<usize> = copy_prefix(&other.shape, lb);
        let bsh: Vec<usize> = copy_prefix(&out_shape, l);
        proof {
            assert(batch_a@ =~= batch_dims(sa));
            assert(batch_b@ =~= batch_dims(sb));
            assert(bsh@ =~= bcast_shape(sa, sb));
            assert(strides_fit(sa)) by {
                assert forall|ax: int| 0 <= ax < sa.len() implies stride_of(sa, ax)
                    <= usize::MAX by {
                    assert(self.strides@[ax] as nat == stride_of(sa, ax));
                };
            };
            assert(strides_fit(sb)) by {
                assert forall|ax: int| 0 <= ax < sb.len() implies stride_of(sb, ax)
                    <= usize::MAX by {
                    assert(other.strides@[ax] as nat == stride_of(sb, ax));
                };
            };
            assert(self.data.len() == self.data@.len());
            assert(other.data.len() == other.data@.len());
            lemma_mm_prep(sa, sb);
        }
        let bst: Vec<usize> = match compute_strides(&bsh) {
            Some(v) => v,
            None => unreached(),
        };
        let bsize: usize = match checked_size(&bsh) {
            Some(v) => v,
            None => unreached(),
        };
        let ast: Vec<usize> = match compute_strides(&batch_a) {
            Some(v) => v,
            None => unreached(),
        };
        let bbst: Vec<usize> = match compute_strides(&batch_b) {
            Some(v) => v,
            None => unreached(),
        };
        let mab: usize = ar * ac;
        let mbb: usize = ac * bc;
        let arbc: usize = ar * bc;
        proof {
            assert(size_of_shape(mm_out_shape(sa, sb)) == (bsize as nat) * (arbc as nat));
        }
        let mut out_data: Vec<i64> = Vec::new();
        let mut bf: usize = 0;
        proof {
            lemma_mul_basics(arbc as int);
        }
        while bf < bsize
            invariant
                bf <= bsize,
                out_data@.len() == (bf as int) * (arbc as int),
                mm_filled(out_data@, ad, bd, sa, sb),
            decreases bsize - bf,
        {
            proof {
                lemma_positive_size_all_positive(bsh@);
                lemma_mul_inequality(bf + 1, bsize as int, arbc as int);
                lemma_mul_is_distributive_add_other_way(arbc as int, bf as int, 1);
                lemma_mul_basics(arbc as int);
            }
            let beta: Vec<usize> = unflatten(&bsh, &bst, bf);
            let pa: Vec<usize> = project_batch(&batch_a, &beta, l - la);
            let pb: Vec<usize> = project_batch(&batch_b, &beta, l - lb);
            proof {
                lemma_mm_bases(sa, sb, beta@);
            }
            let abase0: usize = flat_offset(&batch_a, &ast, &pa);
            let bbase0: usize = flat_offset(&batch_b, &bbst, &pb);
            proof {
                assert((abase0 as int) * (mab as int) == lhs_base(sa, sb, beta@));
                assert((bbase0 as int) * (mbb as int) == rhs_base(sa, sb, beta@));
            }
            let abase: usize = abase0 * mab;
            let bbase: usize = bbase0 * mbb;
            mm_fill_block(
                &mut out_data,
                &self.data,
                &other.data,
                abase,
                bbase,
                ar,
                ac,
                bc,
                arbc,
                bf,
                Ghost(sa),
                Ghost(sb),
                Ghost(beta@),
            );
            proof {
                assert(out_data@.len() == (bf + 1) * (arbc as int)) by {
                    lemma_mul_is_distributive_add_other_way(arbc as int, bf as int, 1);
                    lemma_mul_basics(arbc as int);
                };
            }
            bf = bf + 1;
        }
        proof {
            assert(out_data@.len() == size_of_shape(mm_out_shape(sa, sb)));
            assert(strides_fit(mm_out_shape(sa, sb)));
        }
        let ost: Vec<usize> = match compute_strides(&out_shape) {
            Some(v) => v,
            None => unreached(),
        };
        proof {
            assert forall|beta: Seq<usize>, i: int, j: int|
                valid_index(bcast_shape(sa, sb), beta) && 0 <= i < lhs_rows(sa) && 0 <= j
                    < rhs_cols(sb) implies out_data@[mm_out_pos(sa, sb, beta, i, j)]
                == #[trigger] mm_entry(ad, bd, sa, sb, beta, i, j) by {
                lemma_flatten_bounds(bcast_shape(sa, sb), beta);
                let fb: int = flatten_index(bcast_shape(sa, sb), beta);
                lemma_mul_nonnegative(i, bc as int);
                lemma_mul_nonnegative(fb, arbc as int);
                assert(0 <= i * (bc as int) + j && i * (bc as int) + j < arbc as int)
                    by (nonlinear_arith)
                    requires
                        0 <= i,
                        i < ar as int,
                        0 <= j,
                        j < bc as int,
                        arbc as int == (ar as int) * (bc as int),
                ;
                let p: int = fb * (arbc as int) + i * (bc as int) + j;
                assert(p == mm_out_pos(sa, sb, beta, i, j));
                assert((fb + 1) * (arbc as int) <= (bsize as int) * (arbc as int))
                    by (nonlinear_arith)
                    requires
                        fb + 1 <= bsize as int,
                        arbc >= 0,
                ;
                lemma_mul_is_distributive_add_other_way(arbc as int, fb, 1);
                lemma_mul_basics(arbc as int);
                assert(0 <= p && p < out_data@.len());
                assert(out_data@[p] == mm_flat_entry(ad, bd, sa, sb, p));
                vstd::arithmetic::div_mod::lemma_fundamental_div_mod_converse(
                    p,
                    arbc as int,
                    fb,
                    i * (bc as int) + j,
                );
                vstd::arithmetic::div_mod::lemma_fundamental_div_mod_converse(
                    i * (bc as int) + j,
                    bc as int,
                    i,
                    j,
                );
                crate::shape::lemma_unflatten_flatten(bcast_shape(sa, sb), beta);
                assert(mm_cell_fits(ad, bd, sa, sb, beta, i, j));
                assert(in_elem(dot(
                    ad,
                    bd,
                    lhs_base(sa, sb, beta) + i * (lhs_cols(sa) as int),
                    rhs_base(sa, sb, beta) + j,
                    rhs_cols(sb) as int,
                    lhs_cols(sa) as int,
                )));
            };
        }
        Ok(
            Tensor {
                shape: out_shape,
                strides: ost,
                data: out_data,
                requires_grad: self.requires_grad || other.requires_grad,
                grad: None,
            },
        )
    }
}

} // verus!
