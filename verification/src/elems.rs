//! Element-level value model: the sequences of 64-bit elements that tensor
//! buffers hold, and the element-wise combinations the operations produce.

use vstd::prelude::*;

verus! {

/// `x` is representable as a 64-bit element.
pub open spec fn in_elem(x: int) -> bool {
    i64::MIN <= x <= i64::MAX
}

/// A sequence of `n` copies of `v`.
pub open spec fn fill_seq(n: nat, v: i64) -> Seq<i64> {
    Seq::new(n, |i: int| v)
}

/// Every element-wise sum of `a` and `b` is representable.
pub open spec fn add_fits(a: Seq<i64>, b: Seq<i64>) -> bool {
    forall|i: int| 0 <= i < a.len() && i < b.len() ==> in_elem(a[i] + b[i])
}

/// The element-wise sum of `a` and `b`.
pub open spec fn add_seq(a: Seq<i64>, b: Seq<i64>) -> Seq<i64> {
    Seq::new(a.len(), |i: int| (a[i] + b[i]) as i64)
}

/// Every element-wise difference of `a` and `b` is representable.
pub open spec fn sub_fits(a: Seq<i64>, b: Seq<i64>) -> bool {
    forall|i: int| 0 <= i < a.len() && i < b.len() ==> in_elem(a[i] - b[i])
}

/// The element-wise difference of `a` and `b`.
pub open spec fn sub_seq(a: Seq<i64>, b: Seq<i64>) -> Seq<i64> {
    Seq::new(a.len(), |i: int| (a[i] - b[i]) as i64)
}

/// Every element-wise product of `a` and `b` is representable.
pub open spec fn had_fits(a: Seq<i64>, b: Seq<i64>) -> bool {
    forall|i: int| 0 <= i < a.len() && i < b.len() ==> in_elem(a[i] * b[i])
}

/// The element-wise (Hadamard) product of `a` and `b`.
pub open spec fn had_seq(a: Seq<i64>, b: Seq<i64>) -> Seq<i64> {
    Seq::new(a.len(), |i: int| (a[i] * b[i]) as i64)
}

/// Every element of `a` times the scalar `k` is representable.
pub open spec fn scale_fits(a: Seq<i64>, k: i64) -> bool {
    forall|i: int| 0 <= i < a.len() ==> in_elem(a[i] * k)
}

/// Every element of `a` multiplied by the scalar `k`.
pub open spec fn scale_seq(a: Seq<i64>, k: i64) -> Seq<i64> {
    Seq::new(a.len(), |i: int| (a[i] * k) as i64)
}

} // verus!
