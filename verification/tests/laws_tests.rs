use neura::shape::{checked_size, compute_strides};
use neura::tensor::{Tensor, TensorErrors};
use neura::tensor_builder::{InitMethod, TensorBuilder};

#[test]
fn ones_plus_ones_is_twos() {
    // ones([2,2]) + ones([2,2]): every element 2, shape unchanged
    let a = Tensor::ones(&vec![2, 2], false);
    let b = Tensor::ones(&vec![2, 2], false);
    let r = a.add(&b).unwrap();
    assert_eq!(r.shape(), vec![2, 2]);
    assert_eq!(r.data, vec![2, 2, 2, 2]);
}

#[test]
fn add_shape_mismatch_is_error() {
    // add over shapes [3] and [2] is rejected
    let a = Tensor::ones(&vec![3], false);
    let b = Tensor::ones(&vec![2], false);
    assert!(matches!(a.add(&b), Err(TensorErrors::MissMatchedShapes)));
}

#[test]
fn slice_first_row_scenario() {
    // slice(2x3 tensor with data 0..6, [0..1, 0..3]): shape [1,3], data [0,1,2]
    let t = Tensor::new(vec![0, 1, 2, 3, 4, 5], vec![2, 3], false).unwrap();
    let s = t.slice(vec![0..1, 0..3]).unwrap();
    assert_eq!(s.shape(), vec![1, 3]);
    assert_eq!(s.data, vec![0, 1, 2]);
}

#[test]
fn empty_slice_request_succeeds() {
    // an empty-shaped request never errors: shape [0,3], empty buffer
    let t = Tensor::new(vec![0, 1, 2, 3, 4, 5], vec![2, 3], false).unwrap();
    let s = t.slice(vec![0..0, 0..3]).unwrap();
    assert_eq!(s.shape(), vec![0, 3]);
    assert_eq!(s.data, vec![]);
}

#[test]
fn add_then_sub_restores_operand() {
    let a = Tensor::new(vec![7, -3, 12, 0], vec![4], false).unwrap();
    let b = Tensor::new(vec![1, 2, -3, 44], vec![4], false).unwrap();
    let sum = a.add(&b).unwrap();
    let back = sum.sub(&b).unwrap();
    assert_eq!(back.data, a.data);
}

#[test]
fn scalar_mul_one_is_identity() {
    let t = Tensor::new(vec![5, -6, 7], vec![3], false).unwrap();
    let r = t.multiply_by_scalar(1);
    assert_eq!(r.data, t.data);
}

#[test]
fn scalar_mul_distributes_over_add() {
    let a = Tensor::new(vec![1, -2, 3], vec![3], false).unwrap();
    let b = Tensor::new(vec![10, 20, -30], vec![3], false).unwrap();
    let left = a.add(&b).unwrap().multiply_by_scalar(7);
    let right = a.multiply_by_scalar(7).add(&b.multiply_by_scalar(7)).unwrap();
    assert_eq!(left.data, right.data);
}

#[test]
fn slice_then_full_slice_is_same() {
    let t = Tensor::new((0..24).collect(), vec![2, 3, 4], false).unwrap();
    let s = t.slice(vec![1..2, 0..2, 1..3]).unwrap();
    let again = s.slice(vec![0..1, 0..2, 0..2]).unwrap();
    assert_eq!(again.shape(), s.shape());
    assert_eq!(again.data, s.data);
}

#[test]
fn get_wrong_rank_is_invalid_shape() {
    let t = Tensor::zeros(&vec![3, 4, 2], false);
    assert_eq!(t.get(&vec![9, 4, 5, 6]), Err(TensorErrors::InvalidShape));
}

#[test]
fn get_out_of_bound_component() {
    let t = Tensor::zeros(&vec![3, 4, 5], false);
    assert_eq!(t.get(&vec![0, 4, 0]), Err(TensorErrors::OutOfBound));
}

#[test]
fn get_row_major_positions() {
    let t = Tensor::new((0..60).collect(), vec![3, 4, 5], false).unwrap();
    assert_eq!(t.get(&vec![0, 0, 0]), Ok(0));
    assert_eq!(t.get(&vec![2, 3, 4]), Ok(59));
    assert_eq!(t.get(&vec![1, 2, 3]), Ok(20 + 10 + 3));
}

#[test]
fn slice_inverted_range_is_invalid() {
    let t = Tensor::zeros(&vec![10, 5], false);
    assert!(matches!(t.slice(vec![8..1, 0..2]), Err(TensorErrors::InvalidRange)));
}

#[test]
fn slice_out_of_bounds_range_is_invalid() {
    let t = Tensor::zeros(&vec![10, 5], false);
    assert!(matches!(t.slice(vec![1..11, 0..2]), Err(TensorErrors::InvalidRange)));
}

#[test]
fn slice_wrong_rank_is_invalid_shape() {
    let t = Tensor::zeros(&vec![10, 5], false);
    assert!(matches!(t.slice(vec![1..8]), Err(TensorErrors::InvalidShape)));
}

#[test]
fn compute_strides_row_major() {
    assert_eq!(compute_strides(&vec![3, 4, 5]), Some(vec![20, 5, 1]));
    assert_eq!(compute_strides(&vec![7]), Some(vec![1]));
    assert_eq!(compute_strides(&vec![]), Some(vec![]));
    // a size-0 axis counts as size 1 for the strides
    assert_eq!(compute_strides(&vec![2, 0, 3]), Some(vec![3, 3, 1]));
    assert_eq!(compute_strides(&vec![2, 0]), Some(vec![1, 1]));
}

#[test]
fn compute_strides_overflow_is_none() {
    assert_eq!(compute_strides(&vec![0, usize::MAX, usize::MAX]), None);
}

#[test]
fn checked_size_counts_elements() {
    assert_eq!(checked_size(&vec![3, 4, 5]), Some(60));
    assert_eq!(checked_size(&vec![]), Some(1));
    assert_eq!(checked_size(&vec![2, 0, 3]), Some(0));
    assert_eq!(checked_size(&vec![usize::MAX, 2]), None);
}

#[test]
fn new_rejects_wrong_buffer_length() {
    assert!(matches!(
        Tensor::new(vec![1, 2, 3], vec![2, 2], false),
        Err(TensorErrors::InvalidShape)
    ));
}

#[test]
fn new_scalar_tensor() {
    let t = Tensor::new(vec![42], vec![], false).unwrap();
    assert_eq!(t.ndim(), 0);
    assert_eq!(t.size(), 1);
    assert_eq!(t.index(0), 42);
}

#[test]
fn new_with_requires_grad_zeroes_gradient() {
    let t = Tensor::new(vec![1, 2], vec![2], true).unwrap();
    assert_eq!(t.grad, Some(vec![0, 0]));
}

#[test]
fn zeros_and_ones_gradients() {
    let z = Tensor::zeros(&vec![2], true);
    assert_eq!(z.grad, Some(vec![0, 0]));
    let o = Tensor::ones(&vec![2], true);
    assert_eq!(o.grad, Some(vec![1, 1]));
    let n = Tensor::ones(&vec![2], false);
    assert_eq!(n.grad, None);
}

#[test]
fn add_assign_in_place() {
    let mut a = Tensor::new(vec![1, 2, 3, 4], vec![2, 2], false).unwrap();
    let b = Tensor::new(vec![10, 20, 30, 40], vec![2, 2], false).unwrap();
    a.add_assign(&b);
    assert_eq!(a.data, vec![11, 22, 33, 44]);
    assert_eq!(a.shape(), vec![2, 2]);
}

#[test]
fn scalar_mul_negative() {
    let t = Tensor::new(vec![1, 2, 3, 4], vec![2, 2], false).unwrap();
    let r = t.multiply_by_scalar(-2);
    assert_eq!(r.data, vec![-2, -4, -6, -8]);
}

#[test]
fn scalar_mul_assign_keeps_gradient() {
    let mut t = Tensor::new(vec![1, 2], vec![2], true).unwrap();
    t.multiply_by_scalar_assign(3);
    assert_eq!(t.data, vec![3, 6]);
    assert_eq!(t.grad, Some(vec![0, 0]));
    assert!(t.requires_grad);
}

#[test]
fn hadamard_multiplies_elementwise() {
    let a = Tensor::new(vec![1, 2, 3, 4], vec![2, 2], false).unwrap();
    let b = Tensor::new(vec![5, 6, 7, 8], vec![2, 2], false).unwrap();
    let r = a.mul(&b).unwrap();
    assert_eq!(r.data, vec![5, 12, 21, 32]);
    let c = Tensor::ones(&vec![3], false);
    assert!(matches!(a.mul(&c), Err(TensorErrors::MissMatchedShapes)));
}

#[test]
fn builder_matches_direct_construction() {
    let built = TensorBuilder::new()
        .shape(&vec![2, 2])
        .init(InitMethod::FromData(vec![1, 2, 3, 4]))
        .build()
        .unwrap();
    let direct = Tensor::new(vec![1, 2, 3, 4], vec![2, 2], false).unwrap();
    assert_eq!(built.data, direct.data);
    assert_eq!(built.shape(), direct.shape());
    assert_eq!(built.strides(), direct.strides());
}
