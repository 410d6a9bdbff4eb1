use neura::matmul::matmul_output_shape;
use neura::tensor::{Tensor, TensorErrors};
use neura::tensor_builder::{InitMethod, TensorBuilder};

#[test]
fn matmul_shape_inference_batched() {
    // a [2,3,4] tensor against a [4,5] matrix yields shape [2,3,5]
    let a = Tensor::ones(&vec![2, 3, 4], false);
    let b = Tensor::ones(&vec![4, 5], false);
    let r = a.matmul(&b).unwrap();
    assert_eq!(r.shape(), vec![2, 3, 5]);
}

#[test]
fn matmul_shape_inference_vector_times_matrix() {
    // a [3] vector against a [3,5] matrix yields shape [5]
    let a = Tensor::ones(&vec![3], false);
    let b = Tensor::ones(&vec![3, 5], false);
    let r = a.matmul(&b).unwrap();
    assert_eq!(r.shape(), vec![5]);
    assert_eq!(r.data, vec![3, 3, 3, 3, 3]);
}

#[test]
fn matmul_shape_inference_mismatch() {
    // matmul([3], [5]) fails: inner dimensions 3 and 5 disagree
    let a = Tensor::ones(&vec![3], false);
    let b = Tensor::ones(&vec![5], false);
    assert!(matches!(a.matmul(&b), Err(TensorErrors::MissMatchedShapes)));
}

#[test]
fn matmul_output_shape_function() {
    assert_eq!(matmul_output_shape(&vec![2, 3, 4], &vec![4, 5]), Ok(vec![2, 3, 5]));
    assert_eq!(matmul_output_shape(&vec![3], &vec![3, 5]), Ok(vec![5]));
    assert_eq!(matmul_output_shape(&vec![2, 3], &vec![3]), Ok(vec![2]));
    assert_eq!(matmul_output_shape(&vec![3], &vec![3]), Ok(vec![]));
    assert_eq!(
        matmul_output_shape(&vec![3], &vec![5]),
        Err(TensorErrors::MissMatchedShapes)
    );
    assert_eq!(
        matmul_output_shape(&vec![], &vec![3]),
        Err(TensorErrors::InvalidShape)
    );
    assert_eq!(
        matmul_output_shape(&vec![2, 2, 3], &vec![3, 2, 4]),
        Err(TensorErrors::MissMatchedShapes)
    );
}

#[test]
fn matmul_ones_batched_values() {
    // matmul(ones([2,3,4]), ones([4,5])): shape [2,3,5], every element 4
    let a = Tensor::ones(&vec![2, 3, 4], false);
    let b = Tensor::ones(&vec![4, 5], false);
    let r = a.matmul(&b).unwrap();
    assert_eq!(r.shape(), vec![2, 3, 5]);
    assert!(r.data.iter().all(|&x| x == 4));
    assert_eq!(r.data.len(), 2 * 3 * 5);
}

#[test]
fn matmul_plain_2d() {
    // [[1,2],[3,4]] x [[5,6],[7,8]] == [[19,22],[43,50]]
    let a = Tensor::new(vec![1, 2, 3, 4], vec![2, 2], false).unwrap();
    let b = Tensor::new(vec![5, 6, 7, 8], vec![2, 2], false).unwrap();
    let r = a.matmul(&b).unwrap();
    assert_eq!(r.shape(), vec![2, 2]);
    assert_eq!(r.data, vec![19, 22, 43, 50]);
}

#[test]
fn matmul_vector_times_vector_is_scalar() {
    // [1,2,3] . [4,5,6] == 32, a rank-0 result
    let a = Tensor::new(vec![1, 2, 3], vec![3], false).unwrap();
    let b = Tensor::new(vec![4, 5, 6], vec![3], false).unwrap();
    let r = a.matmul(&b).unwrap();
    assert_eq!(r.shape(), vec![]);
    assert_eq!(r.data, vec![32]);
}

#[test]
fn matmul_matrix_times_vector() {
    // [[1,2],[3,4]] x [5,6] == [17, 39]
    let a = Tensor::new(vec![1, 2, 3, 4], vec![2, 2], false).unwrap();
    let b = Tensor::new(vec![5, 6], vec![2], false).unwrap();
    let r = a.matmul(&b).unwrap();
    assert_eq!(r.shape(), vec![2]);
    assert_eq!(r.data, vec![17, 39]);
}

#[test]
fn matmul_batched_values() {
    // two stacked 2x2 matrices times one 2x2 matrix
    let a = Tensor::new(vec![1, 0, 0, 1, 1, 1, 1, 1], vec![2, 2, 2], false).unwrap();
    let b = Tensor::new(vec![5, 6, 7, 8], vec![2, 2], false).unwrap();
    let r = a.matmul(&b).unwrap();
    assert_eq!(r.shape(), vec![2, 2, 2]);
    // batch 0: identity x b == b; batch 1: all-ones x b sums b's columns
    assert_eq!(r.data, vec![5, 6, 7, 8, 12, 14, 12, 14]);
}

#[test]
fn matmul_broadcast_batches() {
    // batch shapes [2,1] and [4]: broadcast to [2,4]
    let a = Tensor::ones(&vec![2, 1, 2, 3], false);
    let b = Tensor::ones(&vec![4, 3, 2], false);
    let r = a.matmul(&b).unwrap();
    assert_eq!(r.shape(), vec![2, 4, 2, 2]);
    assert!(r.data.iter().all(|&x| x == 3));
    assert_eq!(r.data.len(), 2 * 4 * 2 * 2);
}

#[test]
fn matmul_broadcast_batch_values() {
    // batch [2] on the left, scalar batch on the right: the right matrix repeats
    let a = Tensor::new(vec![1, 2, 3, 4], vec![2, 1, 2], false).unwrap();
    let b = Tensor::new(vec![10, 100], vec![2, 1], false).unwrap();
    let r = a.matmul(&b).unwrap();
    assert_eq!(r.shape(), vec![2, 1, 1]);
    assert_eq!(r.data, vec![210, 430]);
}

#[test]
fn matmul_empty_shape_rejected() {
    let scalar = Tensor::new(vec![7], vec![], false).unwrap();
    let v = Tensor::ones(&vec![3], false);
    assert!(matches!(scalar.matmul(&v), Err(TensorErrors::InvalidShape)));
    assert!(matches!(v.matmul(&scalar), Err(TensorErrors::InvalidShape)));
}

#[test]
fn matmul_requires_grad_propagates() {
    let a = TensorBuilder::new()
        .shape(&vec![2, 2])
        .init(InitMethod::Ones)
        .requires_grad(true)
        .build()
        .unwrap();
    let b = Tensor::ones(&vec![2, 2], false);
    let r = a.matmul(&b).unwrap();
    assert!(r.requires_grad);
    assert!(r.grad.is_none());
}

#[test]
fn matmul_zero_inner_dimension() {
    // inner dimension 0: a defined, all-zero result
    let a = Tensor::ones(&vec![2, 0], false);
    let b = Tensor::ones(&vec![0, 3], false);
    let r = a.matmul(&b).unwrap();
    assert_eq!(r.shape(), vec![2, 3]);
    assert_eq!(r.data, vec![0, 0, 0, 0, 0, 0]);
}
