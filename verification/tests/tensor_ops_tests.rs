use neura::tensor_builder::{InitMethod, TensorBuilder};

#[test]
fn test_tensor_is_contiguous() {
    let tensor = TensorBuilder::new()
        .shape(&vec![2, 3])
        .init(InitMethod::FromData(vec![0, 1, 2, 3, 4, 5]))
        .build()
        .unwrap();
    assert_eq!(tensor.strides(), vec![3, 1]);
}

#[test]
fn test_index_usize_valid() {
    let tensor = TensorBuilder::new()
        .shape(&vec![2, 3])
        .init(InitMethod::FromData(vec![0, 1, 2, 3, 4, 5]))
        .build()
        .unwrap();
    assert_eq!(tensor.index(0), 0);
    assert_eq!(tensor.index(3), 3);
    assert_eq!(tensor.index(5), 5);
}

#[test]
fn test_index_mut_usize_valid() {
    let mut tensor = TensorBuilder::new()
        .shape(&vec![2, 3])
        .init(InitMethod::FromData(vec![0, 1, 2, 3, 4, 5]))
        .build()
        .unwrap();
    tensor.set_index(1, 10);
    assert_eq!(tensor.index(1), 10);
    tensor.set_index(4, 20);
    assert_eq!(tensor.index(4), 20);
}

#[test]
fn test_index_range_valid() {
    let tensor = TensorBuilder::new()
        .shape(&vec![2, 3])
        .init(InitMethod::FromData(vec![0, 1, 2, 3, 4, 5]))
        .build()
        .unwrap();
    assert_eq!(tensor.index_range(1, 4), vec![1, 2, 3]);
    assert_eq!(tensor.index_range(0, 6), vec![0, 1, 2, 3, 4, 5]);
    assert_eq!(tensor.index_range(3, 3), vec![]);
}

#[test]
fn test_index_mut_range_valid() {
    let mut tensor = TensorBuilder::new()
        .shape(&vec![2, 3])
        .init(InitMethod::FromData(vec![0, 1, 2, 3, 4, 5]))
        .build()
        .unwrap();
    tensor.set_range(2, &vec![100, 200, 300]);
    assert_eq!(tensor.index(2), 100);
    assert_eq!(tensor.index(3), 200);
    assert_eq!(tensor.index(4), 300);
}

#[test]
fn test_zero_element_tensor_empty_range() {
    let tensor = TensorBuilder::new()
        .shape(&vec![0])
        .init(InitMethod::FromData(vec![]))
        .build()
        .unwrap();
    assert_eq!(tensor.index_range(0, 0), vec![]);
}

#[test]
fn test_one_element_tensor() {
    let mut tensor = TensorBuilder::new()
        .shape(&vec![1])
        .init(InitMethod::FromData(vec![42]))
        .build()
        .unwrap();
    assert_eq!(tensor.index(0), 42);
    tensor.set_index(0, 100);
    assert_eq!(tensor.index(0), 100);
    assert_eq!(tensor.index_range(0, 1), vec![100]);
    tensor.set_range(0, &vec![200]);
    assert_eq!(tensor.index(0), 200);
}

#[test]
fn test_empty_range() {
    let mut tensor = TensorBuilder::new()
        .shape(&vec![2, 3])
        .init(InitMethod::FromData(vec![0, 1, 2, 3, 4, 5]))
        .build()
        .unwrap();
    assert_eq!(tensor.index_range(2, 2), vec![]);
    tensor.set_range(2, &vec![]); // No-op
    assert_eq!(tensor.index_range(0, 6), vec![0, 1, 2, 3, 4, 5]);
}

#[test]
fn test_different_shape() {
    let tensor = TensorBuilder::new()
        .shape(&vec![3, 2])
        .init(InitMethod::FromData(vec![0, 1, 2, 3, 4, 5]))
        .build()
        .unwrap();
    assert_eq!(tensor.index(0), 0);
    assert_eq!(tensor.index(1), 1);
    assert_eq!(tensor.index(2), 2);
    assert_eq!(tensor.index(3), 3);
    assert_eq!(tensor.index(4), 4);
    assert_eq!(tensor.index(5), 5);
    assert_eq!(tensor.index_range(1, 4), vec![1, 2, 3]);
}

#[test]
fn test_flat_indexing_1d() {
    let tensor = TensorBuilder::new()
        .shape(&vec![5])
        .init(InitMethod::FromData(vec![10, 20, 30, 40, 50]))
        .build()
        .unwrap();
    assert_eq!(tensor.index(0), 10);
    assert_eq!(tensor.index(2), 30);
    assert_eq!(tensor.index(4), 50);
}

#[test]
fn test_flat_indexing_2d() {
    let tensor = TensorBuilder::new()
        .shape(&vec![2, 3])
        .init(InitMethod::FromData(vec![0, 1, 2, 3, 4, 5]))
        .build()
        .unwrap();
    // Row-major: [0, 1, 2] (row 0), [3, 4, 5] (row 1)
    assert_eq!(tensor.index(0), 0); // (0, 0)
    assert_eq!(tensor.index(1), 1); // (0, 1)
    assert_eq!(tensor.index(2), 2); // (0, 2)
    assert_eq!(tensor.index(3), 3); // (1, 0)
    assert_eq!(tensor.index(4), 4); // (1, 1)
    assert_eq!(tensor.index(5), 5); // (1, 2)
}

#[test]
fn test_flat_indexing_3d() {
    let tensor = TensorBuilder::new()
        .shape(&vec![2, 2, 2])
        .init(InitMethod::FromData(vec![0, 1, 2, 3, 4, 5, 6, 7]))
        .build()
        .unwrap();
    // Row-major: [0, 1] (0,0,:), [2, 3] (0,1,:), [4, 5] (1,0,:), [6, 7] (1,1,:)
    assert_eq!(tensor.index(0), 0); // (0, 0, 0)
    assert_eq!(tensor.index(1), 1); // (0, 0, 1)
    assert_eq!(tensor.index(2), 2); // (0, 1, 0)
    assert_eq!(tensor.index(3), 3); // (0, 1, 1)
    assert_eq!(tensor.index(4), 4); // (1, 0, 0)
    assert_eq!(tensor.index(5), 5); // (1, 0, 1)
    assert_eq!(tensor.index(6), 6); // (1, 1, 0)
    assert_eq!(tensor.index(7), 7); // (1, 1, 1)
}

#[test]
fn test_range_slicing_2d() {
    let tensor = TensorBuilder::new()
        .shape(&vec![2, 3])
        .init(InitMethod::FromData(vec![0, 1, 2, 3, 4, 5]))
        .build()
        .unwrap();
    // Flat indices: 0..3 is row 0, 3..6 is row 1
    assert_eq!(tensor.index_range(0, 3), vec![0, 1, 2]); // First row
    assert_eq!(tensor.index_range(3, 6), vec![3, 4, 5]); // Second row
    assert_eq!(tensor.index_range(1, 4), vec![1, 2, 3]); // Across rows
}

#[test]
fn test_range_slicing_3d() {
    let tensor = TensorBuilder::new()
        .shape(&vec![2, 2, 2])
        .init(InitMethod::FromData(vec![0, 1, 2, 3, 4, 5, 6, 7]))
        .build()
        .unwrap();
    assert_eq!(tensor.index_range(0, 4), vec![0, 1, 2, 3]); // First "plane"
    assert_eq!(tensor.index_range(4, 8), vec![4, 5, 6, 7]); // Second "plane"
    assert_eq!(tensor.index_range(2, 6), vec![2, 3, 4, 5]); // Across planes
}

#[test]
fn test_range_slicing_edge_cases_2d() {
    let tensor = TensorBuilder::new()
        .shape(&vec![2, 3])
        .init(InitMethod::FromData(vec![0, 1, 2, 3, 4, 5]))
        .build()
        .unwrap();
    assert_eq!(tensor.index_range(0, 1), vec![0]); // Start
    assert_eq!(tensor.index_range(5, 6), vec![5]); // End
    assert_eq!(tensor.index_range(2, 4), vec![2, 3]); // Middle
    assert_eq!(tensor.index_range(0, 0), vec![]); // Empty at start
    assert_eq!(tensor.index_range(6, 6), vec![]); // Empty at end
}

#[test]
fn test_mutation_through_range_slicing_2d() {
    let mut tensor = TensorBuilder::new()
        .shape(&vec![2, 3])
        .init(InitMethod::FromData(vec![0, 1, 2, 3, 4, 5]))
        .build()
        .unwrap();
    tensor.set_range(0, &vec![10, 20, 30]); // Mutate first row
    assert_eq!(tensor.index_range(0, 6), vec![10, 20, 30, 3, 4, 5]);
    tensor.set_range(3, &vec![40, 50, 60]); // Mutate second row
    assert_eq!(tensor.index_range(0, 6), vec![10, 20, 30, 40, 50, 60]);
}

#[test]
fn test_mutation_through_range_slicing_3d() {
    let mut tensor = TensorBuilder::new()
        .shape(&vec![2, 2, 2])
        .init(InitMethod::FromData(vec![0, 1, 2, 3, 4, 5, 6, 7]))
        .build()
        .unwrap();
    tensor.set_range(0, &vec![10, 20, 30, 40]); // Mutate first plane
    assert_eq!(tensor.index_range(0, 8), vec![10, 20, 30, 40, 4, 5, 6, 7]);
}

#[test]
fn test_slice_2d_tensor() {
    let tensor = TensorBuilder::new()
        .shape(&vec![2, 3])
        .init(InitMethod::FromData(vec![0, 1, 2, 3, 4, 5]))
        .build()
        .unwrap();

    let sliced = tensor.slice(vec![0..1, 0..3]).unwrap();
    assert_eq!(sliced.shape(), vec![1, 3]);
    assert_eq!(sliced.data, vec![0, 1, 2]);

    let sliced = tensor.slice(vec![0..2, 1..2]).unwrap();
    assert_eq!(sliced.shape(), vec![2, 1]);
    assert_eq!(sliced.data, vec![1, 4]);

    let sliced = tensor.slice(vec![0..2, 1..3]).unwrap();
    assert_eq!(sliced.shape(), vec![2, 2]);
    assert_eq!(sliced.data, vec![1, 2, 4, 5]);
}

#[test]
fn test_slice_3d_tensor() {
    let tensor = TensorBuilder::new()
        .shape(&vec![2, 2, 2])
        .init(InitMethod::FromData((0..8).collect()))
        .build()
        .unwrap();

    let sliced = tensor.slice(vec![0..1, 0..2, 0..2]).unwrap();
    assert_eq!(sliced.shape(), vec![1, 2, 2]);
    assert_eq!(sliced.data, vec![0, 1, 2, 3]);

    let sliced = tensor.slice(vec![0..2, 1..2, 1..2]).unwrap();
    assert_eq!(sliced.shape(), vec![2, 1, 1]);
    assert_eq!(sliced.data, vec![3, 7]);
}

#[test]
fn test_tensor_add() {
    let a = TensorBuilder::new()
        .shape(&vec![2, 2])
        .init(InitMethod::FromData(vec![1, 2, 3, 4]))
        .build()
        .unwrap();

    let b = TensorBuilder::new()
        .shape(&vec![2, 2])
        .init(InitMethod::FromData(vec![4, 3, 2, 1]))
        .build()
        .unwrap();

    let result = a.add(&b).unwrap();
    assert_eq!(result.data, vec![5, 5, 5, 5]);
}

#[test]
fn test_tensor_sub() {
    let a = TensorBuilder::new()
        .shape(&vec![2, 2])
        .init(InitMethod::FromData(vec![5, 5, 5, 5]))
        .build()
        .unwrap();

    let b = TensorBuilder::new()
        .shape(&vec![2, 2])
        .init(InitMethod::FromData(vec![1, 2, 3, 4]))
        .build()
        .unwrap();

    let result = a.sub(&b).unwrap();
    assert_eq!(result.data, vec![4, 3, 2, 1]);
}

#[test]
fn test_tensor_sub_assign() {
    let mut a = TensorBuilder::new()
        .shape(&vec![2, 2])
        .init(InitMethod::FromData(vec![5, 5, 5, 5]))
        .build()
        .unwrap();

    let b = TensorBuilder::new()
        .shape(&vec![2, 2])
        .init(InitMethod::FromData(vec![1, 2, 3, 4]))
        .build()
        .unwrap();

    a.sub_assign(&b);
    assert_eq!(a.data, vec![4, 3, 2, 1]);
}

#[test]
fn test_tensor_operations_chaining() {
    let a = TensorBuilder::new()
        .shape(&vec![2, 2])
        .init(InitMethod::FromData(vec![1, 2, 3, 4]))
        .build()
        .unwrap();

    let b = TensorBuilder::new()
        .shape(&vec![2, 2])
        .init(InitMethod::FromData(vec![1, 1, 1, 1]))
        .build()
        .unwrap();

    let c = TensorBuilder::new()
        .shape(&vec![2, 2])
        .init(InitMethod::FromData(vec![2, 2, 2, 2]))
        .build()
        .unwrap();

    let result = a.add(&b).unwrap().sub(&c).unwrap();
    assert_eq!(result.data, vec![0, 1, 2, 3]);
}

#[test]
fn test_tensor_scalar_mul_positive() {
    let tensor = TensorBuilder::new()
        .shape(&vec![2, 2])
        .init(InitMethod::FromData(vec![1, 2, 3, 4]))
        .build()
        .unwrap();

    let scalar = 2;
    let result = tensor.multiply_by_scalar(scalar);

    assert_eq!(result.data, vec![2, 4, 6, 8]);
    assert_eq!(result.requires_grad, tensor.requires_grad);
    assert_eq!(result.grad, None);
}

#[test]
fn test_tensor_scalar_mul_zero() {
    let tensor = TensorBuilder::new()
        .shape(&vec![2, 2])
        .init(InitMethod::FromData(vec![1, 2, 3, 4]))
        .build()
        .unwrap();

    let scalar = 0;
    let result = tensor.multiply_by_scalar(scalar);

    assert_eq!(result.data, vec![0, 0, 0, 0]);
    assert_eq!(result.requires_grad, tensor.requires_grad);
    assert_eq!(result.grad, None);
}

#[test]
fn test_tensor_scalar_mul_1d() {
    let tensor = TensorBuilder::new()
        .shape(&vec![3])
        .init(InitMethod::FromData(vec![1, 2, 3]))
        .build()
        .unwrap();

    let scalar = 3;
    let result = tensor.multiply_by_scalar(scalar);

    assert_eq!(result.data, vec![3, 6, 9]);
    assert_eq!(result.requires_grad, tensor.requires_grad);
    assert_eq!(result.grad, None);
}

#[test]
fn test_tensor_scalar_mul_large_scalar() {
    let tensor = TensorBuilder::new()
        .shape(&vec![2, 2])
        .init(InitMethod::FromData(vec![1, 2, 3, 4]))
        .build()
        .unwrap();

    let scalar = 1_000_000; // Large scalar
    let result = tensor.multiply_by_scalar(scalar);

    assert_eq!(result.data, vec![1_000_000, 2_000_000, 3_000_000, 4_000_000]);
    assert_eq!(result.requires_grad, tensor.requires_grad);
    assert_eq!(result.grad, None);
}

#[test]
fn test_tensor_scalar_mul_assign_zero() {
    let mut tensor = TensorBuilder::new()
        .shape(&vec![2, 2])
        .init(InitMethod::FromData(vec![1, 2, 3, 4]))
        .requires_grad(true)
        .build()
        .unwrap();

    tensor.multiply_by_scalar_assign(0);

    assert_eq!(tensor.data, vec![0, 0, 0, 0]);
    assert_eq!(tensor.requires_grad, true);
    assert_eq!(tensor.grad, None);
}

#[test]
fn test_tensor_scalar_mul_assign_1d() {
    let mut tensor = TensorBuilder::new()
        .shape(&vec![3])
        .init(InitMethod::FromData(vec![1, 2, 3]))
        .requires_grad(false)
        .build()
        .unwrap();

    tensor.multiply_by_scalar_assign(3);

    assert_eq!(tensor.data, vec![3, 6, 9]);
    assert_eq!(tensor.requires_grad, false);
    assert_eq!(tensor.grad, None);
}

#[test]
fn test_tensor_scalar_mul_assign_large_scalar() {
    let mut tensor = TensorBuilder::new()
        .shape(&vec![2, 2])
        .init(InitMethod::FromData(vec![1, 2, 3, 4]))
        .requires_grad(true)
        .build()
        .unwrap();

    tensor.multiply_by_scalar_assign(1_000_000);

    assert_eq!(tensor.data, vec![1_000_000, 2_000_000, 3_000_000, 4_000_000]);
    assert_eq!(tensor.requires_grad, true);
    assert_eq!(tensor.grad, None);
}
