use neura::tensor::Tensor;

#[test]
fn test_tensor_creation() {
    let shape = vec![3, 4, 5];
    let data = vec![1; 3 * 4 * 5];
    let tensor: Tensor = Tensor::new(data, shape, false).unwrap();

    assert_eq!(tensor.ndim(), 3);
    assert_eq!(tensor.size(), 3 * 4 * 5);
    assert_eq!(tensor.requires_grad, false);
    assert!(tensor.grad.is_none());
}

#[test]
fn test_tensor_requires_grad() {
    let shape = vec![2, 2];
    let data = vec![1; 4];
    let tensor: Tensor = Tensor::new(data, shape, true).unwrap();

    assert!(tensor.grad.is_some());
}

#[test]
fn test_tensor_zeros() {
    let shape = vec![2, 3, 4];
    let tensor: Tensor = Tensor::zeros(&shape, false);

    println!("{:?}", tensor.data);

    assert_eq!(tensor.shape(), shape);
}

#[test]
fn test_tensor_ones() {
    let shape = vec![2, 3, 4];
    let tensor: Tensor = Tensor::ones(&shape, false);

    println!("{:?}", tensor.data);

    assert_eq!(tensor.shape(), shape);
}

#[test]
fn test_tensor_get_item() {
    let shape = vec![1, 2, 2];
    let tensor: Tensor = Tensor::ones(&shape, false);

    assert_eq!(tensor.get(&vec![0, 1, 1]), Ok(1));
}

#[test]
fn test_tensor_set_item() {
    let shape = vec![1, 2, 2];
    let mut tensor: Tensor = Tensor::ones(&shape, false);
    tensor.set_at(&vec![0, 1, 1], 10).unwrap();

    assert_eq!(tensor.get(&vec![0, 1, 1]), Ok(10));
}

#[test]
fn test_tensor_get_slice() {
    let shape = vec![1, 2, 3];
    let tensor: Tensor = Tensor::ones(&shape, false);

    println!("{:?}", tensor.slice(vec![0..1, 0..1, 0..2]).unwrap().data);
}
