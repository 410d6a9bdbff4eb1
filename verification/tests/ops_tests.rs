use neura::tensor::Tensor;

#[test]
fn add_tensors_test() {
    let t1 = Tensor::ones(&vec![2, 2], false);
    let t2 = Tensor::ones(&vec![2, 2], false);
    let t3 = t1.add(&t2).unwrap();

    for i in 0..2 {
        for j in 0..2 {
            assert_eq!(t3.get(&vec![i, j]), Ok(2));
        }
    }
}

#[test]
fn sub_tensors_test() {
    let t1 = Tensor::ones(&vec![1, 2, 2], false);
    let t2 = Tensor::ones(&vec![1, 2, 2], false);

    let t3 = t1.sub(&t2).unwrap();

    for i in 0..2 {
        for j in 0..2 {
            assert_eq!(t3.get(&vec![0, i, j]), Ok(0));
        }
    }
}

#[test]
fn scalar_mul_test() {
    let t1 = Tensor::ones(&vec![2, 2], false);

    let t2 = t1.multiply_by_scalar(2);

    for i in 0..2 {
        for j in 0..2 {
            assert_eq!(t2.get(&vec![i, j]), Ok(2));
        }
    }
}
