use mivi::tensor::{TensorError, TensorShape};

#[test]
fn test_tensor_shape_num_elements() {
    let shape = TensorShape::new(vec![2, 3, 4]);
    assert_eq!(shape.num_elements(), 24);
    assert_eq!(shape.rank(), 3);
    assert_eq!(shape.dims(), &[2, 3, 4]);

    let empty = TensorShape::new(vec![]);
    assert_eq!(empty.num_elements(), 0);
}

#[test]
fn tensor_shape_overflow_is_reported() {
    let shape = TensorShape::new(vec![usize::MAX, 2]);
    assert!(matches!(shape.try_num_elements(), Err(_)));
}

#[test]
fn tensor_shape_dim_bounds() {
    let shape = TensorShape::new(vec![5, 7]);
    assert_eq!(shape.dim(1), Ok(7));
    assert!(matches!(shape.dim(2), Err(TensorError::DimOutOfBounds { .. })));
}
