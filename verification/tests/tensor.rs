use wasmicro::tensor::{checked_product, Shape, Tensor};

#[test]
fn shape_basic() {
    let s = Shape::new(&[2, 3, 4]);
    assert_eq!(s.ndim(), 3);
    assert_eq!(s.as_slice(), &[2, 3, 4]);
    assert_eq!(s.numel(), 24);
}

#[test]
fn tensor_zeros() {
    let t: Tensor<f32> = Tensor::zeros(&[2, 3]);
    assert_eq!(t.numel(), 6);
    assert_eq!(t.data(), &[0.0; 6]);
}

#[test]
fn tensor_from_vec() {
    let t = Tensor::from_vec(vec![1.0f32, 2.0, 3.0, 4.0], &[2, 2]);
    assert_eq!(t.shape().as_slice(), &[2, 2]);
    assert_eq!(t.data(), &[1.0, 2.0, 3.0, 4.0]);
}

#[test]
fn scalar_shape_has_one_element() {
    let s = Shape::new(&[]);
    assert_eq!(s.ndim(), 0);
    assert_eq!(s.numel(), 1);
    assert_eq!(Shape::new(&[3, 0, 2]).numel(), 0);
}

#[test]
fn products_that_do_not_fit_have_no_value() {
    assert_eq!(checked_product(&[]), Some(1));
    assert_eq!(checked_product(&[2, 3, 4]), Some(24));
    assert_eq!(checked_product(&[usize::MAX, 2]), None);
    assert_eq!(checked_product(&[0, usize::MAX, 2]), Some(0));
}

#[test]
fn data_can_be_changed_in_place() {
    let mut t: Tensor<i32> = Tensor::zeros(&[2, 2]);
    t.data_mut()[3] = 7;
    assert_eq!(t.data(), &[0, 0, 0, 7]);
    assert_eq!(t.shape().as_slice(), &[2, 2]);
    let copy = t.clone();
    assert_eq!(copy.data(), t.data());
    assert!(copy.is_consistent());
}

#[test]
fn shapes_are_equal_if_their_dimensions_are() {
    assert_eq!(Shape::new(&[2, 3]), Shape::new(&[2, 3]));
    assert_ne!(Shape::new(&[2, 3]), Shape::new(&[3, 2]));
    assert_ne!(Shape::new(&[2]), Shape::new(&[2, 0]));
    assert_ne!(Shape::new(&[]), Shape::new(&[0]));
}
