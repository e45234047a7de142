use physics::errors::PhysicsError;
use physics::vector::Vector;

fn v(components: Vec<i64>) -> Vector {
    Vector::new(components)
}

#[test]
fn add_componentwise() {
    let a = v(vec![1, 2, 3]);
    let b = v(vec![10, 20, 30]);
    let s = a.add(&b).unwrap();
    assert_eq!(s.components, vec![11, 22, 33]);
}

#[test]
fn add_length_mismatch() {
    let a = v(vec![1, 2]);
    let b = v(vec![1, 2, 3]);
    assert_eq!(a.add(&b).unwrap_err(), PhysicsError::LengthMismatch);
}

#[test]
fn add_then_sub_restores() {
    let a = v(vec![5, -3, 7]);
    let b = v(vec![2, 9, -4]);
    let restored = a.add(&b).unwrap().sub(&b).unwrap();
    assert_eq!(restored, a);
}

#[test]
fn sub_componentwise() {
    let a = v(vec![5, 5]);
    let b = v(vec![2, 7]);
    assert_eq!(a.sub(&b).unwrap().components, vec![3, -2]);
}

#[test]
fn dot_is_sum_of_products() {
    let a = v(vec![1, 2, 3]);
    let b = v(vec![4, 5, 6]);
    assert_eq!(a.dot(&b).unwrap(), 32);
}

#[test]
fn dot_commutes() {
    let a = v(vec![3, -1, 2]);
    let b = v(vec![-7, 4, 9]);
    assert_eq!(a.dot(&b).unwrap(), b.dot(&a).unwrap());
}

#[test]
fn dot_length_mismatch() {
    let a = v(vec![1]);
    let b = v(vec![1, 2]);
    assert_eq!(a.dot(&b).unwrap_err(), PhysicsError::LengthMismatch);
}

#[test]
fn scale_multiplies() {
    let a = v(vec![1, -2, 3]);
    assert_eq!(a.scale(4).components, vec![4, -8, 12]);
}

#[test]
fn div_componentwise_truncates() {
    let a = v(vec![7, -7, 9]);
    let b = v(vec![2, 2, -3]);
    assert_eq!(a.div(&b).unwrap().components, vec![3, -3, -3]);
}

#[test]
fn div_by_zero_component() {
    let a = v(vec![1, 2]);
    let b = v(vec![1, 0]);
    assert_eq!(a.div(&b).unwrap_err(), PhysicsError::DivisionByZero);
}

#[test]
fn div_scalar_is_true_division_not_scaling() {
    let a = v(vec![9, -7, 4]);
    let q = a.div_scalar(2).unwrap();
    assert_eq!(q.components, vec![4, -3, 2]);
    // Dividing by 2 and multiplying by 2 must differ.
    assert_ne!(q.components, a.scale(2).components);
}

#[test]
fn div_scalar_zero() {
    let a = v(vec![1]);
    assert_eq!(a.div_scalar(0).unwrap_err(), PhysicsError::DivisionByZero);
}

#[test]
fn magnitude_three_four_five() {
    let a = v(vec![3, 4]);
    assert_eq!(a.magnitude(), 5);
}

#[test]
fn magnitude_zero_vector() {
    assert_eq!(v(vec![0, 0, 0]).magnitude(), 0);
    assert_eq!(v(vec![]).magnitude(), 0);
}

#[test]
fn magnitude_never_negative() {
    assert!(v(vec![-3, -4]).magnitude() >= 0);
    assert_eq!(v(vec![-3, -4]).magnitude(), 5);
}

#[test]
fn magnitude_truncates() {
    // sqrt(2) is 1.41..., truncated to 1 in the integer domain.
    assert_eq!(v(vec![1, 1]).magnitude(), 1);
}

#[test]
fn normalized_unit_direction() {
    let a = v(vec![3, 4]);
    // magnitude 5: components divide to [0, 0] except those at least 5.
    assert_eq!(a.normalized().unwrap().components, vec![0, 0]);
    let b = v(vec![5, 0]);
    assert_eq!(b.normalized().unwrap().components, vec![1, 0]);
}

#[test]
fn normalized_zero_vector_degenerate() {
    assert_eq!(
        v(vec![0, 0]).normalized().unwrap_err(),
        PhysicsError::DegenerateVector
    );
}

#[test]
fn distance_three_four_five() {
    let a = v(vec![3, 4]);
    let b = v(vec![0, 0]);
    assert_eq!(a.distance(&b).unwrap(), 5);
    assert_eq!(a.magnitude(), 5);
}

#[test]
fn distance_squared_exact_sum() {
    let a = v(vec![3, 4]);
    let b = v(vec![0, 0]);
    assert_eq!(a.distance_squared(&b).unwrap(), 25);
    assert_eq!(
        v(vec![1, 1]).distance_squared(&v(vec![4, 5])).unwrap(),
        25
    );
}

#[test]
fn distance_length_mismatch() {
    assert_eq!(
        v(vec![1]).distance(&v(vec![1, 2])).unwrap_err(),
        PhysicsError::LengthMismatch
    );
}

#[test]
fn angle_with_self_is_zero() {
    let a = v(vec![3, 4]);
    assert_eq!(a.angle(&a).unwrap(), 0);
}

#[test]
fn angle_orthogonal_is_quarter_turn() {
    // pi/2 rounds to 2 in integer radians.
    let a = v(vec![1, 0]);
    let b = v(vec![0, 1]);
    assert_eq!(a.angle(&b).unwrap(), 2);
}

#[test]
fn angle_opposite_is_half_turn() {
    // pi rounds to 3 in integer radians.
    let a = v(vec![1, 0]);
    let b = v(vec![-1, 0]);
    assert_eq!(a.angle(&b).unwrap(), 3);
}

#[test]
fn angle_zero_magnitude_degenerate() {
    let a = v(vec![1, 0]);
    let z = v(vec![0, 0]);
    assert_eq!(a.angle(&z).unwrap_err(), PhysicsError::DegenerateVector);
}

#[test]
fn max_components_dominates_both() {
    let a = v(vec![1, 9, -5]);
    let b = v(vec![4, 2, -7]);
    let m = Vector::max_components(vec![a.clone(), b.clone()]).unwrap();
    assert_eq!(m.components, vec![4, 9, -5]);
    for i in 0..3 {
        assert!(m.components[i] >= a.components[i]);
        assert!(m.components[i] >= b.components[i]);
    }
}

#[test]
fn min_components_dominated_by_both() {
    let a = v(vec![1, 9, -5]);
    let b = v(vec![4, 2, -7]);
    let m = Vector::min_components(vec![a.clone(), b.clone()]).unwrap();
    assert_eq!(m.components, vec![1, 2, -7]);
    for i in 0..3 {
        assert!(m.components[i] <= a.components[i]);
        assert!(m.components[i] <= b.components[i]);
    }
}

#[test]
fn max_min_components_empty_give_default() {
    let max = Vector::max_components(vec![]).unwrap();
    let min = Vector::min_components(vec![]).unwrap();
    assert_eq!(max.components, Vec::<i64>::new());
    assert_eq!(min.components, Vec::<i64>::new());
    assert_eq!(max, Vector::default());
    assert_eq!(min, Vector::default());
}

#[test]
fn max_components_length_mismatch() {
    let a = v(vec![1, 2]);
    let b = v(vec![1]);
    assert_eq!(
        Vector::max_components(vec![a, b]).unwrap_err(),
        PhysicsError::LengthMismatch
    );
}

#[test]
fn remove_then_add_component() {
    let mut a = v(vec![1, 2, 3]);
    a.remove_component(1).unwrap();
    assert_eq!(a.components, vec![1, 3]);
    a.add_component(9);
    assert_eq!(a.components, vec![1, 3, 9]);
}

#[test]
fn remove_component_out_of_range() {
    let mut a = v(vec![1, 2, 3]);
    assert_eq!(
        a.remove_component(3).unwrap_err(),
        PhysicsError::IndexOutOfRange
    );
    assert_eq!(a.components, vec![1, 2, 3]);
}

#[test]
fn component_read_and_write() {
    let mut a = v(vec![1, 2, 3]);
    assert_eq!(a.component(2).unwrap(), 3);
    a.set_component(0, 7).unwrap();
    assert_eq!(a.components, vec![7, 2, 3]);
    assert_eq!(a.component(5).unwrap_err(), PhysicsError::IndexOutOfRange);
    assert_eq!(
        a.set_component(5, 0).unwrap_err(),
        PhysicsError::IndexOutOfRange
    );
}

#[test]
fn equality_needs_equal_length() {
    // A shared prefix is not equality.
    assert_ne!(v(vec![1, 2]), v(vec![1, 2, 3]));
    assert_eq!(v(vec![1, 2]), v(vec![1, 2]));
    assert_ne!(v(vec![1, 2]), v(vec![1, 3]));
}
