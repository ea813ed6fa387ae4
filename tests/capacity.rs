use vrp_pragmatic::capacity::MultiDimensionalCapacity;

fn values(c: &MultiDimensionalCapacity) -> Vec<i32> {
    (0..c.dims()).map(|i| c.get(i)).collect()
}

#[test]
fn capacity_add_and_sub_by_axis() {
    let a = MultiDimensionalCapacity::new(vec![1, 2, 3]);
    let b = MultiDimensionalCapacity::new(vec![10, -20, 0]);

    assert_eq!(values(&a.add(&b)), vec![11, -18, 3]);
    assert_eq!(values(&a.sub(&b)), vec![-9, 22, 3]);
    assert!(a.sub(&a).is_zero());
    assert!(!a.is_zero());
}

#[test]
fn capacity_zero_and_equality() {
    let zero = MultiDimensionalCapacity::zero(2);
    assert_eq!(values(&zero), vec![0, 0]);
    assert!(zero == MultiDimensionalCapacity::new(vec![0, 0]));
    assert!(zero != MultiDimensionalCapacity::new(vec![0, 1]));
    assert!(zero != MultiDimensionalCapacity::new(vec![0, 0, 0]));
}

#[test]
fn capacity_sum_of_items() {
    let items = vec![
        MultiDimensionalCapacity::new(vec![1, 2]),
        MultiDimensionalCapacity::new(vec![3, -4]),
        MultiDimensionalCapacity::new(vec![5, 6]),
    ];
    assert_eq!(values(&MultiDimensionalCapacity::sum(&items, 2)), vec![9, 4]);
    assert_eq!(values(&MultiDimensionalCapacity::sum(&vec![], 3)), vec![0, 0, 0]);
}
