use std::cmp::Ordering;
use vrp_pragmatic::capacity::MultiDimensionalCapacity;

#[test]
fn can_create_capacity_from_values() {
    let capacity = MultiDimensionalCapacity::new(vec![1, 2, 3]);
    assert_eq!(capacity.size, 3);
    assert_eq!(capacity.get(0), 1);
    assert_eq!(capacity.get(2), 3);
    assert_eq!(capacity.get(7), 0);
    assert_eq!(capacity.as_vec(), vec![1, 2, 3]);
}

#[test]
fn empty_capacity_is_listed_as_single_zero() {
    let capacity = MultiDimensionalCapacity::default();
    assert_eq!(capacity.size, 0);
    assert_eq!(capacity.as_vec(), vec![0]);
}

#[test]
fn can_add_and_subtract_capacities() {
    let a = MultiDimensionalCapacity::new(vec![1, 2]);
    let b = MultiDimensionalCapacity::new(vec![3, 4, 5]);
    let sum = a + b;
    assert_eq!(sum.as_vec(), vec![4, 6, 5]);
    assert_eq!((b + a).as_vec(), sum.as_vec());
    let back = sum - b;
    assert_eq!(back.get(0), 1);
    assert_eq!(back.get(1), 2);
    assert_eq!(back.get(2), 0);
    assert_eq!(back.size, 3);
}

#[test]
fn zero_capacity_is_add_identity() {
    let a = MultiDimensionalCapacity::new(vec![7, -2]);
    let sum = a + MultiDimensionalCapacity::default();
    assert_eq!(sum.as_vec(), vec![7, -2]);
}

#[test]
fn compares_capacities_by_dominance() {
    let a = MultiDimensionalCapacity::new(vec![1, 5]);
    let b = MultiDimensionalCapacity::new(vec![2, 3]);
    assert_eq!(a.cmp(&b), Ordering::Greater);
    assert_eq!(b.cmp(&a), Ordering::Greater);
    let c = MultiDimensionalCapacity::new(vec![1, 4]);
    assert_eq!(c.cmp(&a), Ordering::Less);
    assert_eq!(a.cmp(&c), Ordering::Greater);
    assert_eq!(a.cmp(&a), Ordering::Equal);
    assert!(a == MultiDimensionalCapacity::new(vec![1, 5]));
    assert!(a != c);
    assert!(c < a);
    assert!(a > c);
}
