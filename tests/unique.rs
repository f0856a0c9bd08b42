use xstd::unique::unique_by_keys;
use xstd::{Unique, UniqueBy};

#[test]
fn test_unique() {
    let res = vec![3, 1, 2, 3, 4, 1, 6, 3, 8].unique_by(|x: &i32| x.clone());
    assert_eq!(vec![3, 1, 2, 4, 6, 8], res);
}

#[test]
fn unique_by_first_occurrence_of_key_wins() {
    let res = vec![10, 21, 13, 4, 35, 16].unique_by(|x: &i32| x % 3);
    assert_eq!(res, vec![10, 21, 35]);
}

#[test]
fn unique_by_keys_keeps_first_of_each_key() {
    let res = unique_by_keys(vec!['a', 'b', 'c', 'd', 'e'], vec![1, 2, 1, 3, 2]);
    assert_eq!(res, vec!['a', 'b', 'd']);
}

#[test]
fn unique_by_keeps_source_order() {
    let res = vec![5, 4, 3, 2, 1].unique_by(|x: &i32| *x);
    assert_eq!(res, vec![5, 4, 3, 2, 1]);
}

#[test]
fn unique_by_same_input_same_output() {
    let a = vec![1, 1, 2, 3, 2].unique_by(|x: &i32| x * 2);
    let b = vec![1, 1, 2, 3, 2].unique_by(|x: &i32| x * 2);
    assert_eq!(a, b);
}

#[test]
fn unique_by_empty() {
    let res = Vec::<i32>::new().unique_by(|x: &i32| *x);
    assert!(res.is_empty());
}

#[test]
fn unique_first_seen_remembers_keys() {
    let mut u: Unique<(), (), u8> = Unique::new((), ());
    assert!(u.first_seen(7));
    assert!(u.first_seen(8));
    assert!(!u.first_seen(7));
    assert!(!u.first_seen(8));
    assert!(u.first_seen(9));
}
