use xstd::{IntersperseIter, IntersperseIterAdapter};

#[test]
fn keep_empty_iter_empty() {
    let mut iter = Vec::<i32>::new().intersperse(100);
    assert_eq!(iter.next(), None);
}

#[test]
fn keep_singleton_iter_singleton() {
    let mut iter = vec![2].intersperse(100);
    assert_eq!(iter.next(), Some(2));
    assert_eq!(iter.next(), None);
}

#[test]
fn intersperse_between_elements() {
    let iter = vec![1, 2, 3].intersperse(100);

    assert_eq!(vec![1, 100, 2, 100, 3], iter.collect());
}

#[test]
fn intersperse_length_is_one_less_than_twice() {
    for n in 0..6usize {
        let src: Vec<usize> = (0..n).collect();
        let out = src.intersperse(99).collect();
        let expected = if n == 0 { 0 } else { 2 * n - 1 };
        assert_eq!(out.len(), expected);
    }
}

#[test]
fn intersperse_even_places_hold_elements_odd_places_separators() {
    let out = vec![7, 8, 9, 10].intersperse(0).collect();
    assert_eq!(out.len(), 7);
    for (i, x) in out.iter().enumerate() {
        if i % 2 == 0 {
            assert_eq!(*x, [7, 8, 9, 10][i / 2]);
        } else {
            assert_eq!(*x, 0);
        }
    }
}

#[test]
fn intersperse_empty_stays_empty_whatever_the_separator() {
    assert_eq!(Vec::<i32>::new().intersperse(1).collect(), Vec::<i32>::new());
    assert_eq!(Vec::<i32>::new().intersperse(-5).collect(), Vec::<i32>::new());
}

#[test]
fn intersperse_keeps_returning_none_after_end() {
    let mut iter = IntersperseIter::new(vec![4, 5], 0);
    assert_eq!(iter.next(), Some(4));
    assert_eq!(iter.next(), Some(0));
    assert_eq!(iter.next(), Some(5));
    assert_eq!(iter.next(), None);
    assert_eq!(iter.next(), None);
}

#[test]
fn intersperse_collect_after_one_element_owes_a_separator() {
    let mut iter = vec![1, 2, 3].intersperse(100);
    assert_eq!(iter.next(), Some(1));
    assert_eq!(iter.collect(), vec![100, 2, 100, 3]);
}

#[test]
fn intersperse_clones_owned_separator() {
    let out = vec![String::from("a"), String::from("b"), String::from("c")]
        .intersperse(String::from("-"))
        .collect();
    assert_eq!(out, vec!["a", "-", "b", "-", "c"]);
}
