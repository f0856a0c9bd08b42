use xstd::{MementoIter, MementoIterAdapter};

#[test]
fn a() {
    let mut iter = vec![1, 2].memento();
    assert_eq!((None, None), (iter.prev(), iter.cur()));
    assert_eq!(Some(1), iter.next());
    assert_eq!((None, Some(&1)), (iter.prev(), iter.cur()));
    assert_eq!(Some(2), iter.next());
    assert_eq!((Some(&1), Some(&2)), (iter.prev(), iter.cur()));
    assert_eq!(None, iter.next());
    assert_eq!((Some(&2), None), (iter.prev(), iter.cur()));
}

#[test]
fn memento_single_element() {
    let mut iter = MementoIter::new(vec![2]);
    assert_eq!(Some(2), iter.next());
    assert_eq!(None, iter.prev());
    assert_eq!(Some(&2), iter.cur());
    assert_eq!(None, iter.next());
    assert_eq!(Some(&2), iter.prev());
    assert_eq!(None, iter.cur());
}

#[test]
fn memento_shift_register_over_four() {
    let src = vec![10, 20, 30, 40];
    let mut iter = src.clone().memento();
    for k in 0..src.len() {
        assert_eq!(iter.next(), Some(src[k]));
        assert_eq!(iter.cur(), Some(&src[k]));
        if k >= 1 {
            assert_eq!(iter.prev(), Some(&src[k - 1]));
        } else {
            assert_eq!(iter.prev(), None);
        }
    }
    assert_eq!(iter.next(), None);
    assert_eq!(iter.cur(), None);
    assert_eq!(iter.prev(), Some(&40));
    assert_eq!(iter.next(), None);
    assert_eq!(iter.cur(), None);
    assert_eq!(iter.prev(), Some(&40));
}

#[test]
fn memento_reads_do_not_advance() {
    let mut iter = vec![5, 6, 7].memento();
    iter.next();
    iter.next();
    for _ in 0..3 {
        assert_eq!(iter.cur(), Some(&6));
        assert_eq!(iter.prev(), Some(&5));
    }
    assert_eq!(iter.next(), Some(7));
}

#[test]
fn memento_empty_source() {
    let mut iter = Vec::<i32>::new().memento();
    assert_eq!(iter.next(), None);
    assert_eq!((iter.prev(), iter.cur()), (None, None));
}
