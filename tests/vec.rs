use xstd::{Unlines, Unwords};

#[test]
fn unlines_joins_with_line_feeds() {
    assert_eq!("", Vec::<&str>::new().unlines());
    assert_eq!("one", vec!["one"].unlines());
    assert_eq!("one\ntwo", vec!["one", "two"].unlines());
    assert_eq!("a\n\nc", vec!["a", "", "c"].unlines());
}

#[test]
fn unwords_joins_with_spaces() {
    assert_eq!("", Vec::<&str>::new().unwords());
    assert_eq!("one", vec!["one"].unwords());
    assert_eq!("one two", vec!["one", "two"].unwords());
    assert_eq!("x y z", vec!["x", "y", "z"].unwords());
}
