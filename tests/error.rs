use xstd::GenericError;

#[test]
fn generic_error_carries_its_message() {
    let e = GenericError::new(String::from("disk full"));
    assert_eq!(e.msg(), "disk full");
    assert_eq!(e.to_string(), "disk full");
}
