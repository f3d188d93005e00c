use path_flatten::Error;

#[test]
fn error_it_works() {
    let result = 2 + 2;
    assert_eq!(result, 4);
}

#[test]
fn custom_builds_a_message() {
    assert_eq!(Error::custom("bad".to_string()), Error::Message("bad".to_string()));
}
