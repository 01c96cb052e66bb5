use hyperion::HttpBody;

#[test]
fn a_body_holds_the_bytes_it_was_given() {
    let body = HttpBody::new(vec![1, 2, 3, 0, 255]);
    assert_eq!(body.len(), 5);
    assert_eq!(body.as_bytes(), vec![1, 2, 3, 0, 255]);
    let copy = body.clone();
    assert_eq!(copy.as_bytes(), body.as_bytes());
}

#[test]
fn an_empty_body_has_length_0() {
    let body = HttpBody::new(Vec::new());
    assert_eq!(body.len(), 0);
    assert!(body.as_bytes().is_empty());
}
