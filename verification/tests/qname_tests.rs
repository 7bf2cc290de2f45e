use panrelease::parser::xml::qname::QualifiedName;

#[test]
fn local_name_is_returned_as_given() {
    let q = QualifiedName::new(None, None, String::from("version"));
    assert_eq!("version", q.get_localname());
}

#[test]
fn display_text_joins_prefix_and_local_name() {
    let plain = QualifiedName::new(None, None, String::from("b"));
    assert_eq!("b", plain.to_display_string());
    let prefixed = QualifiedName::new(None, Some(String::from("ns")), String::from("b"));
    assert_eq!("ns:b", prefixed.to_display_string());
}

#[test]
fn equality_ignores_the_prefix() {
    let a = QualifiedName::new(None, Some(String::from("x")), String::from("b"));
    let b = QualifiedName::new(None, None, String::from("b"));
    let c = QualifiedName::new(None, None, String::from("c"));
    assert!(a == b);
    assert!(a != c);
    let with_ns = QualifiedName::new(Some(String::from("urn:u")), None, String::from("b"));
    assert!(with_ns != b);
}

#[test]
fn written_name_comparison_keeps_the_prefix() {
    let a = QualifiedName::new(None, Some(String::from("x")), String::from("b"));
    let b = QualifiedName::new(None, None, String::from("b"));
    assert!(!a.same_written_name(&b));
    let a2 = QualifiedName::new(None, Some(String::from("x")), String::from("b"));
    assert!(a.same_written_name(&a2));
}
