use panrelease::parser::xml::parsexml::XMLDocument;
use panrelease::parser::xml::xmlstring::XmlString;
use panrelease::parser::{CodecError, FormatCodec};

#[test]
fn first_matching_sibling_wins() {
    let doc = XmlString::new("<a><b>1</b><b>2</b></a>");
    let got = doc.extract("a/b").unwrap().unwrap();
    assert_eq!("1", got);
}

#[test]
fn missing_element_is_a_not_found_error() {
    let doc = XmlString::new("<a><b>1</b><b>2</b></a>");
    let err = doc.extract("a/c").unwrap_err();
    assert!(matches!(err, CodecError::NotAnObject));
    assert_eq!("Parsed value is not an object", err.message());
}

#[test]
fn project_version_round_trip() {
    let mut doc = XmlString::new("<project><version>1.2.3</version></project>");
    let got = doc.extract("project/version").unwrap().unwrap();
    assert_eq!("1.2.3", got);
    doc.replace("project/version", "1.2.4").unwrap();
    assert_eq!("<project><version>1.2.4</version></project>", doc.to_string());
}

#[test]
fn declaration_attributes_and_nesting_are_parsed() {
    let text = "<?xml version=\"1.0\" encoding=\"UTF-8\"?>\n<project xmlns=\"http://maven.apache.org/POM/4.0.0\">\n  <properties>\n    <my.prop>7.7.7</my.prop>\n  </properties>\n  <version>${my.prop}</version>\n</project>";
    let doc = XmlString::new(text);
    let got = doc.extract("project/properties/my.prop").unwrap().unwrap();
    assert_eq!("7.7.7", got);
    let ver = doc.extract("project/version").unwrap().unwrap();
    assert_eq!("${my.prop}", ver);
}

#[test]
fn replace_keeps_every_other_byte() {
    let text = "<?xml version=\"1.0\"?>\n<project>\n  <name>x</name>\n  <version>0.1.0</version>\n</project>";
    let mut doc = XmlString::new(text);
    doc.replace("project/version", "0.2.0").unwrap();
    assert_eq!(
        "<?xml version=\"1.0\"?>\n<project>\n  <name>x</name>\n  <version>0.2.0</version>\n</project>",
        doc.to_string()
    );
}

#[test]
fn xml_replace_with_same_value_is_identity() {
    let text = "<a><b>same</b></a>";
    let mut doc = XmlString::new(text);
    let current = doc.extract("a/b").unwrap().unwrap();
    doc.replace("a/b", &current).unwrap();
    assert_eq!(text, doc.to_string());
}

#[test]
fn malformed_xml_is_a_parse_error() {
    let doc = XmlString::new("<a><b>1</a>x");
    let err = doc.extract("a/b").unwrap_err();
    assert!(matches!(err, CodecError::Parse(_)));
}

#[test]
fn trailing_text_names_the_extra_characters() {
    let doc = XmlString::new("<a>1</a>junk");
    let err = doc.extract("a").unwrap_err();
    assert_eq!(
        "extra characters after expression: \"junk\"",
        err.message()
    );
}

#[test]
fn duplicate_attribute_is_a_parse_error() {
    let doc = XmlString::new("<a x='1' x='2'>t</a>");
    let err = doc.extract("a").unwrap_err();
    assert!(matches!(err, CodecError::Parse(_)));
}

#[test]
fn cdata_content_is_a_zero_copy_leaf() {
    let doc = XmlString::new("<a><![CDATA[hi there]]></a>");
    let got = doc.extract("a").unwrap().unwrap();
    assert_eq!("hi there", got);
}

#[test]
fn decoded_reference_cannot_be_extracted() {
    let doc = XmlString::new("<a>&gt;rest</a>");
    let err = doc.extract("a").unwrap_err();
    assert!(matches!(err, CodecError::LeafNotFound(_)));
}

#[test]
fn empty_element_has_no_text_leaf() {
    let doc = XmlString::new("<a><b/></a>");
    let err = doc.extract("a/b").unwrap_err();
    assert!(matches!(err, CodecError::LeafNotFound(_)));
}

#[test]
fn comments_and_instructions_are_skipped() {
    let doc = XmlString::new("<a><!-- note --><?pi data?><b>ok</b></a>");
    let got = doc.extract("a/b").unwrap().unwrap();
    assert_eq!("ok", got);
}

#[test]
fn numeric_character_references_decode() {
    // a decimal and a hexadecimal reference both parse, but make the leaf
    // decoded rather than zero-copy
    let doc = XmlString::new("<a>&#65;</a>");
    assert!(matches!(
        doc.extract("a").unwrap_err(),
        CodecError::LeafNotFound(_)
    ));
    let doc2 = XmlString::new("<a>&#x41;</a>");
    assert!(matches!(
        doc2.extract("a").unwrap_err(),
        CodecError::LeafNotFound(_)
    ));
}

#[test]
fn doctype_with_entity_declarations_parses() {
    let text = "<?xml version='1.0'?>\n<!DOCTYPE root [ <!ENTITY greet 'hello'> ]>\n<root><v>1</v></root>";
    let doc = XmlString::new(text);
    let got = doc.extract("root/v").unwrap().unwrap();
    assert_eq!("1", got);
}

#[test]
fn document_parse_rejects_trailing_text() {
    match XMLDocument::parse("<a>1</a>junk") {
        Err(e) => assert_eq!("extra characters after expression: \"junk\"", e.message),
        Ok(_) => panic!("trailing text accepted"),
    }
    match XMLDocument::parse("<a>1</a") {
        Err(e) => assert_eq!("could not parse document", e.message),
        Ok(_) => panic!("unterminated document accepted"),
    }
    assert!(XMLDocument::parse("  <a>1</a>  ").is_ok());
}

#[test]
fn leading_whitespace_after_open_tag_is_skipped() {
    let doc = XmlString::new("<a>  <b>v</b></a>");
    let got = doc.extract("a/b").unwrap().unwrap();
    assert_eq!("v", got);
}
