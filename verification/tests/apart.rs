use benchmaxxed_xml::{
    parse_compact_document, ParserConfig, XmlDom, XmlDomError, XmlMutationError, XmlNode,
};

fn is_send<T: Send>(_: &T) {}

#[test]
fn a_document_leaves_its_thread_when_no_handle_is_held() {
    let document = XmlDom::parse("<a><b/></a>").unwrap();
    let root = document.root();
    let document = document.try_into_send().err().unwrap();
    assert_eq!(root.name(&document).unwrap().as_deref(), Some("a"));
    let b = root.child(&document, "b").unwrap().unwrap();
    drop(root);
    let document = document.try_into_send().err().unwrap();
    assert_eq!(b.name(&document).unwrap().as_deref(), Some("b"));
    drop(b);
    let sent = document.try_into_send().ok().unwrap();
    is_send(&sent);
    let back = sent.into_local();
    assert_eq!(back.to_xml_string().unwrap(), "<a><b/></a>");
}

#[test]
fn a_deep_copy_is_a_document_of_its_own() {
    let mut document = XmlDom::parse("<a><b/></a>").unwrap();
    let mut copy = document.deep_clone();
    assert_eq!(
        copy.to_xml_string().unwrap(),
        document.to_xml_string().unwrap()
    );
    assert_ne!(copy.root().id(), document.root().id());
    let (root, other) = (document.root(), copy.root());
    assert_eq!(root.name(&copy), Err(XmlDomError::WrongDocument));
    assert_eq!(other.name(&document), Err(XmlDomError::WrongDocument));
    root.set_attribute(&mut document, "k", "1").unwrap();
    other.append_element(&mut copy, "c").unwrap();
    assert_eq!(document.to_xml_string().unwrap(), "<a k=\"1\"><b/></a>");
    assert_eq!(copy.to_xml_string().unwrap(), "<a><b/><c/></a>");
}

#[test]
fn a_record_is_read_in_its_own_source_only() {
    let first = parse_compact_document("<a k='1'/>".to_owned()).unwrap();
    let second = parse_compact_document("<b l='2'/>".to_owned()).unwrap();
    let node = first.nodes()[0];
    assert_eq!(node.name_with_source(first.raw_source()), Some("a"));
    assert_eq!(node.name_with_source(second.raw_source()), None);
    let attribute = first.attributes()[0];
    assert_eq!(attribute.name(first.raw_source()), Some("k"));
    assert_eq!(attribute.value(first.raw_source()), Some("1"));
    assert_eq!(attribute.name(second.raw_source()), None);
    assert_eq!(attribute.value(second.raw_source()), None);
}

#[test]
fn the_text_of_a_parsed_comment_is_the_value_that_was_set() {
    let config = ParserConfig::default()
        .preserve_comments(true)
        .preserve_processing_instructions(true);
    let mut document = XmlDom::parse_with_config("<a><!--c--><?p d?></a>", config).unwrap();
    let children = document.root().children(&document).unwrap();
    assert_eq!(children[0].text(&document).unwrap(), None);
    assert_eq!(children[1].text(&document).unwrap(), None);
    children[0].set_value(&mut document, "new").unwrap();
    children[1].set_value(&mut document, "data").unwrap();
    assert_eq!(children[0].text(&document).unwrap().as_deref(), Some("new"));
    assert_eq!(children[1].text(&document).unwrap().as_deref(), Some("data"));

    let added = document
        .root()
        .append_node(&mut document, XmlNode::Comment("x".to_owned()))
        .unwrap();
    assert_eq!(added.text(&document).unwrap(), None);
    added.set_value(&mut document, "y").unwrap();
    assert_eq!(added.text(&document).unwrap(), None);
}

#[test]
fn a_changed_node_is_checked_when_it_is_copied() {
    let config = || ParserConfig::default().validate_characters(false);
    let source = "<a><b>\u{1}</b></a>";
    let mut document = XmlDom::parse_with_config(source, config()).unwrap();
    let root = document.root();
    let b = root.child(&document, "b").unwrap().unwrap();
    root.append_copy(&mut document, &b).unwrap();
    assert_eq!(
        document.to_xml_string().unwrap(),
        "<a><b>\u{1}</b><b>\u{1}</b></a>"
    );
    b.set_attribute(&mut document, "k", "1").unwrap();
    assert_eq!(
        root.append_copy(&mut document, &b).err().unwrap(),
        XmlDomError::Mutation(XmlMutationError::InvalidCharacter)
    );
    assert_eq!(
        document.to_xml_string().unwrap(),
        "<a><b k=\"1\">\u{1}</b><b>\u{1}</b></a>"
    );
}

#[test]
fn a_changed_node_has_no_place_in_the_source_once_it_is_moved() {
    let source = "<a><b><x/></b><c><y/></c><d/></a>";
    let mut document = XmlDom::parse(source).unwrap();
    let root = document.root();
    let b = root.child(&document, "b").unwrap().unwrap();
    let c = root.child(&document, "c").unwrap().unwrap();
    let d = root.child(&document, "d").unwrap().unwrap();
    b.move_to(&mut document, &d, 0).unwrap();
    assert_eq!(b.source_position(&document).unwrap().unwrap().byte, 4);
    c.set_attribute(&mut document, "k", "1").unwrap();
    assert!(c.source_position(&document).unwrap().is_some());
    c.move_to(&mut document, &d, 1).unwrap();
    assert!(c.source_position(&document).unwrap().is_none());
    assert_eq!(
        document.to_xml_string().unwrap(),
        "<a><d><b><x/></b><c k=\"1\"><y/></c></d></a>"
    );
}
