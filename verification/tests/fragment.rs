use benchmaxxed_xml::{
    parse_fragment, parse_fragment_tolerant, parse_fragment_with_config, ParserConfig, XmlElement,
    XmlMemoryRetention, XmlNode,
};

#[test]
fn parses_multiple_nodes_and_optional_character_data() {
    let fragment = parse_fragment("text<a/><!--c--><?go now?><b/>tail").unwrap();
    assert_eq!(fragment.nodes().len(), 6);
    assert!(matches!(fragment.nodes()[0], XmlNode::Text(ref value) if value == "text"));
    assert!(matches!(fragment.nodes()[5], XmlNode::Text(ref value) if value == "tail"));

    let fragment = parse_fragment_with_config(
        "text<a>nested</a>",
        ParserConfig::default().preserve_text_nodes(false),
    )
    .unwrap();
    assert_eq!(fragment.nodes().len(), 1);
    assert_eq!(fragment.nodes()[0].as_element().unwrap().children.len(), 0);
}

#[test]
fn append_is_atomic_and_returns_the_inserted_range() {
    let mut root = XmlElement::new("r").unwrap();
    root.append_element("existing").unwrap();
    let range = root.append_xml("<a/>text<b/>").unwrap();
    assert_eq!(range, 1..4);
    let snapshot = root.clone();
    assert!(root.append_xml("<broken>").is_err());
    assert_eq!(root, snapshot);
}

#[test]
fn fragment_errors_use_fragment_source_offsets() {
    let error = parse_fragment("<a></b>").unwrap_err();
    assert_eq!(error.byte, 7);
    let error = parse_fragment("<a>").unwrap_err();
    assert_eq!(error.byte, 3);
}

#[test]
fn fragment_wrapper_syntax_never_leaks_into_caller_semantics() {
    for source in [
        "</xml-fragment-18>",
        "</xml-fragment-19_>",
        "</xml-fragment><xml-fragment>",
        "</xml-fragment-37><xml-fragment-37>",
        "</xml-fragment-39_><xml-fragment-39_>",
        "</xml-fragment-41__><xml-fragment-41__>",
    ] {
        let strict = parse_fragment(source).unwrap_err();
        assert_eq!(strict.byte, 0, "{source}: {strict:?}");
        let tolerant = parse_fragment_tolerant(source).unwrap();
        assert_eq!(tolerant.consumed_bytes, 0, "{source}");
        assert!(tolerant.value.nodes().is_empty(), "{source}");
        assert_eq!(tolerant.diagnostic.as_ref(), Some(&strict), "{source}");
    }

    let fragment = parse_fragment(
        "<!-- </xml-fragment-61> --><![CDATA[ </xml-fragment-61> ]]><?p xml-fragment-61?>",
    )
    .unwrap();
    assert_eq!(fragment.nodes().len(), 3);
    assert!(
        matches!(&fragment.nodes()[0], XmlNode::Comment(value) if value.contains("xml-fragment"))
    );
    assert!(
        matches!(&fragment.nodes()[1], XmlNode::Cdata(value) if value.contains("xml-fragment"))
    );
    assert!(
        matches!(&fragment.nodes()[2], XmlNode::ProcessingInstruction(value) if value.data.contains("xml-fragment"))
    );

    let source = "é<a>ok</wrong>";
    let strict = parse_fragment(source).unwrap_err();
    assert_eq!(strict.byte, source.len());
    let tolerant = parse_fragment_tolerant(source).unwrap();
    assert_eq!(tolerant.diagnostic.as_ref(), Some(&strict));
    assert_eq!(tolerant.consumed_bytes, source.find("</wrong>").unwrap());
}

#[test]
fn tolerant_fragment_returns_complete_nodes_and_closes_the_open_prefix() {
    let source = "text<a>ok</wrong><after/>";
    let strict = parse_fragment(source).unwrap_err();
    let outcome = parse_fragment_tolerant(source).unwrap();
    assert_eq!(outcome.diagnostic.as_ref(), Some(&strict));
    assert_eq!(strict.byte, 17);
    assert_eq!(outcome.consumed_bytes, 9);
    assert_eq!(outcome.value.nodes().len(), 2);
    assert!(matches!(&outcome.value.nodes()[0], XmlNode::Text(value) if value == "text"));
    let element = outcome.value.nodes()[1].as_element().unwrap();
    assert_eq!(element.name, "a");
    assert_eq!(element.text(), Some("ok"));
    assert!(parse_fragment(source).is_err());
}

#[test]
fn lifecycle_helpers_make_capacity_retention_explicit() {
    let mut root = XmlElement::new("r").unwrap();
    root.append_element("old").unwrap();
    root.children.reserve(32);
    let reserved = root.children.capacity();
    root.append_fragment(parse_fragment("<a/><b/>").unwrap());
    assert_eq!(root.children.capacity(), reserved);

    let removed = root.remove_child_at(0).unwrap();
    assert!(matches!(removed, XmlNode::Element(_)));
    assert_eq!(root.children.capacity(), reserved);
    root.remove_child_at_with_retention(0, XmlMemoryRetention::ReleaseSpareCapacity);
    assert!(root.children.capacity() <= reserved);
}
