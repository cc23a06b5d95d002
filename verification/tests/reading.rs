use benchmaxxed_xml::{
    count_document, decode_xml_bytes, parse_compact_document, parse_compact_document_with_config,
    parse_document_view, parse_document_view_with_source_offsets, validate_document_bytes,
    ParserConfig, SimpleDescendantFilter, XmlAttributeWhitespacePolicy, XmlDom, XmlDomError,
    XmlDomNode, XmlDomXPathNode, XmlInputEncoding, XmlNode, XmlNodeKind, XmlParser, XmlPath,
    XmlSourceCoordinates, XmlTextWhitespacePolicy, XmlVersion,
};

fn names(document: &XmlDom, nodes: &[XmlDomNode]) -> Vec<String> {
    nodes
        .iter()
        .map(|node| node.name(document).unwrap().unwrap_or_default())
        .collect()
}

#[test]
fn references_stand_for_their_characters() {
    let document =
        XmlDom::parse("<a k='&lt;&#65;&#x1F600;'>&amp;&gt;&apos;&quot;&#xe9;\r\nx\ry</a>").unwrap();
    let root = document.root();
    assert_eq!(root.attribute(&document, "k").unwrap().as_deref(), Some("<A😀"));
    assert_eq!(
        root.text(&document).unwrap().as_deref(),
        Some("&>'\"é\nx\ny")
    );
}

#[test]
fn white_space_of_an_attribute_follows_the_policy() {
    let read = |policy| {
        let document = XmlDom::parse_with_config(
            "<a k=' x\n\ty  z '/>",
            ParserConfig::preserve_all().attribute_whitespace(policy),
        )
        .unwrap();
        document.root().attribute(&document, "k").unwrap().unwrap()
    };
    assert_eq!(read(XmlAttributeWhitespacePolicy::Normalize), " x  y  z ");
    assert_eq!(
        read(XmlAttributeWhitespacePolicy::NormalizeAndCollapse),
        "x y z"
    );
}

#[test]
fn white_space_of_a_text_follows_the_policy() {
    let read = |policy| {
        let document = XmlDom::parse_with_config(
            "<a> <b/> x </a>",
            ParserConfig::preserve_all().text_whitespace(policy),
        )
        .unwrap();
        document.root().to_inner_xml_string(&document).unwrap()
    };
    assert_eq!(read(XmlTextWhitespacePolicy::Preserve), " <b/> x ");
    assert_eq!(read(XmlTextWhitespacePolicy::Trim), "<b/>x");
}

#[test]
fn what_is_not_preserved_is_left_out() {
    let source = "<?xml version='1.0'?><!DOCTYPE a><!--x--><a>t<!--y--><?p?><![CDATA[c]]></a>";
    let bare = ParserConfig::preserve_all()
        .preserve_declaration(false)
        .preserve_doctype(false)
        .preserve_comments(false)
        .preserve_processing_instructions(false)
        .preserve_text_nodes(false);
    let compact = parse_compact_document_with_config(source.to_owned(), bare).unwrap();
    assert!(compact.declaration().is_none());
    assert!(compact.doctype().is_none());
    assert!(compact.misc_before_root().is_empty());
    let kinds: Vec<XmlNodeKind> = compact.nodes().iter().map(|node| node.kind()).collect();
    assert_eq!(kinds, [XmlNodeKind::Element, XmlNodeKind::Cdata]);
    let text = ParserConfig::preserve_all().preserve_cdata_nodes(false);
    let compact = parse_compact_document_with_config(source.to_owned(), text).unwrap();
    let kinds: Vec<XmlNodeKind> = compact.nodes().iter().map(|node| node.kind()).collect();
    assert_eq!(
        kinds,
        [
            XmlNodeKind::Element,
            XmlNodeKind::Text,
            XmlNodeKind::Comment,
            XmlNodeKind::ProcessingInstruction,
            XmlNodeKind::Text,
        ]
    );
}

#[test]
fn the_version_is_the_declared_one() {
    let version = |source: &str| {
        parse_compact_document(source.to_owned())
            .unwrap()
            .version()
    };
    assert_eq!(version("<a/>"), XmlVersion::Xml10);
    assert_eq!(version("<?xml version='1.0'?><a/>"), XmlVersion::Xml10);
    assert_eq!(version("<?xml version='1.1'?><a/>"), XmlVersion::Xml11);
    let document = XmlDom::parse("<?xml version='1.1'?><a>x\u{85}y\u{2028}z</a>").unwrap();
    assert_eq!(
        document.root().text(&document).unwrap().as_deref(),
        Some("x\ny\nz")
    );
}

#[test]
fn records_point_into_their_source() {
    let source = "<a k='v' l='w'>é<b/><?p d?></a>";
    let compact = parse_compact_document(source.to_owned()).unwrap();
    let records = compact.nodes();
    assert_eq!(records.len(), 4);
    assert_eq!(records[0].attribute_range(), 0..2);
    assert_eq!(records[0].next_subtree(), 4);
    assert_eq!(records[0].first_child().unwrap().index(), 1);
    assert!(records[2].first_child().is_none());
    let raw = compact.raw_source();
    assert_eq!(records[0].name_with_source(raw), Some("a"));
    assert_eq!(records[1].value_with_source(raw), Some("é"));
    assert_eq!(records[3].name_with_source(raw), Some("p"));
    assert_eq!(records[3].value_with_source(raw), Some("d"));
    let attributes = compact.attributes();
    assert_eq!(attributes[1].name(raw), Some("l"));
    assert_eq!(attributes[1].value(raw), Some("w"));
    let other = parse_compact_document(source.to_owned()).unwrap();
    assert_eq!(compact.node_value(compact.root()), None);
    assert_eq!(other.children(other.root()).len(), 3);
    let root = compact.root_node();
    assert_eq!(root.attribute("k").unwrap().raw_value(), "v");
    assert_eq!(root.child("b").unwrap().id().index(), 2);
    assert_eq!(root.children_named("b").len(), 1);
    assert_eq!(root.children().len(), 3);
}

#[test]
fn views_borrow_and_locate_their_nodes() {
    let source = "<a k='v'>é<b/></a>";
    let view = parse_document_view(source).unwrap();
    assert_eq!(view.node_name(view.root()), Some("a"));
    assert_eq!(view.attribute_value(0), Some("v"));
    assert_eq!(view.node_ids().len(), 3);
    assert_eq!(view.root_node().child("b").unwrap().kind(), XmlNodeKind::Element);
    let located = parse_document_view_with_source_offsets(source).unwrap();
    let span = located.offsets.nodes[2].span;
    assert_eq!(&source[span.start..span.end], "<b/>");
    let whole = located.offsets.nodes[0].span;
    assert_eq!(&source[whole.start..whole.end], source);
    let attribute = located.offsets.attributes[0];
    assert_eq!(&source[attribute.span.start..attribute.span.end], "k='v'");
    assert_eq!(&source[attribute.name.start..attribute.name.end], "k");
    assert_eq!(&source[attribute.value.start..attribute.value.end], "v");
    assert!(XmlParser::preserving_all()
        .parse_view_with_source_offsets(source)
        .is_ok());
}

#[test]
fn every_entry_point_reads_the_same_document() {
    let source = "<a><b/>t</a>";
    let parser = XmlParser::preserving_all();
    let expected = count_document(source).unwrap();
    assert_eq!((expected.elements, expected.attributes, expected.nodes), (2, 0, 3));
    assert_eq!(parser.parse_compact(source).unwrap().tree_stats(), expected);
    assert_eq!(
        parser.parse_compact_bytes(source.as_bytes()).unwrap().tree_stats(),
        expected
    );
    assert_eq!(
        parser.parse_compact_tolerant(source).unwrap().value.tree_stats(),
        expected
    );
    assert_eq!(
        parser
            .parse_compact_bytes_tolerant(source.as_bytes())
            .unwrap()
            .value
            .tree_stats(),
        expected
    );
    assert_eq!(parser.parse(source).unwrap().tree_stats(), expected);
    assert!(validate_document_bytes(source.as_bytes()).is_ok());
}

#[test]
fn encodings_are_found_and_named() {
    let decoded = decode_xml_bytes(b"\xef\xbb\xbf<a>\xc3\xa9</a>").unwrap();
    assert_eq!(decoded.as_str(), "<a>é</a>");
    assert_eq!(decoded.encoding, XmlInputEncoding::Utf8);
    let decoded = decode_xml_bytes(b"\xfe\xff\0<\0a\0/\0>").unwrap();
    assert_eq!(decoded.as_str(), "<a/>");
    assert_eq!(decoded.encoding, XmlInputEncoding::Utf16Be);
    let decoded =
        decode_xml_bytes(b"<?xml version='1.0' encoding='latin1'?><a>\xe9</a>").unwrap();
    assert!(decoded.as_str().ends_with("<a>é</a>"));
    assert_eq!(decoded.encoding, XmlInputEncoding::Latin1);
    assert!(decode_xml_bytes(b"\xff\xfe\x00\xd8<\0").is_err());
}

#[test]
fn neighbours_are_found_by_place_and_by_name() {
    let document = XmlDom::parse("<a><b/>t<c/><b/></a>").unwrap();
    let root = document.root();
    let first = root.first_child(&document).unwrap().unwrap();
    let last = root.last_child(&document).unwrap().unwrap();
    assert_eq!(first.next_sibling(&document).unwrap().unwrap().kind(&document).unwrap(), XmlNodeKind::Text);
    assert_eq!(
        last.previous_sibling(&document).unwrap().unwrap().name(&document).unwrap().as_deref(),
        Some("c")
    );
    assert_eq!(
        first.next_sibling_named(&document, "b").unwrap().unwrap().id(),
        last.id()
    );
    assert_eq!(
        last.previous_sibling_named(&document, "b").unwrap().unwrap().id(),
        first.id()
    );
    assert!(last.next_sibling(&document).unwrap().is_none());
    assert!(first.previous_sibling(&document).unwrap().is_none());
    assert!(root.parent(&document).unwrap().is_none());
    assert_eq!(first.root(&document).unwrap().id(), root.id());
    assert_eq!(root.children_named(&document, "b").unwrap().len(), 2);
}

#[test]
fn a_walk_goes_both_ways() {
    let document = XmlDom::parse("<a><b><c/></b><d/></a>").unwrap();
    let root = document.root();
    let mut walk = root.walk(&document).unwrap();
    assert_eq!(walk.len(), 4);
    let front = walk.next().unwrap();
    let back = walk.next_back().unwrap();
    assert_eq!(names(&document, &[front, back]), ["a", "d"]);
    assert_eq!(names(&document, &walk.into_vec()), ["b", "c"]);
    let below = root.descendants(&document).unwrap();
    assert_eq!(names(&document, &below), ["b", "c", "d"]);
    let elements = root.walk_elements(&document).unwrap().into_vec();
    assert_eq!(names(&document, &elements), ["a", "b", "c", "d"]);
}

#[test]
fn a_scan_shows_names_values_and_attributes() {
    let document = XmlDom::parse("<a k='&lt;'>x&amp;y<b/></a>").unwrap();
    let mut seen = Vec::new();
    document
        .root()
        .scan(&document, |node| {
            let mut pairs = Vec::new();
            let mut attributes = node.attributes();
            while let Some(attribute) = attributes.next() {
                let attribute = attribute?;
                pairs.push((attribute.name().to_owned(), attribute.value().to_owned()));
            }
            seen.push((
                node.kind(),
                node.name().map(str::to_owned),
                node.value()?,
                pairs,
            ));
            Ok(())
        })
        .unwrap();
    assert_eq!(
        seen,
        vec![
            (
                XmlNodeKind::Element,
                Some("a".to_owned()),
                None,
                vec![("k".to_owned(), "<".to_owned())]
            ),
            (XmlNodeKind::Text, None, Some("x&y".to_owned()), vec![]),
            (XmlNodeKind::Element, Some("b".to_owned()), None, vec![]),
        ]
    );
}

#[test]
fn a_scan_goes_in_the_order_of_a_walk_and_stops_at_an_error() {
    let document = XmlDom::parse("<a><b>x</b><!--c--><d><e/></d></a>").unwrap();
    let root = document.root();
    let walked: Vec<_> = root
        .walk(&document)
        .unwrap()
        .into_vec()
        .iter()
        .map(|node| (node.kind(&document).unwrap(), node.name(&document).unwrap()))
        .collect();
    let mut scanned = Vec::new();
    let outcome = root.scan(&document, |node| {
        scanned.push((node.kind(), node.name().map(str::to_owned)));
        Ok(())
    });
    assert_eq!(outcome, Ok(()));
    assert_eq!(scanned, walked);

    let mut calls = 0;
    let outcome = root.scan(&document, |node| {
        calls += 1;
        if node.kind() == XmlNodeKind::Comment {
            Err(XmlDomError::InvalidTarget)
        } else {
            Ok(())
        }
    });
    assert_eq!(outcome, Err(XmlDomError::InvalidTarget));
    assert_eq!(calls, 4);

    let other = XmlDom::parse("<o/>").unwrap();
    let outcome = root.scan(&other, |_| panic!("nothing is visited"));
    assert_eq!(outcome, Err(XmlDomError::WrongDocument));
}

#[test]
fn namespaces_are_those_in_scope() {
    let document = XmlDom::parse(
        "<a xmlns='urn:d' xmlns:p='urn:p' q='0'><p:b p:k='1' k='2'><c xmlns=''/></p:b></a>",
    )
    .unwrap();
    let root = document.root();
    let b = root.child_ns(&document, Some("urn:p"), "b").unwrap().unwrap();
    let c = b.child_ns(&document, None, "c").unwrap().unwrap();
    let name = b.expanded_name(&document).unwrap().unwrap();
    assert_eq!(name.qualified, "p:b");
    assert_eq!(name.local, "b");
    assert_eq!(name.prefix.as_deref(), Some("p"));
    assert_eq!(name.namespace_uri.as_deref(), Some("urn:p"));
    assert_eq!(
        b.attribute_ns(&document, Some("urn:p"), "k").unwrap().as_deref(),
        Some("1")
    );
    assert_eq!(
        b.attribute_ns(&document, None, "k").unwrap().as_deref(),
        Some("2")
    );
    assert_eq!(
        c.lookup_namespace_uri(&document, Some("p")).unwrap().as_deref(),
        Some("urn:p")
    );
    assert_eq!(c.lookup_namespace_uri(&document, None).unwrap(), None);
    assert_eq!(
        b.lookup_namespace_uri(&document, None).unwrap().as_deref(),
        Some("urn:d")
    );
    assert_eq!(root.children_ns(&document, Some("urn:p"), "b").unwrap().len(), 1);
    assert!(root.child_ns(&document, Some("urn:d"), "b").unwrap().is_none());

    let XmlNode::Element(element) = root.snapshot(&document).unwrap() else {
        panic!("the root is an element");
    };
    let declared: Vec<(Option<&str>, &str)> = element
        .namespace_declarations()
        .iter()
        .map(|binding| (binding.prefix, binding.uri))
        .collect();
    assert_eq!(declared, [(None, "urn:d"), (Some("p"), "urn:p")]);
    assert!(element.attributes()[0].is_namespace_declaration());
    assert!(!element.attributes()[2].is_namespace_declaration());
}

#[test]
fn a_position_counts_bytes_lines_and_characters() {
    let document = XmlDom::parse("<a>\n é<b/></a>").unwrap();
    let b = document.root().child(&document, "b").unwrap().unwrap();
    let position = b.source_position(&document).unwrap().unwrap();
    assert_eq!((position.byte, position.line, position.column), (8, 2, 4));
    assert_eq!(position.coordinates, XmlSourceCoordinates::DecodedUtf8);
}

#[test]
fn part_of_a_document_is_written_alone() {
    let document = XmlDom::parse("<a><b k='1'>x<c/></b></a>").unwrap();
    let b = document.root().child(&document, "b").unwrap().unwrap();
    assert_eq!(b.to_xml_string(&document).unwrap(), "<b k=\"1\">x<c/></b>");
    assert_eq!(b.to_inner_xml_string(&document).unwrap(), "x<c/>");
    let single = benchmaxxed_xml::XmlSerializeOptions {
        quote_style: benchmaxxed_xml::XmlQuoteStyle::Single,
        ..benchmaxxed_xml::XmlSerializeOptions::default()
    };
    assert_eq!(
        b.to_xml_string_with_options(&document, &single).unwrap(),
        "<b k='1'>x<c/></b>"
    );
    assert_eq!(
        b.to_inner_xml_string_with_options(&document, &single).unwrap(),
        "x<c/>"
    );
    assert_eq!(b.to_xml_bytes(&document, &single, true).unwrap(), b"x<c/>");
}

#[test]
fn a_filter_selects_by_name_and_attributes() {
    let document = XmlDom::parse("<a><b k='1'/><b/><c><b k='2' l='3'/></c></a>").unwrap();
    let select = |name: Option<&str>, required: &[&str]| {
        document
            .select_simple_descendants(&SimpleDescendantFilter {
                element_name: name.map(|name| name.to_owned()),
                required_attributes: required.iter().map(|name| (*name).to_owned()).collect(),
            })
            .map(|set| set.len())
    };
    assert_eq!(select(Some("b"), &[]), Some(3));
    assert_eq!(select(Some("b"), &["k"]), Some(2));
    assert_eq!(select(Some("b"), &["k", "l"]), Some(1));
    assert_eq!(select(None, &["k"]), Some(2));
    assert_eq!(select(Some("none"), &[]), Some(0));
}

#[test]
fn a_query_node_gives_its_parts_and_its_text() {
    let document = XmlDom::parse("<a k='v'>x<b>y</b><!--c--></a>").unwrap();
    let root = document.root();
    let comment = root.last_child(&document).unwrap().unwrap();
    let element = XmlDomXPathNode::Element(root.clone());
    assert_eq!(element.string_value(&document).unwrap(), "xy");
    assert!(element.as_element().is_some());
    assert!(element.owner().is_none());
    let attribute = XmlDomXPathNode::Attribute {
        owner: root.clone(),
        name: "k".to_owned(),
    };
    assert_eq!(attribute.string_value(&document).unwrap(), "v");
    assert_eq!(attribute.as_attribute().unwrap().1, "k");
    assert_eq!(attribute.owner().unwrap().id(), root.id());
    assert!(attribute.as_node().is_none());
    let binding = XmlDomXPathNode::Namespace {
        owner: root.clone(),
        prefix: Some("p".to_owned()),
        uri: "urn:p".to_owned(),
    };
    assert_eq!(binding.string_value(&document).unwrap(), "urn:p");
    assert_eq!(binding.as_namespace().unwrap().1, Some("p"));
    let comment = XmlDomXPathNode::Comment(comment);
    assert_eq!(comment.string_value(&document).unwrap(), "c");
    assert!(comment.as_node().is_some());
}

#[test]
fn the_parent_of_a_childs_path_is_the_path() {
    let path = XmlPath::root().child(2).child(0);
    assert_eq!(path.indexes(), [2, 0]);
    assert_eq!(path.parent().unwrap().indexes(), [2]);
    assert!(path.parent().unwrap().parent().unwrap().is_root());
    assert!(XmlPath::root().parent().is_none());
}

#[test]
fn documents_have_tokens_of_their_own() {
    let first = parse_compact_document("<a/>".to_owned()).unwrap();
    let second = parse_compact_document("<a/>".to_owned()).unwrap();
    assert_eq!(first.nodes()[0].name_with_source(first.raw_source()), Some("a"));
    assert_eq!(first.nodes()[0].name_with_source(second.raw_source()), None);
}
