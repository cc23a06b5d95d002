use benchmaxxed_xml::{
    parse_compact_document, XmlDeclarationMode, XmlDoctype, XmlDom, XmlElement, XmlNode,
    XmlOutputEncoding, XmlProcessingInstruction, XmlQuoteStyle, XmlSerializeOptions,
};

fn content(document: &XmlDom) -> String {
    format!(
        "{:?} {:?} {:?} {:?} {:?}",
        document.declaration(),
        document.doctype(),
        document.before_root_nodes(),
        document.root().snapshot(document).unwrap(),
        document.after_root_nodes(),
    )
}

fn edited_document() -> XmlDom {
    let mut document = XmlDom::new("catalog").unwrap();
    let root = document.root();
    root.set_attribute(&mut document, "note", "a<b & \"c\" 'd'\t\n\r")
        .unwrap();
    let item = root.append_element(&mut document, "item").unwrap();
    item.set_attribute(&mut document, "id", "1").unwrap();
    item.append_node(
        &mut document,
        XmlNode::Text("1 < 2 && 3 > 2\r ]]> é 😀".to_owned()),
    )
    .unwrap();
    item.append_node(&mut document, XmlNode::Cdata("x]] > <y>".to_owned()))
        .unwrap();
    item.append_node(&mut document, XmlNode::Comment(" c - d ".to_owned()))
        .unwrap();
    root.append_node(
        &mut document,
        XmlNode::ProcessingInstruction(
            XmlProcessingInstruction::new("go", "left? right").unwrap(),
        ),
    )
    .unwrap();
    root.append_element(&mut document, "empty").unwrap();
    document
        .append_before_root(XmlNode::Comment("before".to_owned()))
        .unwrap();
    document
        .append_after_root(XmlNode::ProcessingInstruction(
            XmlProcessingInstruction::new("done", "").unwrap(),
        ))
        .unwrap();
    document
        .set_doctype(XmlDoctype {
            name: "catalog".to_owned(),
            public_id: Some("-//A//B 'C'//EN".to_owned()),
            system_id: Some("say \"hi\".dtd".to_owned()),
            internal_subset: Some("<!ENTITY e \"v]\"><!-- ' -->".to_owned()),
        })
        .unwrap();
    document.set_declaration("version=\"1.0\"").unwrap();
    document
}

#[test]
fn an_edited_document_reads_back_as_it_was() {
    let document = edited_document();
    let text = document.to_xml_string().unwrap();
    assert_eq!(
        text,
        "<?xml version=\"1.0\"?><!--before--><!DOCTYPE catalog PUBLIC \"-//A//B 'C'//EN\" \
         'say \"hi\".dtd' [<!ENTITY e \"v]\"><!-- ' -->]><catalog note=\"a&lt;b &amp; \
         &quot;c&quot; 'd'&#x9;&#xA;&#xD;\"><item id=\"1\">1 &lt; 2 &amp;&amp; 3 &gt; 2&#xD; ]]&gt; é \
         😀<![CDATA[x]] > <y>]]><!-- c - d --></item><?go left? right?><empty/></catalog><?done?>"
    );
    let again = XmlDom::parse(&text).unwrap();
    assert_eq!(content(&again), content(&document));
}

#[test]
fn every_encoding_and_quotation_mark_reads_back() {
    let document = edited_document();
    for quote_style in [XmlQuoteStyle::Double, XmlQuoteStyle::Single] {
        for encoding in [
            XmlOutputEncoding::Utf8,
            XmlOutputEncoding::Utf16Le,
            XmlOutputEncoding::Utf16Be,
        ] {
            for write_bom in [false, true] {
                let options = XmlSerializeOptions {
                    quote_style,
                    encoding,
                    write_bom,
                    ..XmlSerializeOptions::default()
                };
                let bytes = document.to_xml_bytes(&options).unwrap();
                let again = XmlDom::parse_bytes(&bytes).unwrap();
                assert_eq!(content(&again), content(&document));
            }
        }
    }
}

#[test]
fn encoded_bytes_are_exact() {
    let mut document = XmlDom::new("a").unwrap();
    document.root().set_text(&mut document, "é😀").unwrap();
    let bytes = |encoding, write_bom| {
        document
            .to_xml_bytes(&XmlSerializeOptions {
                encoding,
                write_bom,
                ..XmlSerializeOptions::default()
            })
            .unwrap()
    };
    assert_eq!(
        bytes(XmlOutputEncoding::Utf8, true),
        b"\xef\xbb\xbf<a>\xc3\xa9\xf0\x9f\x98\x80</a>"
    );
    assert_eq!(
        bytes(XmlOutputEncoding::Utf16Le, true),
        b"\xff\xfe<\0a\0>\0\xe9\0\x3d\xd8\x00\xde<\0/\0a\0>\0"
    );
    assert_eq!(
        bytes(XmlOutputEncoding::Utf16Be, false),
        b"\0<\0a\0>\0\xe9\xd8\x3d\xde\x00\0<\0/\0a\0>"
    );
}

#[test]
fn declaration_modes_decide_what_is_written() {
    let mut document = XmlDom::new("a").unwrap();
    let write = |document: &XmlDom, declaration, encoding| {
        document
            .to_xml_string_with_options(&XmlSerializeOptions {
                declaration,
                encoding,
                ..XmlSerializeOptions::default()
            })
            .unwrap()
    };
    assert_eq!(
        write(&document, XmlDeclarationMode::Always, XmlOutputEncoding::Utf8),
        "<?xml version=\"1.0\" encoding=\"UTF-8\"?><a/>"
    );
    assert_eq!(
        write(&document, XmlDeclarationMode::Always, XmlOutputEncoding::Utf16Le),
        "<?xml version=\"1.0\" encoding=\"UTF-16\"?><a/>"
    );
    assert_eq!(
        write(&document, XmlDeclarationMode::Preserve, XmlOutputEncoding::Utf8),
        "<a/>"
    );
    document
        .set_declaration("version=\"1.0\" standalone=\"yes\"")
        .unwrap();
    for mode in [XmlDeclarationMode::Preserve, XmlDeclarationMode::Always] {
        assert_eq!(
            write(&document, mode, XmlOutputEncoding::Utf8),
            "<?xml version=\"1.0\" standalone=\"yes\"?><a/>"
        );
    }
    assert_eq!(
        write(&document, XmlDeclarationMode::Omit, XmlOutputEncoding::Utf8),
        "<a/>"
    );
}

#[test]
fn a_generated_declaration_reads_back() {
    let document = XmlDom::new("a").unwrap();
    for encoding in [
        XmlOutputEncoding::Utf8,
        XmlOutputEncoding::Utf16Le,
        XmlOutputEncoding::Utf16Be,
    ] {
        let bytes = document
            .to_xml_bytes(&XmlSerializeOptions {
                declaration: XmlDeclarationMode::Always,
                encoding,
                ..XmlSerializeOptions::default()
            })
            .unwrap();
        let again = XmlDom::parse_bytes(&bytes).unwrap();
        assert!(again
            .declaration()
            .unwrap()
            .data
            .starts_with("version=\"1.0\" encoding=\"UTF-"));
    }
}

#[test]
fn a_cdata_section_that_holds_its_end_is_split() {
    let mut document = XmlDom::new("a").unwrap();
    let root = document.root();
    root.append_node(&mut document, XmlNode::Cdata("x]]>y".to_owned()))
        .unwrap();
    let text = document.to_xml_string().unwrap();
    assert_eq!(text, "<a><![CDATA[x]]]]><![CDATA[>y]]></a>");
    let again = XmlDom::parse(&text).unwrap();
    assert_eq!(again.root().children(&again).unwrap().len(), 2);
}

#[test]
fn a_carriage_return_in_a_comment_reads_back_as_a_line_feed() {
    let mut document = XmlDom::new("a").unwrap();
    let root = document.root();
    root.append_node(&mut document, XmlNode::Comment("x\ry".to_owned()))
        .unwrap();
    let again = XmlDom::parse(&document.to_xml_string().unwrap()).unwrap();
    let comment = again.root().first_child(&again).unwrap().unwrap();
    assert_eq!(comment.value(&again).unwrap().as_deref(), Some("x\ny"));
}

#[test]
fn texts_side_by_side_read_back_as_one() {
    let mut document = XmlDom::new("a").unwrap();
    let root = document.root();
    for text in ["x", "y"] {
        root.append_node(&mut document, XmlNode::Text(text.to_owned()))
            .unwrap();
    }
    assert_eq!(root.children(&document).unwrap().len(), 2);
    let again = XmlDom::parse(&document.to_xml_string().unwrap()).unwrap();
    assert_eq!(again.root().children(&again).unwrap().len(), 1);
    assert_eq!(again.root().text(&again).unwrap().as_deref(), Some("xy"));
}

#[test]
fn a_built_document_is_what_its_tree_is_written_as() {
    let built = XmlDom::build("a", |root| {
        root.attribute("k", "<\"&'>");
        root.attribute_typed("n", 42u32);
        root.text("1 < 2 & 3 > 2");
        root.element("b", |child| {
            child.cdata("x<y");
        });
        root.comment("c");
        root.processing_instruction("go", "left");
    })
    .unwrap();
    let source = built.to_xml_string().unwrap();
    assert_eq!(
        source,
        "<a k=\"&lt;&quot;&amp;'>\" n=\"42\">1 &lt; 2 &amp; 3 &gt; 2<b><![CDATA[x<y]]></b><!--c--><?go left?></a>"
    );
    assert_eq!(built.root().to_xml_string(&built).unwrap(), source);
    let parsed = XmlDom::parse(&source).unwrap();
    assert_eq!(content(&parsed), content(&built));
}

#[test]
fn an_attribute_behind_content_is_refused_by_the_builder() {
    let error = XmlDom::build("a", |root| {
        root.text("x").attribute("late", "1");
    })
    .err()
    .unwrap();
    assert_eq!(error.byte, 4);
    let error = XmlDom::build("a", |root| {
        root.report_unwritable_value();
    })
    .err()
    .unwrap();
    assert_eq!(error.byte, 2);
}

#[test]
fn both_forms_of_a_document_count_alike() {
    let source = "<a x=\"1\" y=\"2\">t<b z=\"3\"/><!--c--><?p d?><![CDATA[e]]></a>";
    let compact = parse_compact_document(source.to_owned()).unwrap();
    let counted = compact.tree_stats();
    assert_eq!((counted.elements, counted.attributes, counted.nodes), (2, 3, 6));
    let document = XmlDom::from_compact(compact);
    assert_eq!(document.tree_stats(), counted);
    assert_eq!(XmlDom::parse(source).unwrap().tree_stats(), counted);
}

#[test]
fn an_element_is_snapshot_and_planted_alike() {
    let document = edited_document();
    let snapshot = document.root().snapshot(&document).unwrap();
    let mut other = XmlDom::new("other").unwrap();
    let root = other.root();
    let planted = root.append_node(&mut other, snapshot).unwrap();
    assert_eq!(
        format!("{:?}", planted.snapshot(&other).unwrap()),
        format!("{:?}", document.root().snapshot(&document).unwrap()),
    );
    let removed = planted.remove(&mut other).unwrap();
    assert_eq!(
        format!("{:?}", removed),
        format!("{:?}", document.root().snapshot(&document).unwrap()),
    );
    assert_eq!(other.to_xml_string().unwrap(), "<other/>");
}

#[test]
fn an_element_without_children_is_written_short() {
    let element = XmlElement::with_text("a", "").unwrap();
    let mut document = XmlDom::new("root").unwrap();
    let root = document.root();
    root.append_node(&mut document, XmlNode::Element(element)).unwrap();
    assert_eq!(document.to_xml_string().unwrap(), "<root><a></a></root>");
    root.append_element(&mut document, "b").unwrap();
    assert_eq!(document.to_xml_string().unwrap(), "<root><a></a><b/></root>");
}

#[test]
fn a_document_of_version_1_1_reads_back_as_it_was() {
    let mut document = XmlDom::new("root").unwrap();
    let root = document.root();
    root.append_node(&mut document, XmlNode::Text("a < b é\r".to_owned()))
        .unwrap();
    root.set_attribute(&mut document, "k", "x\ty").unwrap();
    document.set_declaration("version=\"1.1\"").unwrap();
    let text = document.to_xml_string().unwrap();
    assert_eq!(
        text,
        "<?xml version=\"1.1\"?><root k=\"x&#x9;y\">a &lt; b é&#xD;</root>"
    );
    let again = XmlDom::parse(&text).unwrap();
    assert_eq!(content(&again), content(&document));
}
