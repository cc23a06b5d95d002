use benchmaxxed_xml::{
    XmlAttribute, XmlDoctype, XmlDom, XmlDomError, XmlMutationError, XmlNode, XmlNodeKind,
    XmlProcessingInstruction,
};

fn element(name: &str) -> XmlNode {
    XmlNode::element(name).unwrap()
}

#[test]
fn a_refused_change_leaves_the_document_as_it_was() {
    let mut document = XmlDom::parse("<a k=\"1\"><b/>t<!--c--><?p d?></a>").unwrap();
    let before = document.to_xml_string().unwrap();
    let root = document.root();
    let text = root.children(&document).unwrap()[1].clone();
    let comment = root.children(&document).unwrap()[2].clone();
    let instruction = root.children(&document).unwrap()[3].clone();
    let invalid = |name: &str| XmlDomError::Mutation(XmlMutationError::InvalidName(name.to_owned()));

    assert_eq!(root.set_name(&mut document, "1"), Err(invalid("1")));
    assert_eq!(
        root.append_element(&mut document, "x y").err().unwrap(),
        invalid("x y")
    );
    assert_eq!(
        root.set_attribute(&mut document, "k", "\u{1}"),
        Err(XmlDomError::Mutation(XmlMutationError::InvalidCharacter))
    );
    assert_eq!(
        comment.set_value(&mut document, "x--y"),
        Err(XmlDomError::Mutation(XmlMutationError::InvalidComment))
    );
    assert_eq!(
        instruction.set_value(&mut document, "x?>y"),
        Err(XmlDomError::Mutation(
            XmlMutationError::InvalidProcessingInstruction
        ))
    );
    assert_eq!(
        text.append_element(&mut document, "x").err().unwrap(),
        XmlDomError::NotElement
    );
    assert_eq!(
        root.insert_before(&mut document, element("x")).err().unwrap(),
        XmlDomError::RootHasNoSiblings
    );
    assert_eq!(
        root.remove(&mut document).err().unwrap(),
        XmlDomError::RootHasNoSiblings
    );
    assert_eq!(
        root.insert_attribute(&mut document, 9, "n", "v"),
        Err(XmlDomError::InvalidTarget)
    );
    assert_eq!(
        document.set_declaration("version=\"9\""),
        Err(XmlDomError::Mutation(XmlMutationError::InvalidDeclaration))
    );
    assert_eq!(
        document.set_doctype(XmlDoctype {
            name: "a".to_owned(),
            public_id: Some("p".to_owned()),
            system_id: None,
            internal_subset: None,
        }),
        Err(XmlDomError::Mutation(XmlMutationError::InvalidDoctype))
    );
    assert_eq!(
        document.append_before_root(element("x")),
        Err(XmlDomError::InvalidTarget)
    );
    assert_eq!(document.to_xml_string().unwrap(), before);
    assert!(document.is_compact());
}

#[test]
fn what_is_set_is_read() {
    let mut document = XmlDom::parse("<a k=\"1\"><b>t</b></a>").unwrap();
    let root = document.root();
    let b = root.child(&document, "b").unwrap().unwrap();

    root.set_attribute(&mut document, "k", "2").unwrap();
    root.set_attribute_typed(&mut document, "n", -7i32).unwrap();
    assert_eq!(root.attribute(&document, "k").unwrap().as_deref(), Some("2"));
    assert_eq!(root.attribute(&document, "n").unwrap().as_deref(), Some("-7"));
    assert_eq!(root.ensure_attribute(&mut document, "k", "9").unwrap(), "2");
    assert_eq!(root.ensure_attribute(&mut document, "z", "9").unwrap(), "9");
    assert!(root.remove_attribute(&mut document, "k").unwrap());
    assert!(!root.remove_attribute(&mut document, "k").unwrap());
    assert_eq!(root.attribute(&document, "k").unwrap(), None);

    b.set_name(&mut document, "c").unwrap();
    assert_eq!(b.name(&document).unwrap().as_deref(), Some("c"));
    assert_eq!(b.name_len(&document).unwrap(), Some(1));
    b.set_text(&mut document, "u & v").unwrap();
    assert_eq!(b.text(&document).unwrap().as_deref(), Some("u & v"));
    b.set_text_typed(&mut document, true).unwrap();
    assert_eq!(b.text(&document).unwrap().as_deref(), Some("true"));
    assert_eq!(b.ensure_text(&mut document, "other").unwrap(), "true");
    let text = b.first_child(&document).unwrap().unwrap();
    text.set_value(&mut document, "w").unwrap();
    assert_eq!(text.value(&document).unwrap().as_deref(), Some("w"));
    assert_eq!(text.kind(&document).unwrap(), XmlNodeKind::Text);
    b.clear(&mut document).unwrap();
    assert_eq!(b.ensure_text(&mut document, "other").unwrap(), "other");
    assert_eq!(
        document.to_xml_string().unwrap(),
        "<a n=\"-7\" z=\"9\"><c>other</c></a>"
    );
}

#[test]
fn handles_follow_their_nodes() {
    let mut document = XmlDom::parse("<a><b/><c><d/></c></a>").unwrap();
    let root = document.root();
    let b = root.child(&document, "b").unwrap().unwrap();
    let c = root.child(&document, "c").unwrap().unwrap();
    let d = c.child(&document, "d").unwrap().unwrap();

    root.prepend_element(&mut document, "first").unwrap();
    b.insert_after(&mut document, element("after")).unwrap();
    assert_eq!(b.name(&document).unwrap().as_deref(), Some("b"));
    assert_eq!(d.depth(&document).unwrap(), 2);

    let moved = d.move_to(&mut document, &root, 0).unwrap();
    assert_eq!(moved, d);
    assert_eq!(d.depth(&document).unwrap(), 1);
    assert_eq!(d.parent(&document).unwrap(), Some(root.clone()));
    assert_eq!(
        document.to_xml_string().unwrap(),
        "<a><d/><first/><b/><after/><c/></a>"
    );

    c.remove(&mut document).unwrap();
    assert_eq!(c.name(&document), Err(XmlDomError::DeletedHandle));
    assert_eq!(b.name(&document).unwrap().as_deref(), Some("b"));

    let other = XmlDom::new("other").unwrap();
    assert_eq!(other.root().name(&document), Err(XmlDomError::WrongDocument));

    document.reset("fresh").unwrap();
    assert_eq!(b.name(&document), Err(XmlDomError::StaleHandle));
    assert_eq!(root.name(&document), Err(XmlDomError::StaleHandle));
    assert_eq!(document.to_xml_string().unwrap(), "<fresh/>");
}

#[test]
fn a_node_cannot_move_below_itself() {
    let mut document = XmlDom::parse("<a><b><c/></b><d/>t</a>").unwrap();
    let before = document.to_xml_string().unwrap();
    let root = document.root();
    let b = root.child(&document, "b").unwrap().unwrap();
    let c = b.child(&document, "c").unwrap().unwrap();
    let d = root.child(&document, "d").unwrap().unwrap();
    let text = root.last_child(&document).unwrap().unwrap();
    assert_eq!(
        b.move_to(&mut document, &c, 0).err().unwrap(),
        XmlDomError::Mutation(XmlMutationError::MoveIntoDescendant)
    );
    assert_eq!(
        b.move_to(&mut document, &b, 0).err().unwrap(),
        XmlDomError::Mutation(XmlMutationError::MoveIntoDescendant)
    );
    assert!(root.move_to(&mut document, &d, 0).is_err());
    assert!(b.move_to(&mut document, &text, 0).is_err());
    assert!(b.move_to(&mut document, &d, 1).is_err());
    assert_eq!(document.to_xml_string().unwrap(), before);
}

#[test]
fn attributes_are_copied_and_moved() {
    let mut document = XmlDom::parse("<a><b k=\"1\" l=\"&lt;\"/><c k=\"2\"/></a>").unwrap();
    let other = XmlDom::parse("<o m=\"3\"/>").unwrap();
    let root = document.root();
    let b = root.child(&document, "b").unwrap().unwrap();
    let c = root.child(&document, "c").unwrap().unwrap();
    assert!(c.copy_attribute_from(&mut document, &b, "k").unwrap());
    assert!(!c.copy_attribute_from(&mut document, &b, "none").unwrap());
    assert!(c.move_attribute_from(&mut document, &b, "l").unwrap());
    assert!(c
        .copy_attribute_from_document(&mut document, &other, &other.root(), "m")
        .unwrap());
    assert!(c
        .replace_attribute(&mut document, "m", "n", "4")
        .unwrap());
    assert_eq!(
        document.to_xml_string().unwrap(),
        "<a><b k=\"1\"/><c k=\"1\" l=\"&lt;\" n=\"4\"/></a>"
    );
    c.clear_attributes(&mut document).unwrap();
    assert!(c.attributes(&document).unwrap().is_empty());
}

#[test]
fn copies_are_nodes_of_their_own() {
    let mut document = XmlDom::parse("<a><b><c/></b></a>").unwrap();
    let root = document.root();
    let b = root.child(&document, "b").unwrap().unwrap();
    let copy = root.append_copy(&mut document, &b).unwrap();
    assert_ne!(copy, b);
    copy.set_name(&mut document, "copy").unwrap();
    let other = XmlDom::parse("<o><p/></o>").unwrap();
    root.append_copy_from(&mut document, &other, &other.root())
        .unwrap();
    assert_eq!(
        document.to_xml_string().unwrap(),
        "<a><b><c/></b><copy><c/></copy><o><p/></o></a>"
    );

    let clone = document.deep_clone();
    assert_eq!(clone.to_xml_string().unwrap(), document.to_xml_string().unwrap());
    assert_eq!(root.name(&clone), Err(XmlDomError::WrongDocument));
    let sent = clone.try_into_send().ok().unwrap().into_local();
    assert_eq!(sent.root().name(&sent).unwrap().as_deref(), Some("a"));
}

#[test]
fn nodes_beside_the_root_are_kept_in_order() {
    let mut document = XmlDom::new("a").unwrap();
    let comment = |text: &str| XmlNode::Comment(text.to_owned());
    document.append_before_root(comment("1")).unwrap();
    document.set_doctype_name("a").unwrap();
    document.append_before_root(comment("2")).unwrap();
    document.append_after_root(comment("3")).unwrap();
    assert_eq!(
        document.to_xml_string().unwrap(),
        "<!--1--><!DOCTYPE a><!--2--><a/><!--3-->"
    );
    let stats = document.document_stats();
    assert_eq!((stats.elements, stats.attributes, stats.nodes), (1, 0, 5));
    document.replace_before_root(0, comment("one")).unwrap();
    document.remove_before_root(1).unwrap();
    document.replace_after_root(0, comment("three")).unwrap();
    assert_eq!(
        document.remove_after_root(1).err().unwrap(),
        XmlDomError::Mutation(XmlMutationError::IndexOutOfBounds { index: 1, len: 1 })
    );
    document.clear_doctype();
    assert_eq!(
        document.to_xml_string().unwrap(),
        "<!--one--><a/><!--three-->"
    );
}

#[test]
fn a_document_type_declaration_is_checked_part_by_part() {
    let mut doctype = XmlDoctype::new("a").unwrap();
    assert_eq!(
        doctype.set_public_id(Some("{".to_owned())),
        Err(XmlMutationError::InvalidCharacter)
    );
    doctype.set_system_id(Some("s".to_owned())).unwrap();
    doctype.set_public_id(Some("p".to_owned())).unwrap();
    assert_eq!(
        doctype.set_internal_subset(Some("\u{1}".to_owned())),
        Err(XmlMutationError::InvalidCharacter)
    );
    doctype
        .set_internal_subset(Some("<!ENTITY".to_owned()))
        .unwrap();
    let mut document = XmlDom::new("a").unwrap();
    let broken = XmlDoctype {
        name: "a".to_owned(),
        public_id: None,
        system_id: None,
        internal_subset: Some("<!ENTITY".to_owned()),
    };
    assert_eq!(
        document.set_doctype(broken),
        Err(XmlDomError::Mutation(XmlMutationError::InvalidDoctype))
    );
    doctype
        .set_internal_subset(Some("<!ENTITY e \"x\">".to_owned()))
        .unwrap();
    document.set_doctype(doctype).unwrap();
    assert_eq!(
        document.to_xml_string().unwrap(),
        "<!DOCTYPE a PUBLIC \"p\" \"s\" [<!ENTITY e \"x\">]><a/>"
    );
}

#[test]
fn plain_elements_refuse_what_cannot_be_written() {
    let mut element = benchmaxxed_xml::XmlElement::new("a").unwrap();
    element.append_attribute("k", "1").unwrap();
    assert_eq!(
        element.append_attribute("1", "2").err().unwrap(),
        XmlMutationError::InvalidName("1".to_owned())
    );
    assert_eq!(
        element
            .insert_attribute(5, XmlAttribute::new("n", "v").unwrap())
            .err()
            .unwrap(),
        XmlMutationError::IndexOutOfBounds { index: 5, len: 1 }
    );
    element.attribute_mut("k").unwrap().set_value("3").unwrap();
    assert_eq!(element.attribute("k").unwrap().value(), "3");
    assert_eq!(
        element
            .append_child(XmlNode::Comment("--".to_owned()))
            .err()
            .unwrap(),
        XmlMutationError::InvalidComment
    );
    element.append_child(XmlNode::Text("x".to_owned())).unwrap();
    element.prepend_child(XmlNode::element("b").unwrap()).unwrap();
    element
        .insert_child(1, XmlNode::Cdata("y".to_owned()))
        .unwrap();
    assert_eq!(element.text_content(), "yx");
    assert_eq!(element.element_children().len(), 1);
    element
        .child_mut("b")
        .unwrap()
        .append_element("c")
        .unwrap()
        .set_text("z")
        .unwrap();
    assert_eq!(element.text_content(), "zyx");
    element
        .first_child_mut()
        .unwrap()
        .as_element_mut()
        .unwrap()
        .set_name("d")
        .unwrap();
    element.ensure_child("d").unwrap();
    element.ensure_child("e").unwrap();
    let names: Vec<&str> = element
        .element_children()
        .iter()
        .map(|child| child.name())
        .collect();
    assert_eq!(names, ["d", "e"]);
    *element.last_child_mut().unwrap() = XmlNode::Text("end".to_owned());
    assert_eq!(element.last_child().unwrap().value(), Some("end"));
    element.clear_children();
    assert!(element.children().is_empty());

    let mut instruction = XmlProcessingInstruction::new("p", "d").unwrap();
    assert_eq!(
        instruction.set_data("?>"),
        Err(XmlMutationError::InvalidProcessingInstruction)
    );
    instruction.set_data("e").unwrap();
    assert_eq!((instruction.target(), instruction.data()), ("p", "e"));
}

#[test]
fn a_tree_with_an_attribute_twice_is_refused() {
    let mut document = XmlDom::new("a").unwrap();
    let root = document.root();
    let twice = benchmaxxed_xml::XmlElement {
        name: "b".to_owned(),
        attributes: vec![
            XmlAttribute::new("k", "1").unwrap(),
            XmlAttribute::new("k", "2").unwrap(),
        ],
        children: Vec::new(),
    };
    assert_eq!(
        root.append_node(&mut document, XmlNode::Element(twice)).err().unwrap(),
        XmlDomError::Mutation(XmlMutationError::DuplicateAttribute("k".to_owned()))
    );
    assert_eq!(document.to_xml_string().unwrap(), "<a/>");
}

#[test]
fn an_attribute_reads_as_a_truth_value() {
    let read = |value: &str, default| XmlAttribute::new("k", value).unwrap().as_bool(default);
    for yes in ["1", "true", "T", "yes", "Y"] {
        assert!(read(yes, false));
    }
    for no in ["0", "false", "no", "x"] {
        assert!(!read(no, true));
    }
    assert!(read("", true));
    assert!(!read("", false));
}

#[test]
fn an_attribute_moves_to_another_document() {
    let mut a = XmlDom::parse("<a/>").unwrap();
    let mut b = XmlDom::parse("<b x='1' y='2'/>").unwrap();
    let (to, from) = (a.root(), b.root());
    assert!(to
        .move_attribute_from_document(&mut a, &mut b, &from, "x")
        .unwrap());
    assert_eq!(to.attribute(&a, "x").unwrap().as_deref(), Some("1"));
    assert_eq!(from.attribute(&b, "x").unwrap(), None);
    assert_eq!(b.to_xml_string().unwrap(), "<b y=\"2\"/>");
    assert!(!to
        .move_attribute_from_document(&mut a, &mut b, &from, "x")
        .unwrap());
    assert_eq!(
        to.move_attribute_from_document(&mut a, &mut b, &to, "y"),
        Err(XmlDomError::WrongDocument)
    );
    assert_eq!(a.to_xml_string().unwrap(), "<a x=\"1\"/>");
}

#[test]
fn an_instruction_is_not_an_element_of_its_name() {
    let mut document = XmlDom::parse("<r><?x y?></r>").unwrap();
    let root = document.root();
    let new = root.ensure_element(&mut document, "x").unwrap();
    assert_eq!(new.kind(&document).unwrap(), XmlNodeKind::Element);
    assert_eq!(new.name(&document).unwrap().as_deref(), Some("x"));
    assert_eq!(document.to_xml_string().unwrap(), "<r><?x y?><x/></r>");
    assert_eq!(root.ensure_element(&mut document, "x").unwrap(), new);
    assert_eq!(root.children(&document).unwrap().len(), 2);
}
