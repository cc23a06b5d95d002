use benchmaxxed_xml::{XmlDom, XmlElement, XmlMutationError, XmlNode};

const DEPTH: usize = 100_000;

/// Elements in one another, with a text in the innermost one.
fn nested(depth: usize) -> XmlElement {
    let mut root = XmlElement::new("a").unwrap();
    let mut at = &mut root;
    for _ in 1..depth {
        at = at.append_element("a").unwrap();
    }
    at.set_text("x").unwrap();
    root
}

/// Elements in one another as they are written.
fn written(depth: usize) -> String {
    format!("{}x{}", "<a>".repeat(depth), "</a>".repeat(depth))
}

#[test]
fn deep_elements_are_copied_and_compared() {
    let tree = nested(DEPTH);
    let copy = tree.clone();
    assert!(copy == tree);
    let mut other = tree.clone();
    let mut at = &mut other;
    for _ in 1..DEPTH {
        at = at.child_mut("a").unwrap();
    }
    at.set_text("y").unwrap();
    assert!(other != tree);
    assert_eq!(tree.text_content(), "x");
    assert_eq!(other.text_content(), "y");
    std::mem::forget((tree, copy, other));
}

#[test]
fn deep_elements_are_checked() {
    let mut root = XmlElement::new("r").unwrap();
    root.append_child(XmlNode::Element(nested(DEPTH))).unwrap();

    let mut bad = nested(DEPTH);
    let mut at = &mut bad;
    for _ in 1..DEPTH {
        at = at.child_mut("a").unwrap();
    }
    *at.first_child_mut().unwrap() = XmlNode::Comment("--".to_owned());
    assert_eq!(
        root.append_child(XmlNode::Element(bad)).err().unwrap(),
        XmlMutationError::InvalidComment
    );
    assert_eq!(root.children().len(), 1);
    root.clear_children();
    assert!(root.children().is_empty());
}

#[test]
fn deep_elements_are_added_to_a_document_and_written() {
    let mut document = XmlDom::new("r").unwrap();
    let root = document.root();
    let top = root
        .append_node(&mut document, XmlNode::Element(nested(DEPTH)))
        .unwrap();
    assert_eq!(
        document.to_xml_string().unwrap(),
        format!("<r>{}</r>", written(DEPTH))
    );
    assert_eq!(top.to_inner_xml_string(&document).unwrap(), written(DEPTH - 1));
    assert_eq!(document.tree_stats().nodes, DEPTH + 2);

    let copy = document.deep_clone();
    assert_eq!(
        copy.to_xml_string().unwrap(),
        document.to_xml_string().unwrap()
    );
    std::mem::forget(copy);

    let nodes = top.descendants(&document).unwrap();
    let last = &nodes[nodes.len() - 2];
    assert_eq!(last.depth(&document).unwrap(), DEPTH);
    last.set_text(&mut document, "y").unwrap();
    assert_eq!(last.text(&document).unwrap().as_deref(), Some("y"));
    assert!(last.lookup_namespace_uri(&document, Some("p")).unwrap().is_none());

    let XmlNode::Element(element) = top.remove(&mut document).unwrap() else {
        panic!("an element was added");
    };
    assert_eq!(element.text_content(), "y");
    std::mem::forget(element);
    assert_eq!(document.to_xml_string().unwrap(), "<r/>");
}

#[test]
fn deep_elements_are_moved_and_copied_within_a_document() {
    let mut document = XmlDom::parse("<r><s/></r>").unwrap();
    let root = document.root();
    let s = root.child(&document, "s").unwrap().unwrap();
    let top = root
        .append_node(&mut document, XmlNode::Element(nested(DEPTH)))
        .unwrap();
    top.move_to(&mut document, &s, 0).unwrap();
    s.append_copy(&mut document, &top).unwrap();
    let expected = format!("<r><s>{}{}</s></r>", written(DEPTH), written(DEPTH));
    assert_eq!(document.to_xml_string().unwrap(), expected);
    s.clear(&mut document).unwrap();
    assert_eq!(document.to_xml_string().unwrap(), "<r><s/></r>");
}
