use std::collections::HashSet;
use std::mem::size_of;

use benchmaxxed_xml::{
    SimpleDescendantFilter, XmlAttribute, XmlCompactNode, XmlDeclarationMode, XmlDoctype, XmlDom,
    XmlDomError, XmlDomNode, XmlDomNodeSet, XmlDomOutputError, XmlDomXPathNode, XmlElement,
    XmlError, XmlErrorKind, XmlMutationError, XmlNode, XmlNodeKind, XmlOutputEncoding,
    XmlProcessingInstruction, XmlQuoteStyle, XmlSerializeOptions, XmlViewNodeId,
};

fn assert_xml_equivalent(actual: &str, expected: &str) {
    let actual = XmlDom::parse(actual).unwrap().to_xml_string().unwrap();
    let expected = XmlDom::parse(expected).unwrap().to_xml_string().unwrap();
    assert_eq!(actual, expected);
}

fn empty(name: &str) -> XmlNode {
    XmlNode::Element(XmlElement {
        name: name.to_owned(),
        attributes: Vec::new(),
        children: Vec::new(),
    })
}

fn attribute(name: &str, value: &str) -> XmlAttribute {
    XmlAttribute {
        name: name.to_owned(),
        value: value.to_owned(),
    }
}

fn descendants(document: &XmlDom, name: &str, attributes: &[&str]) -> XmlDomNodeSet {
    document
        .select_simple_descendants(&SimpleDescendantFilter {
            element_name: Some(name.to_owned()),
            required_attributes: attributes.iter().map(|name| (*name).to_owned()).collect(),
        })
        .unwrap()
}

fn count_attributes(document: &XmlDom, namespace: Option<&str>, local: &str) -> usize {
    document
        .walk_elements()
        .unwrap()
        .into_vec()
        .iter()
        .filter(|node| node.attribute_ns(document, namespace, local).unwrap().is_some())
        .count()
}

#[test]
fn facade_representation_sizes_stay_bounded() {
    assert!(size_of::<XmlDom>() <= 16);
    assert!(size_of::<XmlDomNode>() <= 80);
    assert!(size_of::<XmlDomNodeSet>() <= 128);
    assert!(size_of::<XmlCompactNode<'static>>() <= 16);
    assert!(size_of::<XmlViewNodeId>() <= 8);
}

#[test]
fn node_kind_snapshot_and_subtree_output_cover_compact_and_overlay_nodes() {
    let mut document = XmlDom::parse(
        "<?xml version='1.0'?><r><item xmlns='urn:r' id='1'>text<![CDATA[cdata]]><!--note--><?go now?></item><tail/></r>",
    )
    .unwrap();
    let item = document.root().child(&document, "item").unwrap().unwrap();
    let children = item.children(&document).unwrap();
    assert_eq!(item.kind(&document).unwrap(), XmlNodeKind::Element);
    assert_eq!(children[0].kind(&document).unwrap(), XmlNodeKind::Text);
    assert_eq!(children[1].kind(&document).unwrap(), XmlNodeKind::Cdata);
    assert_eq!(children[2].kind(&document).unwrap(), XmlNodeKind::Comment);
    assert_eq!(
        children[3].kind(&document).unwrap(),
        XmlNodeKind::ProcessingInstruction
    );

    let subtree = item.to_xml_string(&document).unwrap();
    assert!(!subtree.contains("<?xml"));
    assert_xml_equivalent(
        &format!("<wrapper>{subtree}</wrapper>"),
        "<wrapper><item xmlns='urn:r' id='1'>text<![CDATA[cdata]]><!--note--><?go now?></item></wrapper>",
    );
    assert_eq!(
        item.to_inner_xml_string(&document).unwrap(),
        "text<![CDATA[cdata]]><!--note--><?go now?>"
    );

    let snapshot = item.snapshot(&document).unwrap();
    let XmlNode::Element(snapshot) = snapshot else {
        panic!("element snapshot changed kind")
    };
    assert_eq!(snapshot.name, "item");
    assert_eq!(snapshot.attribute("id").unwrap().value, "1");

    children[0].set_value(&mut document, "edited & text").unwrap();
    let appended = item
        .append_node(&mut document, XmlNode::Cdata("overlay".into()))
        .unwrap();
    assert_eq!(appended.kind(&document).unwrap(), XmlNodeKind::Cdata);
    assert_eq!(
        item.to_inner_xml_string(&document).unwrap(),
        "edited &amp; text<![CDATA[cdata]]><!--note--><?go now?><![CDATA[overlay]]>"
    );
    assert_eq!(children[2].to_xml_string(&document).unwrap(), "<!--note-->");
}

#[test]
fn subtree_output_ignores_document_only_declaration_and_bom_options() {
    let document = XmlDom::parse("<r><item quote='yes'>A&amp;B</item></r>").unwrap();
    let item = document.root().child(&document, "item").unwrap().unwrap();
    let options = XmlSerializeOptions {
        declaration: XmlDeclarationMode::Always,
        write_bom: true,
        quote_style: XmlQuoteStyle::Single,
        ..XmlSerializeOptions::default()
    };
    let output = item.to_xml_string_with_options(&document, &options).unwrap();
    assert_eq!(output, "<item quote='yes'>A&amp;B</item>");
    assert!(!output.starts_with('\u{feff}'));

    let text = item.first_child(&document).unwrap().unwrap();
    assert_eq!(text.to_xml_string(&document).unwrap(), "A&amp;B");
    assert!(matches!(
        text.to_inner_xml_string(&document),
        Err(XmlDomOutputError::Dom(XmlDomError::NotElement))
    ));
}

#[test]
fn streaming_builder_escapes_content_and_finishes_compact() {
    let document = XmlDom::build_with_capacity("catalog", 256, |root| {
        root.attribute("label", "A&B")
            .element("item", |item| {
                item.attribute_typed("id", 7).element("name", |name| {
                    name.text("left < right");
                });
            })
            .comment("done")
            .processing_instruction("save", "now");
    })
    .unwrap();
    let output = document.to_xml_string().unwrap();
    assert_xml_equivalent(
        &output,
        "<catalog label='A&amp;B'><item id='7'><name>left &lt; right</name></item><!--done--><?save now?></catalog>",
    );
    assert!(document.is_compact());

    let error = XmlDom::build("r", |root| {
        root.text("content").attribute("too-late", "1");
    })
    .unwrap_err();
    assert_eq!(error.kind, XmlErrorKind::InvalidDocumentStructure);
}

#[test]
fn removes_and_reorders_nodes_without_materializing() {
    let mut document = XmlDom::parse("<r><a/><b/></r>").unwrap();
    let root = document.root();
    let appended = root.append_element(&mut document, "temporary").unwrap();
    appended.set_attribute(&mut document, "key", "value").unwrap();
    appended.set_text(&mut document, "discarded").unwrap();
    let removed = appended.remove(&mut document).unwrap();
    assert_eq!(removed.as_element().unwrap().name, "temporary");
    assert!(document.is_overlay());

    let root = document.root();
    let first = root.first_child(&document).unwrap().unwrap();
    let moved = first.move_to(&mut document, &root, 2).unwrap();
    assert!(document.is_overlay());
    assert_eq!(document.tree_stats().nodes, 3);

    assert_eq!(document.to_xml_string().unwrap(), "<r><b/><a/></r>");
    assert!(document.is_overlay());

    assert_eq!(moved.name(&document).unwrap().as_deref(), Some("a"));
    assert!(document.is_overlay());
    assert_eq!(document.to_xml_string().unwrap(), "<r><b/><a/></r>");
}

#[test]
fn compact_overlay_serialization_preserves_all_content_semantics() {
    let source = "<?xml version=\"1.0\"?><!--before--><!DOCTYPE r><?setup yes?><r quoted='a&quot;b'>&amp;<!--c--><![CDATA[x<y]]><?pi data?><a/></r><!--after-->";
    let mut document = XmlDom::parse(source).unwrap();
    document
        .root()
        .set_attribute(&mut document, "added", "<&\"\t\n\r")
        .unwrap();

    let output = document.to_xml_string().unwrap();
    assert_xml_equivalent(
        &output,
        "<?xml version=\"1.0\"?><!--before--><!DOCTYPE r><?setup yes?><r quoted='a&quot;b' added='&lt;&amp;&quot;&#x9;&#xA;&#xD;'>&amp;<!--c--><![CDATA[x<y]]><?pi data?><a/></r><!--after-->",
    );
    assert!(document.is_overlay());
}

#[test]
fn default_string_serialization_learns_only_verified_source_equivalence() {
    let canonical = XmlDom::parse("<r a=\"x\"><item/></r>").unwrap();
    assert!(canonical.is_compact());
    assert_eq!(canonical.to_xml_string().unwrap(), "<r a=\"x\"><item/></r>");
    assert!(canonical.is_compact());
    assert_eq!(canonical.to_xml_string().unwrap(), "<r a=\"x\"><item/></r>");

    let normalized = XmlDom::parse("<r a='x' />").unwrap();
    assert_eq!(normalized.to_xml_string().unwrap(), "<r a=\"x\"/>");
    assert!(normalized.is_compact());
    assert_eq!(normalized.to_xml_string().unwrap(), "<r a=\"x\"/>");
}

#[test]
fn full_stats_include_document_level_nodes_without_materializing() {
    let source =
        "<?xml version=\"1.0\"?><!--before--><!DOCTYPE r><?setup yes?><r><a/></r><!--after-->";
    let mut document = XmlDom::parse(source).unwrap();
    document
        .root()
        .set_attribute(&mut document, "edited", "yes")
        .unwrap();

    assert_eq!(document.tree_stats().nodes, 2);
    assert_eq!(document.document_stats().nodes, 7);
    assert_eq!(document.document_stats().elements, 2);
    assert_eq!(document.document_stats().attributes, 1);
    assert!(document.is_overlay());
}

#[test]
fn realistic_structural_edits_rebase_nested_overlays_without_materializing() {
    let mut document = XmlDom::parse("<r><a><deep/></a><b/>tail</r>").unwrap();
    let root = document.root();
    let a = root.child(&document, "a").unwrap().unwrap();
    a.set_attribute(&mut document, "edited", "yes").unwrap();
    a.child(&document, "deep")
        .unwrap()
        .unwrap()
        .set_attribute(&mut document, "nested", "kept")
        .unwrap();

    root.prepend_element(&mut document, "first").unwrap();
    let root = document.root();
    let a = root.child(&document, "a").unwrap().unwrap();
    assert_eq!(
        a.attribute(&document, "edited").unwrap().as_deref(),
        Some("yes")
    );
    assert_eq!(
        a.child(&document, "deep")
            .unwrap()
            .unwrap()
            .attribute(&document, "nested")
            .unwrap()
            .as_deref(),
        Some("kept")
    );

    let b = root.child(&document, "b").unwrap().unwrap();
    b.insert_before(&mut document, empty("middle")).unwrap();
    let root = document.root();
    let b = root.child(&document, "b").unwrap().unwrap();
    let removed = b.replace(&mut document, empty("last")).unwrap();
    assert_eq!(removed.as_element().unwrap().name, "b");

    assert_eq!(
        document.to_xml_string().unwrap(),
        "<r><first/><a edited=\"yes\"><deep nested=\"kept\"/></a><middle/><last/>tail</r>"
    );
    assert_eq!(document.tree_stats().elements, 6);
    assert!(document.is_overlay());
}

#[test]
fn empty_document_text_copy_remove_and_clear_stay_optimized() {
    let mut document = XmlDom::new("config").unwrap();
    let root = document.root();
    let item = root.append_element(&mut document, "item").unwrap();
    item.set_attribute(&mut document, "id", "7").unwrap();
    item.set_text(&mut document, "value").unwrap();
    let copied = root.append_copy(&mut document, &item).unwrap();
    copied.set_attribute(&mut document, "id", "8").unwrap();

    let root = document.root();
    let first = root.first_child(&document).unwrap().unwrap();
    let removed = first.remove(&mut document).unwrap();
    assert_eq!(
        removed.as_element().unwrap().attribute("id").unwrap().value,
        "7"
    );
    assert_eq!(
        document.to_xml_string().unwrap(),
        "<config><item id=\"8\">value</item></config>"
    );
    assert!(document.is_overlay());

    let root = document.root();
    root.clear(&mut document).unwrap();
    assert_eq!(document.to_xml_string().unwrap(), "<config/>");
    assert_eq!(document.tree_stats().nodes, 1);
    assert!(document.is_overlay());
}

#[test]
fn ordered_attribute_edits_stay_in_the_sparse_overlay() {
    let mut document = XmlDom::parse("<r a='1' b='2'/>").unwrap();
    let root = document.root();
    assert!(root.remove_attribute(&mut document, "a").unwrap());
    root.prepend_attribute(&mut document, "c", "3").unwrap();
    root.insert_attribute(&mut document, 1, "d", "4").unwrap();
    assert!(root
        .replace_attribute(&mut document, "b", "e", "5")
        .unwrap());
    root.set_attribute(&mut document, "d", "updated").unwrap();

    assert_eq!(root.attribute(&document, "a").unwrap(), None);
    assert_eq!(
        root.attribute(&document, "d").unwrap().as_deref(),
        Some("updated")
    );
    assert_eq!(
        root.attributes(&document).unwrap(),
        vec![
            ("c".to_owned(), "3".to_owned()),
            ("d".to_owned(), "updated".to_owned()),
            ("e".to_owned(), "5".to_owned()),
        ]
    );
    assert_eq!(
        document.to_xml_string().unwrap(),
        "<r c=\"3\" d=\"updated\" e=\"5\"/>"
    );
    assert_eq!(document.tree_stats().attributes, 3);
    assert!(document.is_overlay());

    root.clear_attributes(&mut document).unwrap();
    assert_eq!(document.to_xml_string().unwrap(), "<r/>");
    assert_eq!(document.tree_stats().attributes, 0);
    assert!(document.is_overlay());
}

#[test]
fn renames_and_scalar_node_values_stay_in_the_sparse_overlay() {
    let mut document = XmlDom::parse("<r><a>old</a><!--before--><?go now?></r>").unwrap();
    let root = document.root();
    root.set_name(&mut document, "renamed").unwrap();
    let element = root.first_child(&document).unwrap().unwrap();
    element.set_name(&mut document, "item").unwrap();
    let text = element.first_child(&document).unwrap().unwrap();
    text.set_value(&mut document, "new & value").unwrap();
    assert_eq!(
        text.value(&document).unwrap().as_deref(),
        Some("new & value")
    );
    assert_eq!(
        element.text(&document).unwrap().as_deref(),
        Some("new & value")
    );

    let comment = element.next_sibling(&document).unwrap().unwrap();
    comment.set_value(&mut document, "after").unwrap();
    let pi = comment.next_sibling(&document).unwrap().unwrap();
    pi.set_name(&mut document, "run").unwrap();
    pi.set_value(&mut document, "later").unwrap();

    assert_eq!(
        document.to_xml_string().unwrap(),
        "<renamed><item>new &amp; value</item><!--after--><?run later?></renamed>"
    );
    assert!(document.is_overlay());
}

#[test]
fn cross_parent_move_clones_only_the_moved_subtree_and_stays_sparse() {
    let mut document = XmlDom::parse("<r><left><x/></left><right><y/></right></r>").unwrap();
    let root = document.root();
    let left = root.child(&document, "left").unwrap().unwrap();
    left.child(&document, "x")
        .unwrap()
        .unwrap()
        .set_attribute(&mut document, "edited", "yes")
        .unwrap();
    let right = root.child(&document, "right").unwrap().unwrap();
    let moved = left.move_to(&mut document, &right, 1).unwrap();

    assert_eq!(moved.name(&document).unwrap().as_deref(), Some("left"));
    assert_eq!(
        document.to_xml_string().unwrap(),
        "<r><right><y/><left><x edited=\"yes\"/></left></right></r>"
    );
    assert!(document.is_overlay());
}

#[test]
fn subtree_copy_can_import_from_another_compact_document() {
    let source = XmlDom::parse("<source><item key='v'><nested/></item></source>").unwrap();
    let mut destination = XmlDom::new("destination").unwrap();
    let item = source.root().child(&source, "item").unwrap().unwrap();
    destination
        .root()
        .append_copy_from(&mut destination, &source, &item)
        .unwrap();
    assert_eq!(
        destination.to_xml_string().unwrap(),
        "<destination><item key=\"v\"><nested/></item></destination>"
    );
    assert!(source.is_compact());
    assert!(destination.is_overlay());
}

#[test]
fn unedited_same_document_copy_and_cross_parent_move_reuse_compact_subtrees() {
    let mut document =
        XmlDom::parse("<r><left><payload><deep/></payload></left><right/></r>").unwrap();
    let root = document.root();
    let left = root.child(&document, "left").unwrap().unwrap();
    let copied = root.append_copy(&mut document, &left).unwrap();
    copied.set_name(&mut document, "left-copy").unwrap();
    let payload = left.child(&document, "payload").unwrap().unwrap();
    let right = root.child(&document, "right").unwrap().unwrap();
    payload.move_to(&mut document, &right, 0).unwrap();

    assert_eq!(
        document.to_xml_string().unwrap(),
        "<r><left/><right><payload><deep/></payload></right><left-copy><payload><deep/></payload></left-copy></r>"
    );
    assert!(document.is_overlay());
}

#[test]
fn shared_compact_copies_have_stable_logical_identity_and_no_source_position() {
    let mut document = XmlDom::parse("<r>\n<a><x/></a><b/>\n</r>").unwrap();
    let root = document.root();
    let original = root.child(&document, "a").unwrap().unwrap();
    let first = root.append_copy(&mut document, &original).unwrap();
    first.set_name(&mut document, "first-copy").unwrap();
    assert!(first.source_position(&document).unwrap().is_none());
    assert!(first
        .child(&document, "x")
        .unwrap()
        .unwrap()
        .source_position(&document)
        .unwrap()
        .is_none());
    let second = root.append_copy(&mut document, &original).unwrap();
    second.set_name(&mut document, "second-copy").unwrap();

    document
        .root()
        .prepend_node(&mut document, XmlNode::Comment("head".to_owned()))
        .unwrap();

    assert_eq!(
        document.to_xml_string().unwrap(),
        "<r><!--head-->\n<a><x/></a><b/>\n<first-copy><x/></first-copy><second-copy><x/></second-copy></r>"
    );
    assert!(document
        .root()
        .child(&document, "first-copy")
        .unwrap()
        .unwrap()
        .source_position(&document)
        .unwrap()
        .is_none());
    assert!(document
        .root()
        .child(&document, "second-copy")
        .unwrap()
        .unwrap()
        .source_position(&document)
        .unwrap()
        .is_none());
}

#[test]
fn element_text_edits_are_coherent_after_compact_copy() {
    let mut document = XmlDom::parse("<r><a><x>A</x><x>B</x></a></r>").unwrap();
    let root = document.root();
    let original = root.child(&document, "a").unwrap().unwrap();
    let copied = root.append_copy(&mut document, &original).unwrap();
    copied.set_name(&mut document, "copy").unwrap();

    let original_second = document
        .root()
        .child(&document, "a")
        .unwrap()
        .unwrap()
        .children_named(&document, "x")
        .unwrap()[1].clone();
    original_second.set_text(&mut document, "B2").unwrap();

    let walked_text = original_second.first_child(&document).unwrap().unwrap();
    assert_eq!(walked_text.value(&document).unwrap().as_deref(), Some("B2"));
    assert_eq!(
        XmlDomXPathNode::Text(walked_text)
            .string_value(&document)
            .unwrap(),
        "B2"
    );
    assert_eq!(
        document.to_xml_string().unwrap(),
        "<r><a><x>A</x><x>B2</x></a><copy><x>A</x><x>B</x></copy></r>"
    );
}

#[test]
fn parsed_nodes_retain_line_positions_while_new_nodes_report_none() {
    let mut document = XmlDom::parse("<r>\n  <item/>\n</r>").unwrap();
    let root = document.root();
    let item = root.child(&document, "item").unwrap().unwrap();
    let position = item.source_position(&document).unwrap().unwrap();
    assert_eq!((position.line, position.column), (2, 4));
    assert!(root
        .append_element(&mut document, "new")
        .unwrap()
        .source_position(&document)
        .unwrap()
        .is_none());
    assert!(document.is_overlay());
}

#[test]
fn declaration_doctype_and_document_misc_stay_in_the_overlay() {
    let mut document = XmlDom::new("r").unwrap();
    document.set_declaration("version=\"1.0\"").unwrap();
    document.set_doctype_name("r").unwrap();
    document
        .append_before_root(XmlNode::Comment("before".to_owned()))
        .unwrap();
    document
        .append_after_root(XmlNode::ProcessingInstruction(XmlProcessingInstruction {
            target: "after".to_owned(),
            data: "yes".to_owned(),
        }))
        .unwrap();
    assert_eq!(
        document.to_xml_string().unwrap(),
        "<?xml version=\"1.0\"?><!DOCTYPE r><!--before--><r/><?after yes?>"
    );
    assert_eq!(document.document_stats().nodes, 5);
    assert!(document.is_overlay());

    document.clear_declaration();
    document.clear_doctype();
    assert!(document.declaration().is_none());
    assert!(document.doctype().is_none());
    assert_eq!(document.document_stats().nodes, 3);
}

#[test]
fn document_misc_nodes_support_ordered_inspection_replacement_and_removal() {
    let mut document =
        XmlDom::parse("<!--a--><!DOCTYPE r><?before yes?><r/><!--c--><?after yes?>").unwrap();

    let before = document.before_root_nodes();
    assert!(matches!(&before[0], XmlNode::Comment(value) if value == "a"));
    assert!(matches!(
        &before[1],
        XmlNode::ProcessingInstruction(pi) if pi.target == "before" && pi.data == "yes"
    ));
    let after = document.after_root_nodes();
    assert!(matches!(&after[0], XmlNode::Comment(value) if value == "c"));
    assert!(matches!(
        &after[1],
        XmlNode::ProcessingInstruction(pi) if pi.target == "after" && pi.data == "yes"
    ));

    assert!(matches!(
        document.remove_before_root(9),
        Err(XmlDomError::Mutation(XmlMutationError::IndexOutOfBounds {
            index: 9,
            len: 2
        }))
    ));
    assert!(document.is_compact());

    let replaced = document
        .replace_before_root(1, XmlNode::Comment("replacement".to_owned()))
        .unwrap();
    assert!(matches!(
        replaced,
        XmlNode::ProcessingInstruction(pi) if pi.target == "before"
    ));
    assert!(matches!(
        document.remove_before_root(0).unwrap(),
        XmlNode::Comment(value) if value == "a"
    ));
    let removed = document.remove_after_root(0).unwrap();
    assert!(matches!(removed, XmlNode::Comment(value) if value == "c"));
    assert!(matches!(
        document.replace_after_root(0, XmlNode::Text("invalid".to_owned())),
        Err(XmlDomError::InvalidTarget)
    ));

    assert_eq!(
        document.to_xml_string().unwrap(),
        "<!DOCTYPE r><!--replacement--><r/><?after yes?>"
    );
    assert_eq!(document.before_root_nodes().len(), 1);
    assert_eq!(document.after_root_nodes().len(), 1);
}

#[test]
fn reset_and_copy_preserve_optimized_independent_state() {
    let mut source = XmlDom::parse("<source><item/></source>").unwrap();
    source
        .root()
        .child(&source, "item")
        .unwrap()
        .unwrap()
        .set_attribute(&mut source, "edited", "yes")
        .unwrap();
    let mut destination = XmlDom::new("old").unwrap();
    let stale = destination.root();
    destination.copy_from(&source).unwrap();
    assert_eq!(stale.name(&destination), Err(XmlDomError::StaleHandle));
    assert_eq!(
        destination.to_xml_string().unwrap(),
        "<source><item edited=\"yes\"/></source>"
    );
    destination
        .root()
        .set_name(&mut destination, "independent")
        .unwrap();
    assert_eq!(
        source.root().name(&source).unwrap().as_deref(),
        Some("source")
    );

    destination.reset("fresh").unwrap();
    assert_eq!(destination.to_xml_string().unwrap(), "<fresh/>");
    assert!(destination.is_compact());
}

#[test]
fn edited_elements_are_found_by_name_and_attribute() {
    let mut document = XmlDom::parse("<r><item id='1'/></r>").unwrap();
    let root = document.root();
    root.append_element(&mut document, "item")
        .unwrap()
        .set_attribute(&mut document, "id", "2")
        .unwrap();
    let selected: Vec<_> = descendants(&document, "item", &["id"])
        .into_vec()
        .into_iter()
        .filter(|node| node.attribute(&document, "id").unwrap().as_deref() == Some("2"))
        .collect();
    assert_eq!(selected.len(), 1);
    assert_eq!(
        selected[0].attribute(&document, "id").unwrap().as_deref(),
        Some("2")
    );
    let relative: Vec<_> = root
        .children_named(&document, "item")
        .unwrap()
        .into_iter()
        .filter(|node| node.attribute(&document, "id").unwrap().as_deref() == Some("2"))
        .collect();
    assert_eq!(relative.len(), 1);
    assert_eq!(
        XmlDomXPathNode::Attribute {
            owner: relative[0].clone(),
            name: "id".to_owned()
        }
        .string_value(&document)
        .unwrap(),
        "2"
    );
    assert!(document.is_overlay());
}

#[test]
fn compact_descendant_attribute_queries_return_correct_mixed_content_paths() {
    let document =
        XmlDom::parse("<r>text<a/><b><!--before--><a x='1' y='2'/></b><a x='1' y='2'/></r>")
            .unwrap();
    let selected = descendants(&document, "a", &["x", "y"]);
    assert_eq!(selected.len(), 2);
    let selected = selected.into_vec();
    assert_eq!(
        selected[0]
            .parent(&document)
            .unwrap()
            .unwrap()
            .name(&document)
            .unwrap()
            .as_deref(),
        Some("b")
    );
    assert_eq!(
        selected[1]
            .parent(&document)
            .unwrap()
            .unwrap()
            .name(&document)
            .unwrap()
            .as_deref(),
        Some("r")
    );
    assert!(document.is_compact());
}

#[test]
fn compact_query_locations_materialize_only_when_semantics_need_a_path() {
    let mut document =
        XmlDom::parse("<r><group><member name='first'/><member name='second'/></group></r>")
            .unwrap();
    let selected = descendants(&document, "member", &["name"]);
    assert_eq!(selected.len(), 2);
    let selected = selected.into_vec();
    assert_eq!(
        selected[0].name(&document).unwrap().as_deref(),
        Some("member")
    );
    assert_eq!(
        selected[0].attribute(&document, "name").unwrap().as_deref(),
        Some("first")
    );
    selected[0]
        .set_attribute(&mut document, "edited", "yes")
        .unwrap();
    assert_eq!(
        selected[0]
            .attribute(&document, "edited")
            .unwrap()
            .as_deref(),
        Some("yes")
    );
    assert_eq!(
        selected[0]
            .parent(&document)
            .unwrap()
            .unwrap()
            .name(&document)
            .unwrap()
            .as_deref(),
        Some("group")
    );

    document
        .root()
        .set_attribute(&mut document, "overlay", "yes")
        .unwrap();
    assert_eq!(
        selected[1].name(&document).unwrap().as_deref(),
        Some("member")
    );
    assert_eq!(
        selected[1].attribute(&document, "name").unwrap().as_deref(),
        Some("second")
    );

    document.root().clear(&mut document).unwrap();
    assert_eq!(
        selected[0].name(&document),
        Err(XmlDomError::DeletedHandle)
    );
    assert!(matches!(
        selected[1].parent(&document),
        Err(XmlDomError::DeletedHandle)
    ));
}

#[test]
fn node_identity_survives_structural_edits_and_only_deleted_nodes_fail() {
    let mut document = XmlDom::parse("<r><a><x/></a><b/><c/></r>").unwrap();
    let root = document.root();
    let a = root.child(&document, "a").unwrap().unwrap();
    let x = a.child(&document, "x").unwrap().unwrap();
    let b = root.child(&document, "b").unwrap().unwrap();
    let c = root.child(&document, "c").unwrap().unwrap();
    let b_id = b.id();
    let c_id = c.id();

    root.prepend_element(&mut document, "first").unwrap();
    assert_eq!(b.name(&document).unwrap().as_deref(), Some("b"));
    assert_eq!(b.id(), b_id);
    assert_eq!(c.id(), c_id);

    b.insert_before(&mut document, XmlNode::Comment("marker".into()))
        .unwrap();
    assert_eq!(b.name(&document).unwrap().as_deref(), Some("b"));
    a.remove(&mut document).unwrap();
    assert_eq!(a.name(&document), Err(XmlDomError::DeletedHandle));
    assert_eq!(x.name(&document), Err(XmlDomError::DeletedHandle));
    assert_eq!(b.name(&document).unwrap().as_deref(), Some("b"));
    assert_eq!(c.name(&document).unwrap().as_deref(), Some("c"));

    b.replace(&mut document, empty("replacement")).unwrap();
    assert_eq!(b.name(&document), Err(XmlDomError::DeletedHandle));
    assert_eq!(c.name(&document).unwrap().as_deref(), Some("c"));

    let materialized = root.append_element(&mut document, "materialized").unwrap();
    materialized.append_element(&mut document, "p").unwrap();
    let q = materialized.append_element(&mut document, "q").unwrap();
    let q_id = q.id();
    materialized
        .prepend_element(&mut document, "materialized-first")
        .unwrap();
    assert_eq!(q.name(&document).unwrap().as_deref(), Some("q"));
    assert_eq!(q.id(), q_id);
    q.insert_before(&mut document, XmlNode::Text("text".into()))
        .unwrap();
    assert_eq!(q.name(&document).unwrap().as_deref(), Some("q"));
    q.move_to(&mut document, &materialized, 0).unwrap();
    assert_eq!(q.name(&document).unwrap().as_deref(), Some("q"));
    assert_eq!(q.id(), q_id);

    root.clear(&mut document).unwrap();
    assert_eq!(c.name(&document), Err(XmlDomError::DeletedHandle));
    assert_eq!(q.name(&document), Err(XmlDomError::DeletedHandle));
}

#[test]
fn moved_and_copied_subtrees_keep_unambiguous_identity() {
    let mut document = XmlDom::parse("<r><left><m><n/></m></left><right/></r>").unwrap();
    let root = document.root();
    let left = root.child(&document, "left").unwrap().unwrap();
    let right = root.child(&document, "right").unwrap().unwrap();
    let moved = left.child(&document, "m").unwrap().unwrap();
    let descendant = moved.child(&document, "n").unwrap().unwrap();
    let moved_id = moved.id();
    let descendant_id = descendant.id();

    let returned = moved.move_to(&mut document, &right, 0).unwrap();
    assert_eq!(returned.id(), moved_id);
    assert_eq!(moved.id(), moved_id);
    assert_eq!(descendant.id(), descendant_id);
    assert_eq!(
        descendant.parent(&document).unwrap().unwrap().id(),
        moved_id
    );

    let copied = right.append_copy(&mut document, &moved).unwrap();
    let copied_descendant = copied.child(&document, "n").unwrap().unwrap();
    assert_ne!(copied.id(), moved_id);
    assert_ne!(copied_descendant.id(), descendant_id);
    assert_ne!(copied.id(), copied_descendant.id());

    let selected = descendants(&document, "n", &[]).into_vec();
    let selected_ids: HashSet<_> = selected.iter().map(XmlDomNode::id).collect();
    assert_eq!(selected_ids.len(), 2);
    right.prepend_element(&mut document, "before").unwrap();
    assert_eq!(selected[0].name(&document).unwrap().as_deref(), Some("n"));
    assert_eq!(selected[1].name(&document).unwrap().as_deref(), Some("n"));
}

#[test]
fn retained_handle_depth_refreshes_and_reports_lifecycle_errors() {
    let mut document = XmlDom::parse("<r><left><m><n/></m></left><right/></r>").unwrap();
    let root = document.root();
    let left = root.child(&document, "left").unwrap().unwrap();
    let moved = left.child(&document, "m").unwrap().unwrap();
    let descendant = moved.child(&document, "n").unwrap().unwrap();

    assert_eq!(root.depth(&document), Ok(0));
    assert_eq!(moved.depth(&document), Ok(2));
    assert_eq!(descendant.depth(&document), Ok(3));

    moved.move_to(&mut document, &root, 1).unwrap();
    assert_eq!(moved.depth(&document), Ok(1));
    assert_eq!(descendant.depth(&document), Ok(2));

    moved.remove(&mut document).unwrap();
    assert_eq!(moved.depth(&document), Err(XmlDomError::DeletedHandle));
    assert_eq!(descendant.depth(&document), Err(XmlDomError::DeletedHandle));

    let stale = root.child(&document, "left").unwrap().unwrap();
    document.reset("new-root").unwrap();
    assert_eq!(stale.depth(&document), Err(XmlDomError::StaleHandle));
}

#[test]
fn materialized_cross_parent_move_preserves_registered_subtree_identity() {
    let mut document = XmlDom::parse("<r><left/><right/></r>").unwrap();
    let root = document.root();
    let left = root.child(&document, "left").unwrap().unwrap();
    let right = root.child(&document, "right").unwrap().unwrap();
    let moved = left.append_element(&mut document, "m").unwrap();
    let descendant = moved.append_element(&mut document, "n").unwrap();
    let moved_id = moved.id();
    let descendant_id = descendant.id();

    let returned = moved.move_to(&mut document, &right, 0).unwrap();
    assert_eq!(returned.id(), moved_id);
    assert_eq!(moved.id(), moved_id);
    assert_eq!(descendant.id(), descendant_id);
    assert_eq!(
        descendant.parent(&document).unwrap().unwrap().id(),
        moved_id
    );
}

#[test]
fn zero_copy_subtree_copies_receive_disjoint_identity_ranges() {
    let mut document = XmlDom::parse("<r><source><a><b/></a></source><copies/></r>").unwrap();
    let root = document.root();
    let source = root.child(&document, "source").unwrap().unwrap();
    let copies = root.child(&document, "copies").unwrap().unwrap();
    let first = copies.append_copy(&mut document, &source).unwrap();
    let second = copies.append_copy(&mut document, &source).unwrap();

    let source_a = source.child(&document, "a").unwrap().unwrap();
    let first_a = first.child(&document, "a").unwrap().unwrap();
    let second_a = second.child(&document, "a").unwrap().unwrap();
    let ids = [
        source.id(),
        source_a.id(),
        source_a.child(&document, "b").unwrap().unwrap().id(),
        first.id(),
        first_a.id(),
        first_a.child(&document, "b").unwrap().unwrap().id(),
        second.id(),
        second_a.id(),
        second_a.child(&document, "b").unwrap().unwrap().id(),
    ];
    assert_eq!(ids.into_iter().collect::<HashSet<_>>().len(), ids.len());
}

#[test]
fn retained_duplicate_name_handles_can_be_sorted_and_moved_to_the_end() {
    let mut document =
        XmlDom::parse("<r><items><item key='3'/><item key='1'/><item key='2'/></items></r>")
            .unwrap();
    let items = document.root().child(&document, "items").unwrap().unwrap();
    let mut collected = items.children_named(&document, "item").unwrap();
    let ids: HashSet<_> = collected.iter().map(XmlDomNode::id).collect();
    collected.sort_by_key(|node| node.attribute(&document, "key").unwrap());
    for node in &collected {
        let end = items.children(&document).unwrap().len();
        node.move_to(&mut document, &items, end).unwrap();
    }
    assert_eq!(
        items
            .children_named(&document, "item")
            .unwrap()
            .into_iter()
            .map(|node| node.attribute(&document, "key").unwrap().unwrap())
            .collect::<Vec<_>>(),
        ["1", "2", "3"]
    );
    assert_eq!(
        collected.iter().map(XmlDomNode::id).collect::<HashSet<_>>(),
        ids
    );
}

#[test]
fn tolerant_document_parse_returns_a_closed_prefix_and_preserves_strict_errors() {
    let source = "<r><good id='1'>value</good><broken><x></wrong>";
    let strict = XmlDom::parse(source).unwrap_err();
    let outcome = XmlDom::parse_tolerant(source).unwrap();
    assert_eq!(outcome.diagnostic.as_ref(), Some(&strict));
    assert_eq!(strict.byte, source.len());
    assert_eq!(outcome.consumed_bytes, source.find("</wrong>").unwrap());
    assert_eq!(
        outcome.value.to_xml_string().unwrap(),
        "<r><good id=\"1\">value</good><broken><x/></broken></r>"
    );
    assert_eq!(
        outcome
            .value
            .root()
            .child(&outcome.value, "good")
            .unwrap()
            .unwrap()
            .attribute(&outcome.value, "id")
            .unwrap()
            .as_deref(),
        Some("1")
    );
    assert_eq!(XmlDom::parse(source).unwrap_err(), strict);

    let complete = XmlDom::parse_tolerant("<r><a/></r>").unwrap();
    assert!(complete.diagnostic.is_none());
    assert_eq!(complete.consumed_bytes, "<r><a/></r>".len());
    assert!(XmlDom::parse_tolerant("<broken").is_err());
}

#[test]
fn tolerant_parse_keeps_security_limits_hard_and_reports_encoded_offsets() {
    let deeply_nested = format!("{}{}", "<a>".repeat(129), "</a>".repeat(129));
    assert!(matches!(
        XmlDom::parse_tolerant(&deeply_nested),
        Err(XmlError {
            kind: XmlErrorKind::DepthLimitExceeded,
            ..
        })
    ));

    let source = "<r>ok<bad></wrong>";
    let mut utf16 = vec![0xff, 0xfe];
    utf16.extend(source.encode_utf16().flat_map(u16::to_le_bytes));
    let outcome = XmlDom::parse_bytes_tolerant(&utf16).unwrap();
    assert_eq!(
        outcome.diagnostic.as_ref().unwrap().byte,
        2 + source.len() * 2
    );
    assert_eq!(
        outcome.consumed_bytes,
        2 + source.find("</wrong>").unwrap() * 2
    );
    assert_eq!(outcome.value.to_xml_string().unwrap(), "<r>ok<bad/></r>");
}

#[test]
fn attributes_are_found_by_namespace_after_a_move() {
    let mut document = XmlDom::parse(
        "<r><left xmlns:p='urn:left'><p:item p:key='1' plain='yes'><p:child/></p:item></left><right xmlns:p='urn:right'><sink/></right></r>",
    )
    .unwrap();
    assert_eq!(count_attributes(&document, Some("urn:left"), "key"), 1);
    assert_eq!(count_attributes(&document, Some("urn:right"), "key"), 0);
    assert_eq!(count_attributes(&document, None, "plain"), 1);

    let root = document.root();
    let left = root.child(&document, "left").unwrap().unwrap();
    let right = root.child(&document, "right").unwrap().unwrap();
    let item = left.child(&document, "p:item").unwrap().unwrap();
    assert_eq!(
        item.expanded_name(&document)
            .unwrap()
            .unwrap()
            .namespace_uri
            .as_deref(),
        Some("urn:left")
    );
    assert_eq!(
        item.attribute_ns(&document, Some("urn:left"), "key")
            .unwrap()
            .as_deref(),
        Some("1")
    );
    assert_eq!(
        item.attribute_ns(&document, None, "plain")
            .unwrap()
            .as_deref(),
        Some("yes")
    );
    assert_eq!(
        left.child_ns(&document, Some("urn:left"), "item")
            .unwrap()
            .unwrap()
            .id(),
        item.id()
    );
    assert!(document.is_compact());
    let moved = item.move_to(&mut document, &right, 1).unwrap();
    assert_eq!(
        moved
            .expanded_name(&document)
            .unwrap()
            .unwrap()
            .namespace_uri
            .as_deref(),
        Some("urn:right")
    );
    assert_eq!(
        moved
            .attribute_ns(&document, Some("urn:right"), "key")
            .unwrap()
            .as_deref(),
        Some("1")
    );

    assert_eq!(count_attributes(&document, Some("urn:left"), "key"), 0);
    assert_eq!(count_attributes(&document, Some("urn:right"), "key"), 1);

    let copied = left.append_copy(&mut document, &moved).unwrap();
    assert_eq!(
        copied
            .expanded_name(&document)
            .unwrap()
            .unwrap()
            .namespace_uri
            .as_deref(),
        Some("urn:left")
    );
    assert_eq!(count_attributes(&document, Some("urn:left"), "key"), 1);
    assert_eq!(count_attributes(&document, Some("urn:right"), "key"), 1);

    right
        .set_attribute(&mut document, "xmlns:p", "urn:right2")
        .unwrap();
    assert_eq!(count_attributes(&document, Some("urn:right"), "key"), 0);
    assert_eq!(count_attributes(&document, Some("urn:right2"), "key"), 1);
    assert_eq!(
        moved
            .expanded_name(&document)
            .unwrap()
            .unwrap()
            .namespace_uri
            .as_deref(),
        Some("urn:right2")
    );

    let serialized = document.to_xml_string().unwrap();
    let reparsed = XmlDom::parse(&serialized).unwrap();
    assert_eq!(count_attributes(&reparsed, Some("urn:left"), "key"), 1);
    assert_eq!(count_attributes(&reparsed, Some("urn:right"), "key"), 0);
    assert_eq!(count_attributes(&reparsed, Some("urn:right2"), "key"), 1);
}

#[test]
fn mutation_rejects_invalid_xml_before_changing_the_document() {
    let mut document = XmlDom::parse("<r keep='yes'><child/></r>").unwrap();
    let root = document.root();
    let original = document.to_xml_string().unwrap();

    let errors = [
        root.set_name(&mut document, "bad name").unwrap_err(),
        root.append_element(&mut document, "bad name").unwrap_err(),
        root.prepend_element(&mut document, "bad name").unwrap_err(),
        root.ensure_element(&mut document, "bad name").unwrap_err(),
        root.set_attribute(&mut document, "bad name", "value")
            .unwrap_err(),
        root.prepend_attribute(&mut document, "bad name", "value")
            .unwrap_err(),
        root.insert_attribute(&mut document, 0, "bad name", "value")
            .unwrap_err(),
        root.replace_attribute(&mut document, "keep", "bad name", "value")
            .unwrap_err(),
        document.set_doctype_name("bad name").unwrap_err(),
    ];
    for error in errors {
        assert!(matches!(
            error,
            XmlDomError::Mutation(XmlMutationError::InvalidName(ref name))
                if name == "bad name"
        ));
        assert_eq!(document.to_xml_string().unwrap(), original);
    }

    let duplicate_attributes = XmlNode::Element(XmlElement {
        name: "added".to_owned(),
        attributes: vec![attribute("same", "one"), attribute("same", "two")],
        children: Vec::new(),
    });
    let errors = [
        root.set_text(&mut document, "bad\0text").unwrap_err(),
        root.set_text(&mut document, "bad\u{fffe}text").unwrap_err(),
        root.set_attribute(&mut document, "valid", "bad\0value")
            .unwrap_err(),
        root.set_attribute(&mut document, "valid", "bad\u{ffff}value")
            .unwrap_err(),
        root.append_node(&mut document, XmlNode::Comment("bad--comment".to_owned()))
            .unwrap_err(),
        root.append_node(
            &mut document,
            XmlNode::ProcessingInstruction(XmlProcessingInstruction {
                target: "xml".to_owned(),
                data: "reserved".to_owned(),
            }),
        )
        .unwrap_err(),
        root.append_node(&mut document, duplicate_attributes)
            .unwrap_err(),
        root.extend_children(
            &mut document,
            vec![
                XmlNode::Text("would otherwise be inserted".to_owned()),
                XmlNode::Comment("bad--comment".to_owned()),
            ],
        )
        .unwrap_err(),
        document.set_declaration("not-a-declaration").unwrap_err(),
        document
            .set_doctype(XmlDoctype {
                name: "r".to_owned(),
                public_id: Some("public".to_owned()),
                system_id: None,
                internal_subset: None,
            })
            .unwrap_err(),
    ];
    for error in errors {
        assert!(matches!(error, XmlDomError::Mutation(_)));
        assert_eq!(document.to_xml_string().unwrap(), original);
    }

    root.set_text(&mut document, "valid é 𝄞").unwrap();
    assert_eq!(
        root.text(&document).unwrap().as_deref(),
        Some("valid é 𝄞")
    );
}

#[test]
fn configured_string_and_encoded_writer_output_do_not_promote() {
    let mut document = XmlDom::parse("<r><a/></r>").unwrap();
    document
        .root()
        .append_element(&mut document, "b")
        .unwrap();

    let configured = document
        .to_xml_string_with_options(&XmlSerializeOptions {
            quote_style: XmlQuoteStyle::Single,
            ..XmlSerializeOptions::default()
        })
        .unwrap();
    assert_xml_equivalent(&configured, "<r><a/><b/></r>");
    assert!(document.is_overlay());

    let options = XmlSerializeOptions {
        encoding: XmlOutputEncoding::Utf16Le,
        write_bom: true,
        ..XmlSerializeOptions::default()
    };
    let bytes = document.to_xml_bytes(&options).unwrap();
    assert!(bytes.starts_with(&[0xff, 0xfe]));
    assert!(document.is_overlay());
}
