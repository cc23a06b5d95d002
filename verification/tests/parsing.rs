use benchmaxxed_xml::{
    parse_compact_document_tolerant_with_config, parse_document_view,
    parse_document_view_with_source_offsets, ParserConfig, XmlErrorKind, XmlQualifiedName,
};

#[test]
fn splits_valid_qualified_names() {
    let name = XmlQualifiedName::parse("feed:entry").unwrap();
    assert_eq!(name.prefix, Some("feed"));
    assert_eq!(name.local, "entry");
    assert!(XmlQualifiedName::parse("a:b:c").is_err());
    assert!(XmlQualifiedName::parse(":entry").is_err());
}

#[test]
fn doctype_comment_and_pi_brackets_do_not_change_subset_depth() {
    for source in [
        "<!DOCTYPE r [<!-- ] --><!ELEMENT r ANY>]><r><ok/><broken></wrong>",
        "<!DOCTYPE r [<!-- [ --><!ELEMENT r ANY>]><r><ok/><broken></wrong>",
        "<!DOCTYPE r [<!-- ] --><!ELEMENT r ANY>]><r><name_\u{e9}/><broken></wrong>",
        "<!DOCTYPE r [<?pi ] ?><!ELEMENT r ANY>]><r><ok/><broken></wrong>",
        "<!DOCTYPE r [<?pi [ ?><!ELEMENT r ANY>]><r><name_\u{e9}/><broken></wrong>",
    ] {
        let outcome = parse_compact_document_tolerant_with_config(
            source.to_owned(),
            ParserConfig::preserve_all(),
        )
        .unwrap();
        assert_eq!(outcome.consumed_bytes, source.find("</wrong>").unwrap());
        assert!(matches!(
            outcome.diagnostic.map(|error| error.kind),
            Some(XmlErrorKind::MismatchedEndTag { expected, found })
                if expected == "broken" && found == "wrong"
        ));
    }
}

#[test]
fn borrowed_view_rejects_markup_producing_entity_replacements() {
    let body = "<!DOCTYPE r [<!ENTITY child \"<a/>\">]><r>&child;</r>";
    assert_eq!(
        parse_document_view(body).err().unwrap().kind,
        XmlErrorKind::EntityReplacementMarkupWithSourceOffsets
    );

    let attribute = "<!DOCTYPE r [<!ENTITY bad \"<a/>\">]><r a='&bad;'/>";
    assert_eq!(
        parse_document_view(attribute).err().unwrap().kind,
        XmlErrorKind::EntityReplacementMarkupWithSourceOffsets
    );
    assert_eq!(
        parse_document_view_with_source_offsets(body)
            .err().unwrap()
            .kind,
        XmlErrorKind::EntityReplacementMarkupWithSourceOffsets
    );
}
