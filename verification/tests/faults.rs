use benchmaxxed_xml::{
    parse_compact_document_with_config, parse_document_view_with_config_and_source_offsets,
    validate_document, validate_document_bytes, ParserConfig, XmlDom, XmlEntityExpansionPolicy,
    XmlErrorKind, XmlMutationError, XmlNamespaceError, XmlParser, XmlQualifiedName,
};

fn fault(source: &str) -> (XmlErrorKind, usize) {
    let error = XmlDom::parse(source).err().unwrap();
    assert_eq!(validate_document(source).err().unwrap(), error);
    (error.kind, error.byte)
}

#[test]
fn each_malformed_document_names_its_fault_and_its_byte() {
    assert_eq!(
        fault("<a x=\"1\" x=\"2\"/>"),
        (XmlErrorKind::DuplicateAttribute("x".to_owned()), 10)
    );
    assert_eq!(fault("<a x=1/>"), (XmlErrorKind::Expected("quoted literal"), 5));
    assert_eq!(fault("<a x=\"<\"/>"), (XmlErrorKind::InvalidAttributeValue, 6));
    assert_eq!(
        fault("<a xml:space=\"other\"/>"),
        (XmlErrorKind::InvalidAttributeValue, 20)
    );
    assert_eq!(fault("<a>\u{1}</a>"), (XmlErrorKind::InvalidCharacter, 3));
    assert_eq!(fault("<a>&#0;</a>"), (XmlErrorKind::InvalidCharacterReference, 7));
    assert_eq!(fault("<a><!-- - -- --></a>"), (XmlErrorKind::InvalidComment, 7));
    assert_eq!(fault("<1/>"), (XmlErrorKind::InvalidName, 1));
    assert_eq!(
        fault("<a><?xml x?></a>"),
        (XmlErrorKind::InvalidProcessingInstructionTarget, 8)
    );
    assert_eq!(
        fault("<?xml version='2.0'?><a/>"),
        (XmlErrorKind::InvalidXmlDeclaration, 21)
    );
    assert_eq!(
        fault("<a></b>"),
        (
            XmlErrorKind::MismatchedEndTag {
                expected: "a".to_owned(),
                found: "b".to_owned(),
            },
            7
        )
    );
    assert_eq!(fault("<!--x-->"), (XmlErrorKind::MissingRootElement, 8));
    assert_eq!(fault("<a/>x"), (XmlErrorKind::TrailingContent, 4));
    assert_eq!(
        fault("<a>&e;</a>"),
        (XmlErrorKind::UndeclaredEntity("e".to_owned()), 3)
    );
    assert_eq!(fault("<a>"), (XmlErrorKind::UnexpectedEof, 3));
    assert_eq!(fault("<a>]]></a>"), (XmlErrorKind::UnexpectedToken, 3));
    assert_eq!(
        fault("<!DOCTYPE a SYSTEM \"x#y\"><a/>"),
        (XmlErrorKind::InvalidDocumentStructure, 21)
    );
}

#[test]
fn elements_nest_to_a_limit() {
    let nested = |n: usize| format!("{}{}", "<a>".repeat(n), "</a>".repeat(n));
    assert!(XmlDom::parse(&nested(128)).is_ok());
    assert_eq!(
        fault(&nested(129)),
        (XmlErrorKind::DepthLimitExceeded, 3 * 128)
    );
}

#[test]
fn each_fault_of_an_entity_is_named() {
    let parse = |source: &str, policy| {
        parse_compact_document_with_config(
            source.to_owned(),
            ParserConfig::preserve_all().entity_expansion(policy),
        )
        .err()
        .unwrap()
        .kind
    };
    let some = XmlEntityExpansionPolicy::ExpandInternal {
        max_depth: 16,
        max_expanded_bytes: 8,
    };
    let flat = XmlEntityExpansionPolicy::ExpandInternal {
        max_depth: 1,
        max_expanded_bytes: 100,
    };
    let source = "<!DOCTYPE a [<!ENTITY e \"123456789\">]><a>&e;</a>";
    assert_eq!(
        parse(source, some),
        XmlErrorKind::EntityExpansionSizeLimitExceeded
    );
    assert_eq!(
        parse(source, XmlEntityExpansionPolicy::Disabled),
        XmlErrorKind::EntityExpansionDisabled("e".to_owned())
    );
    assert_eq!(
        parse("<!DOCTYPE a [<!ENTITY e \"&f;\"><!ENTITY f \"x\">]><a>&e;</a>", flat),
        XmlErrorKind::EntityExpansionDepthLimitExceeded
    );
    assert_eq!(
        parse("<!DOCTYPE a [<!ENTITY e SYSTEM \"x\">]><a>&e;</a>", flat),
        XmlErrorKind::ExternalEntityReference("e".to_owned())
    );
    let markup = parse_document_view_with_config_and_source_offsets(
        "<!DOCTYPE a [<!ENTITY e \"<b/>\">]><a>&e;</a>",
        ParserConfig::preserve_all(),
    );
    assert_eq!(
        markup.err().unwrap().kind,
        XmlErrorKind::EntityReplacementMarkupWithSourceOffsets
    );
}

#[test]
fn entities_are_replaced_by_their_texts() {
    let document = XmlDom::parse(
        "<!DOCTYPE a [<!ENTITY e \"x&f;\"><!ENTITY f \"<b k='1'/>\">]><a>&e;y&amp;</a>",
    )
    .unwrap();
    assert_eq!(
        document.root().to_xml_string(&document).unwrap(),
        "<a>x<b k=\"1\"/>y&amp;</a>"
    );
}

#[test]
fn an_unknown_encoding_is_named() {
    let error = validate_document_bytes(b"<?xml version='1.0' encoding='x-none'?><a/>")
        .err()
        .unwrap();
    assert_eq!(
        error.kind,
        XmlErrorKind::UnsupportedEncoding("x-none".to_owned())
    );
    assert_eq!(error.byte, 0);
}

#[test]
fn bytes_that_are_no_text_are_refused_where_they_stand() {
    let error = validate_document_bytes(b"<a>\xc3\xa9\xff</a>").err().unwrap();
    assert_eq!(error.kind, XmlErrorKind::InvalidCharacter);
    assert_eq!(error.byte, 5);
    assert!(validate_document_bytes(b"<a>\xc3\xa9</a>").is_ok());
}

#[test]
fn a_tolerant_parse_keeps_what_stands_before_the_fault() {
    let outcome = XmlDom::parse_tolerant("<a><b>x</b><c></d></a>").unwrap();
    let fault = outcome.diagnostic.unwrap();
    assert_eq!(
        fault.kind,
        XmlErrorKind::MismatchedEndTag {
            expected: "c".to_owned(),
            found: "d".to_owned(),
        }
    );
    assert!(outcome.consumed_bytes <= fault.byte);
    let document = outcome.value;
    assert_eq!(document.root().name(&document).unwrap().as_deref(), Some("a"));
    assert!(document.root().child(&document, "b").unwrap().is_some());

    let whole = XmlDom::parse_tolerant("<a/>").unwrap();
    assert!(whole.diagnostic.is_none());
    assert_eq!(whole.consumed_bytes, 4);
}

#[test]
fn a_name_has_at_most_one_colon() {
    let name = XmlQualifiedName::parse("p:local").unwrap();
    assert_eq!((name.prefix, name.local), (Some("p"), "local"));
    let name = XmlQualifiedName::parse("local").unwrap();
    assert_eq!((name.prefix, name.local), (None, "local"));
    for bad in ["a:b:c", ":a", "a:", "", "1"] {
        assert_eq!(
            XmlQualifiedName::parse(bad),
            Err(XmlNamespaceError::InvalidQualifiedName(bad.to_owned()))
        );
    }
}

#[test]
fn options_of_a_parser_are_those_it_was_made_with() {
    let options = ParserConfig::default()
        .preserve_comments(true)
        .validate_characters(false)
        .external_entities(ParserConfig::default().external_entity_policy());
    let parser = XmlParser::new(options);
    assert!(parser.options().preserves_comments());
    assert!(!parser.options().validates_characters());
    assert!(parser.validate("<a>\u{1}</a>").is_ok());
    assert!(XmlParser::preserving_all().options().preserves_doctype());
    assert!(XmlParser::preserving_all().validate_bytes(b"<a/>").is_ok());
    assert_eq!(parser.count("<a b='1'><c/></a>").unwrap().nodes, 2);
}

#[test]
fn a_root_name_has_to_be_a_name() {
    let error = XmlDom::new("1").err().unwrap();
    assert_eq!((error.kind, error.byte), (XmlErrorKind::InvalidName, 1));
    assert_eq!(
        benchmaxxed_xml::XmlElement::new("1").err().unwrap(),
        XmlMutationError::InvalidName("1".to_owned())
    );
}
