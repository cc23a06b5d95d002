use benchmaxxed_xml::{
    count_document, count_document_with_config, decode_xml_bytes, parse_compact_document,
    parse_compact_document_bytes_tolerant, parse_compact_document_with_config, parse_fragment,
    parse_fragment_tolerant, parse_fragment_tolerant_with_config, parse_fragment_with_config,
    validate_document, ParserConfig, XmlDom, XmlError, XmlErrorKind, XmlFragment,
    XmlInputEncoding,
};

fn utf16(text: &str) -> Vec<u8> {
    let mut bytes = vec![0xff, 0xfe];
    for unit in text.encode_utf16() {
        bytes.extend(unit.to_le_bytes());
    }
    bytes
}

#[test]
fn a_lone_surrogate_is_reported_at_its_byte() {
    let bytes = [0xff, 0xfe, 0x3d, 0xd8, 0x00, 0xde, 0x00, 0xd8, 0x41, 0x00];
    assert_eq!(
        decode_xml_bytes(&bytes).err(),
        Some(XmlError {
            kind: XmlErrorKind::InvalidCharacter,
            byte: 6
        })
    );
    let low = [0xfe, 0xff, 0xd8, 0x3d, 0xde, 0x00, 0x00, 0x41, 0xdc, 0x00];
    assert_eq!(decode_xml_bytes(&low).err().unwrap().byte, 8);
}

#[test]
fn ascii_is_borrowed_and_latin1_is_not() {
    let ascii = decode_xml_bytes(b"<?xml version='1.0' encoding='US-ASCII'?><r/>").unwrap();
    assert_eq!(ascii.encoding, XmlInputEncoding::UsAscii);
    assert!(matches!(ascii.input, std::borrow::Cow::Borrowed(_)));
    let latin = decode_xml_bytes(b"<?xml version='1.0' encoding='ISO-8859-1'?><r/>").unwrap();
    assert!(matches!(latin.input, std::borrow::Cow::Owned(_)));
}

#[test]
fn a_hard_failure_of_a_fragment_is_the_strict_error() {
    let source = "<a>".repeat(129) + &"</a>".repeat(129);
    let strict = parse_fragment(&source).unwrap_err();
    assert_eq!(strict.kind, XmlErrorKind::DepthLimitExceeded);
    assert!(strict.byte <= source.len());
    assert_eq!(parse_fragment_tolerant(&source).err(), Some(strict));
}

#[test]
fn a_hard_failure_of_bytes_is_the_strict_error() {
    let source = "<é>".repeat(129) + &"</é>".repeat(129);
    let bytes = utf16(&source);
    let strict = XmlDom::parse_bytes(&bytes).err().unwrap();
    assert_eq!(strict.kind, XmlErrorKind::DepthLimitExceeded);
    assert_eq!((strict.byte - 2) % 6, 0);
    assert_eq!(
        parse_compact_document_bytes_tolerant(&bytes).err(),
        Some(strict)
    );
}

#[test]
fn an_error_behind_a_replaced_entity_stands_in_the_source() {
    let source = "<!DOCTYPE r [<!ENTITY e \"xxxxxxxxxxxxxxxx\">]><r>&e;</s>";
    let expected = XmlError {
        kind: XmlErrorKind::MismatchedEndTag {
            expected: "r".to_owned(),
            found: "s".to_owned(),
        },
        byte: source.len(),
    };
    assert_eq!(
        parse_compact_document(source.to_owned()).err(),
        Some(expected.clone())
    );
    assert_eq!(validate_document(source), Err(expected.clone()));
    assert_eq!(count_document(source), Err(expected));

    let source = "<!DOCTYPE r [<!ENTITY e \"é<b/>\">]><r>&e;<c x='1' x='2'/></r>";
    let error = XmlDom::parse(source).err().unwrap();
    assert_eq!(error.kind, XmlErrorKind::DuplicateAttribute("x".to_owned()));
    assert_eq!(error.byte, source.find("='2'").unwrap());
    let plain = source.replace("&e;", "");
    assert_eq!(
        XmlDom::parse(&plain).err().unwrap().byte,
        plain.find("='2'").unwrap()
    );
}

#[test]
fn an_error_of_a_replaced_entity_stands_at_the_reference() {
    let source = "<!DOCTYPE r [<!ENTITY e \"a]]\">]><r>&e;&#62;</r>";
    assert!(XmlDom::parse(source).is_ok());
    let source = "<!DOCTYPE r [<!ENTITY e \"&#60;a\">]><r>é&e;</r>";
    let error = XmlDom::parse(source).err().unwrap();
    assert_eq!(error.byte, source.find("&e;").unwrap());
}

#[test]
fn an_undecodable_value_of_a_fragment_stands_in_its_source() {
    let config = ParserConfig::default().validate_references(false);
    for source in ["é<c>ab&nope;</c>", "<c k='é&nope;'/>"] {
        let strict = parse_fragment_with_config(source, config).unwrap_err();
        assert_eq!(strict.kind, XmlErrorKind::UndeclaredEntity("nope".to_owned()));
        assert_eq!(strict.byte, source.find("&nope;").unwrap(), "{source}");
        assert_eq!(
            parse_fragment_tolerant_with_config(source, config).err(),
            Some(strict)
        );
    }
}

#[test]
fn counting_agrees_with_parsing() {
    for source in [
        "<a/>",
        "<!DOCTYPE r [<!ENTITY e \"x<b k='1'/>\">]><r>&e;<c/>&e;</r>",
        "<?xml version='1.1'?><!--c--><r k='1'>t<![CDATA[u]]><?p d?></r>",
    ] {
        for config in [ParserConfig::default(), ParserConfig::preserve_all()] {
            let document = parse_compact_document_with_config(source.to_owned(), config).unwrap();
            assert_eq!(
                count_document_with_config(source, config),
                Ok(document.tree_stats())
            );
        }
    }
}

#[test]
fn fragments_are_read_from_text_and_compared() {
    let one: XmlFragment = "<a k='1'/>t".parse().unwrap();
    assert_eq!(one, parse_fragment("<a k=\"1\"/>t").unwrap());
    assert_ne!(one, parse_fragment("<a k=\"2\"/>t").unwrap());
    assert_eq!("<a>".parse::<XmlFragment>().unwrap_err().byte, 3);
}
