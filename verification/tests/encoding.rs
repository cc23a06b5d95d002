use std::borrow::Cow;

use benchmaxxed_xml::{
    count_document_bytes, decode_xml_bytes, XmlDom, XmlError, XmlErrorKind, XmlInputEncoding,
    XmlTreeStats,
};

#[test]
fn decodes_utf8_without_copy() {
    let decoded = decode_xml_bytes(b"\xef\xbb\xbf<r/>").unwrap();

    assert_eq!(decoded.encoding, XmlInputEncoding::Utf8);
    assert_eq!(decoded.as_str(), "<r/>");
    assert!(matches!(decoded.input, Cow::Borrowed(_)));
}

#[test]
fn decodes_latin1_from_declaration() {
    let decoded =
        decode_xml_bytes(b"<?xml version='1.0' encoding='ISO-8859-1'?><r>\xA3</r>").unwrap();

    assert_eq!(decoded.encoding, XmlInputEncoding::Latin1);
    assert_eq!(
        decoded.as_str(),
        "<?xml version='1.0' encoding='ISO-8859-1'?><r>£</r>"
    );
}

#[test]
fn decodes_utf16_with_bom() {
    let bytes = [
        0xff, 0xfe, b'<', 0, b'r', 0, b'>', 0, 0xa3, 0, b'<', 0, b'/', 0, b'r', 0, b'>', 0,
    ];
    let decoded = decode_xml_bytes(&bytes).unwrap();

    assert_eq!(decoded.encoding, XmlInputEncoding::Utf16Le);
    assert_eq!(decoded.as_str(), "<r>£</r>");
}

#[test]
fn decodes_utf32_by_signature() {
    let bytes = [b'<', 0, 0, 0, b'r', 0, 0, 0, b'/', 0, 0, 0, b'>', 0, 0, 0];
    let decoded = decode_xml_bytes(&bytes).unwrap();

    assert_eq!(decoded.encoding, XmlInputEncoding::Utf32Le);
    assert_eq!(decoded.as_str(), "<r/>");
}

#[test]
fn accepts_matching_generic_unicode_declarations() {
    let utf16 = [
        &[0xff, 0xfe][..],
        &"<?xml version='1.0' encoding='UTF-16'?><r/>"
            .encode_utf16()
            .flat_map(u16::to_le_bytes)
            .collect::<Vec<_>>(),
    ]
    .concat();
    let utf32 = [
        &[0x00, 0x00, 0xfe, 0xff][..],
        &"<?xml version='1.0' encoding='UTF-32'?><r/>"
            .chars()
            .flat_map(|ch| u32::from(ch).to_be_bytes())
            .collect::<Vec<_>>(),
    ]
    .concat();

    assert_eq!(
        decode_xml_bytes(&utf16).unwrap().encoding,
        XmlInputEncoding::Utf16Le
    );
    assert_eq!(
        decode_xml_bytes(&utf32).unwrap().encoding,
        XmlInputEncoding::Utf32Be
    );
}

#[test]
fn rejects_repeated_boms_and_conflicting_declarations() {
    let repeated = b"\xef\xbb\xbf\xef\xbb\xbf<r/>";
    let conflict = b"\xef\xbb\xbf<?xml version='1.0' encoding='UTF-16LE'?><r/>";

    assert_eq!(
        decode_xml_bytes(repeated).unwrap_err(),
        XmlError {
            kind: XmlErrorKind::InvalidCharacter,
            byte: 3,
        }
    );
    assert_eq!(
        decode_xml_bytes(conflict).unwrap_err().kind,
        XmlErrorKind::InvalidXmlDeclaration
    );
}

#[test]
fn rejects_unsupported_ascii_compatible_encoding() {
    let error =
        decode_xml_bytes(b"<?xml version='1.0' encoding='Shift_JIS'?><r/>").unwrap_err();

    assert_eq!(
        error.kind,
        XmlErrorKind::UnsupportedEncoding("Shift_JIS".to_owned())
    );
}

#[test]
fn parses_latin1_document_bytes() {
    let document =
        XmlDom::parse_bytes(b"<?xml version='1.0' encoding='ISO-8859-1'?><r>\xA3</r>").unwrap();

    assert_eq!(document.root().name(&document).unwrap().as_deref(), Some("r"));
    assert_eq!(
        count_document_bytes(b"<r/>").unwrap(),
        XmlTreeStats {
            elements: 1,
            attributes: 0,
            nodes: 1,
        }
    );
}

#[test]
fn parses_utf16_document_bytes() {
    let bytes = [0xfe, 0xff, 0x00, b'<', 0x00, b'r', 0x00, b'/', 0x00, b'>'];

    let document = XmlDom::parse_bytes(&bytes).unwrap();

    assert_eq!(document.root().name(&document).unwrap().as_deref(), Some("r"));
}
