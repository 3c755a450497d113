use text_search::encoding::{decode_u32, read_text};
use text_search::extract::docx_text_of_xml;

#[test]
fn test_extract_text_skips_field_codes() {
    let xml = r#"<w:document><w:body>
            <w:p>
                <w:r><w:fldChar w:fldCharType="begin"/></w:r>
                <w:r><w:instrText xml:space="preserve"> HYPERLINK \l "_Toc12320" </w:instrText></w:r>
                <w:r><w:fldChar w:fldCharType="separate"/></w:r>
                <w:r><w:t>0.1 总则</w:t></w:r>
                <w:r><w:instrText> PAGEREF _Toc12320 \h 52 </w:instrText></w:r>
                <w:r><w:fldChar w:fldCharType="end"/></w:r>
            </w:p>
            <w:p>
                <w:r><w:delText>deleted draft text</w:delText><w:t>正文内容</w:t></w:r>
            </w:p>
        </w:body></w:document>"#;
    let text = docx_text_of_xml(xml);
    assert!(text.contains("0.1 总则"));
    assert!(text.contains("正文内容"));
    assert!(!text.contains("HYPERLINK"));
    assert!(!text.contains("PAGEREF"));
    assert!(!text.contains("_Toc12320"));
    assert!(!text.contains("deleted draft"));
}

#[test]
fn test_docx_entities_and_spaces() {
    let xml = "<w:p><w:t>a &amp; b</w:t>\n\n   <w:t>&lt;c&gt;</w:t></w:p>";
    assert_eq!(docx_text_of_xml(xml), "a & b <c>");
}

#[test]
fn test_utf8_ascii() {
    let s = read_text(b"hello \xe4\xbd\xa0\xe5\xa5\xbd\nplain text");
    assert_eq!(s, "hello 你好\nplain text");
}

#[test]
fn test_gbk_chinese() {
    let s = read_text(b"\xd6\xd0\xce\xc4\xb2\xe2\xca\xd4\r\nsecond line");
    assert!(s.contains("中文测试"), "got: {}", s);
    assert!(s.contains("second line"));
}

#[test]
fn test_utf16le_bom() {
    let mut bytes = vec![0xFF, 0xFE];
    let text = "你好，世界 hello";
    for u in text.encode_utf16() {
        bytes.extend_from_slice(&u.to_le_bytes());
    }
    assert_eq!(read_text(&bytes), text);
}

#[test]
fn test_utf16be_bom() {
    let mut bytes = vec![0xFE, 0xFF];
    let text = "hello world";
    for u in text.encode_utf16() {
        bytes.extend_from_slice(&u.to_be_bytes());
    }
    assert_eq!(read_text(&bytes), text);
}

#[test]
fn test_utf8_bom() {
    assert_eq!(read_text(b"\xef\xbb\xbfhello bom"), "hello bom");
}

#[test]
fn utf32_both_byte_orders() {
    assert_eq!(decode_u32(&[0x68, 0, 0, 0, 0x69, 0, 0, 0], true), "hi");
    assert_eq!(decode_u32(&[0, 0, 0, 0x68, 0, 0, 0, 0x69], false), "hi");
    assert_eq!(decode_u32(&[0, 0, 0x4e, 0x2d, 0, 0, 0], false), "中");
    assert_eq!(read_text(&[0, 0, 0xFE, 0xFF, 0, 0, 0, 0x68, 0, 0, 0, 0x69]), "hi");
    assert_eq!(read_text(&[0xFF, 0xFE, 0, 0, 0x68, 0, 0, 0, 0x69, 0, 0, 0]), "hi");
}

#[test]
fn utf16_with_an_unpaired_surrogate() {
    assert_eq!(read_text(&[0xFF, 0xFE, 0x00, 0xD8, 0x41, 0x00]), "\u{FFFD}A");
    assert_eq!(read_text(&[0xFE, 0xFF, 0xD8, 0x3D, 0xDE, 0x00]), "\u{1F600}");
    assert_eq!(read_text(&[0xEF, 0xBB, 0xBF, b'h', b'i']), "hi");
}
