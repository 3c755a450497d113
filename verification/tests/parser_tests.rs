use std::io::{Cursor, Write};

use lopdf_parang::{Dictionary, Document, Object, Stream};

use text_search::parser::csv::CsvParser;
use text_search::parser::docx::DocxParser;
use text_search::parser::excel::ExcelParser;
use text_search::parser::md::MdParser;
use text_search::parser::odp::OdpParser;
use text_search::parser::ods::OdsParser;
use text_search::parser::odt::OdtParser;
use text_search::parser::pdf::PdfParser;
use text_search::parser::pptx::PptxParser;
use text_search::parser::rtf::RtfParser;
use text_search::parser::txt::TxtParser;
use text_search::parser::{FileParser, ParserManager};

fn zip_bytes(entries: &[(&str, &str)]) -> Vec<u8> {
    let mut w = zip::ZipWriter::new(Cursor::new(Vec::new()));
    let options = zip::write::SimpleFileOptions::default()
        .compression_method(zip::CompressionMethod::Stored);
    for (name, content) in entries {
        w.start_file(*name, options).unwrap();
        w.write_all(content.as_bytes()).unwrap();
    }
    w.finish().unwrap().into_inner()
}

fn test_file(name: &str) -> (String, Vec<u8>) {
    let path = format!("/data/test_files/{}", name);
    let bytes = match name {
        "test.txt" => b"This is a plain text file used to test search.\nSecond line.\n".to_vec(),
        "test.csv" => b"name,age,city\r\nAlice,30,Beijing\r\nBob,25,Shanghai\r\n".to_vec(),
        "test.md" => b"# Markdown Document\n\nThis is a **test** of the Markdown parser.\n\n- item one\n- item two\n".to_vec(),
        "test.rtf" => br"{\rtf1\ansi\deff0 {\fonttbl {\f0 Times New Roman;}}\f0\fs24 This is an RTF test document.\par}".to_vec(),
        "test.odt" => zip_bytes(&[
            ("mimetype", "application/vnd.oasis.opendocument.text"),
            (
                "content.xml",
                r#"<?xml version="1.0" encoding="UTF-8"?><office:document-content xmlns:office="urn:oasis:names:tc:opendocument:xmlns:office:1.0" xmlns:text="urn:oasis:names:tc:opendocument:xmlns:text:1.0"><office:body><office:text><text:h text:outline-level="1">ODT Document</text:h><text:p>This is a test paragraph.</text:p></office:text></office:body></office:document-content>"#,
            ),
        ]),
        "test.ods" => zip_bytes(&[
            ("mimetype", "application/vnd.oasis.opendocument.spreadsheet"),
            (
                "content.xml",
                r#"<?xml version="1.0" encoding="UTF-8"?><office:document-content xmlns:office="urn:oasis:names:tc:opendocument:xmlns:office:1.0" xmlns:table="urn:oasis:names:tc:opendocument:xmlns:table:1.0" xmlns:text="urn:oasis:names:tc:opendocument:xmlns:text:1.0"><office:body><office:spreadsheet><table:table table:name="Sheet1"><table:table-row><table:table-cell><text:p>Name</text:p></table:table-cell><table:table-cell><text:p>Age</text:p></table:table-cell></table:table-row><table:table-row><table:table-cell><text:p>Alice</text:p></table:table-cell><table:table-cell><text:p>30</text:p></table:table-cell></table:table-row></table:table></office:spreadsheet></office:body></office:document-content>"#,
            ),
        ]),
        "test.odp" => zip_bytes(&[
            ("mimetype", "application/vnd.oasis.opendocument.presentation"),
            (
                "content.xml",
                r#"<?xml version="1.0" encoding="UTF-8"?><office:document-content xmlns:office="urn:oasis:names:tc:opendocument:xmlns:office:1.0" xmlns:draw="urn:oasis:names:tc:opendocument:xmlns:drawing:1.0" xmlns:text="urn:oasis:names:tc:opendocument:xmlns:text:1.0"><office:body><office:presentation><draw:page draw:name="page1"><draw:frame><draw:text-box><text:p>ODP Presentation</text:p><text:p>A test slide.</text:p></draw:text-box></draw:frame></draw:page></office:presentation></office:body></office:document-content>"#,
            ),
        ]),
        "test.docx" => zip_bytes(&[(
            "word/document.xml",
            r#"<?xml version="1.0" encoding="UTF-8" standalone="yes"?><w:document xmlns:w="http://schemas.openxmlformats.org/wordprocessingml/2006/main"><w:body><w:p><w:r><w:t>测试 docx 文档</w:t></w:r></w:p><w:tbl><w:tr><w:tc><w:p><w:r><w:t>姓名</w:t></w:r></w:p></w:tc><w:tc><w:p><w:r><w:t>年龄</w:t></w:r></w:p></w:tc></w:tr><w:tr><w:tc><w:p><w:r><w:t>张三</w:t></w:r></w:p></w:tc><w:tc><w:p><w:r><w:t>30</w:t></w:r></w:p></w:tc></w:tr></w:tbl></w:body></w:document>"#,
        )]),
        "test.pptx" => zip_bytes(&[
            (
                "ppt/slides/slide1.xml",
                r#"<?xml version="1.0" encoding="UTF-8" standalone="yes"?><p:sld xmlns:a="http://schemas.openxmlformats.org/drawingml/2006/main" xmlns:p="http://schemas.openxmlformats.org/presentationml/2006/main"><p:cSld><p:spTree><p:sp><p:txBody><a:p><a:r><a:t>PPTX Slide Title</a:t></a:r></a:p></p:txBody></p:sp></p:spTree></p:cSld></p:sld>"#,
            ),
            (
                "ppt/slides/slide2.xml",
                r#"<?xml version="1.0" encoding="UTF-8" standalone="yes"?><p:sld xmlns:a="http://schemas.openxmlformats.org/drawingml/2006/main" xmlns:p="http://schemas.openxmlformats.org/presentationml/2006/main"><p:cSld><p:spTree><p:sp><p:txBody><a:p><a:r><a:t>Second slide text</a:t></a:r></a:p></p:txBody></p:sp></p:spTree></p:cSld></p:sld>"#,
            ),
        ]),
        "test.xlsx" => zip_bytes(&[
            (
                "[Content_Types].xml",
                r#"<?xml version="1.0" encoding="UTF-8" standalone="yes"?><Types xmlns="http://schemas.openxmlformats.org/package/2006/content-types"><Default Extension="rels" ContentType="application/vnd.openxmlformats-package.relationships+xml"/><Default Extension="xml" ContentType="application/xml"/><Override PartName="/xl/workbook.xml" ContentType="application/vnd.openxmlformats-officedocument.spreadsheetml.sheet.main+xml"/><Override PartName="/xl/worksheets/sheet1.xml" ContentType="application/vnd.openxmlformats-officedocument.spreadsheetml.worksheet+xml"/></Types>"#,
            ),
            (
                "_rels/.rels",
                r#"<?xml version="1.0" encoding="UTF-8" standalone="yes"?><Relationships xmlns="http://schemas.openxmlformats.org/package/2006/relationships"><Relationship Id="rId1" Type="http://schemas.openxmlformats.org/officeDocument/2006/relationships/officeDocument" Target="xl/workbook.xml"/></Relationships>"#,
            ),
            (
                "xl/workbook.xml",
                r#"<?xml version="1.0" encoding="UTF-8" standalone="yes"?><workbook xmlns="http://schemas.openxmlformats.org/spreadsheetml/2006/main" xmlns:r="http://schemas.openxmlformats.org/officeDocument/2006/relationships"><sheets><sheet name="Sheet1" sheetId="1" r:id="rId1"/></sheets></workbook>"#,
            ),
            (
                "xl/_rels/workbook.xml.rels",
                r#"<?xml version="1.0" encoding="UTF-8" standalone="yes"?><Relationships xmlns="http://schemas.openxmlformats.org/package/2006/relationships"><Relationship Id="rId1" Type="http://schemas.openxmlformats.org/officeDocument/2006/relationships/worksheet" Target="worksheets/sheet1.xml"/></Relationships>"#,
            ),
            (
                "xl/worksheets/sheet1.xml",
                r#"<?xml version="1.0" encoding="UTF-8" standalone="yes"?><worksheet xmlns="http://schemas.openxmlformats.org/spreadsheetml/2006/main"><sheetData><row r="1"><c r="A1" t="inlineStr"><is><t>姓名</t></is></c><c r="B1" t="inlineStr"><is><t>年龄</t></is></c></row><row r="2"><c r="A2" t="inlineStr"><is><t>张三</t></is></c><c r="B2"><v>30</v></c></row></sheetData></worksheet>"#,
            ),
        ]),
        "test.pdf" => pdf_bytes("Hello PDF test"),
        _ => Vec::new(),
    };
    (path, bytes)
}

fn pdf_bytes(text: &str) -> Vec<u8> {
    let mut doc = Document::with_version("1.5");
    let pages_id = doc.new_object_id();
    let mut font = Dictionary::new();
    font.set("Type", Object::Name(b"Font".to_vec()));
    font.set("Subtype", Object::Name(b"Type1".to_vec()));
    font.set("BaseFont", Object::Name(b"Courier".to_vec()));
    let font_id = doc.add_object(font);
    let mut fonts = Dictionary::new();
    fonts.set("F1", Object::Reference(font_id));
    let mut resources = Dictionary::new();
    resources.set("Font", Object::Dictionary(fonts));
    let resources_id = doc.add_object(resources);
    let content = format!("BT /F1 24 Tf 72 700 Td ({}) Tj ET", text);
    let content_id = doc.add_object(Stream::new(Dictionary::new(), content.into_bytes()));
    let mut page = Dictionary::new();
    page.set("Type", Object::Name(b"Page".to_vec()));
    page.set("Parent", Object::Reference(pages_id));
    page.set("Contents", Object::Reference(content_id));
    let page_id = doc.add_object(page);
    let mut pages = Dictionary::new();
    pages.set("Type", Object::Name(b"Pages".to_vec()));
    pages.set("Kids", Object::Array(vec![Object::Reference(page_id)]));
    pages.set("Count", Object::Integer(1));
    pages.set("Resources", Object::Reference(resources_id));
    pages.set(
        "MediaBox",
        Object::Array(vec![
            Object::Integer(0),
            Object::Integer(0),
            Object::Integer(595),
            Object::Integer(842),
        ]),
    );
    doc.objects.insert(pages_id, Object::Dictionary(pages));
    let mut catalog = Dictionary::new();
    catalog.set("Type", Object::Name(b"Catalog".to_vec()));
    catalog.set("Pages", Object::Reference(pages_id));
    let catalog_id = doc.add_object(catalog);
    doc.trailer.set("Root", Object::Reference(catalog_id));
    let mut out = Vec::new();
    doc.save_to(&mut out).unwrap();
    out
}

#[test]
fn test_txt_parser() {
    let parser = TxtParser;
    let (path, data) = test_file("test.txt");

    assert!(parser.can_parse(&path));

    let result = parser.parse(&path, &data);
    assert!(result.is_ok());

    let content = result.unwrap();
    assert!(content.contains("plain text file"));
    assert!(content.contains("search"));
}

#[test]
fn test_csv_parser() {
    let parser = CsvParser;
    let (path, data) = test_file("test.csv");

    assert!(parser.can_parse(&path));

    let result = parser.parse(&path, &data);
    assert!(result.is_ok());

    let content = result.unwrap();
    assert!(content.contains("Alice"));
    assert!(content.contains("Bob"));
}

#[test]
fn test_md_parser() {
    let parser = MdParser;
    let (path, data) = test_file("test.md");

    assert!(parser.can_parse(&path));

    let result = parser.parse(&path, &data);
    assert!(result.is_ok());

    let content = result.unwrap();
    assert!(content.contains("Markdown"));
    assert!(content.contains("test"));
}

#[test]
fn test_rtf_parser() {
    let parser = RtfParser;
    let (path, data) = test_file("test.rtf");

    assert!(parser.can_parse(&path));

    let result = parser.parse(&path, &data);
    assert!(result.is_ok());

    let content = result.unwrap();
    println!("RTF parsed content: {}", content);
    assert!(!content.is_empty());
}

#[test]
fn test_odt_parser() {
    let parser = OdtParser;
    let (path, data) = test_file("test.odt");

    assert!(parser.can_parse(&path));

    let result = parser.parse(&path, &data);
    assert!(result.is_ok());

    let content = result.unwrap();
    assert!(content.contains("ODT"));
    assert!(content.contains("test"));
}

#[test]
fn test_ods_parser() {
    let parser = OdsParser;
    let (path, data) = test_file("test.ods");

    assert!(parser.can_parse(&path));

    let result = parser.parse(&path, &data);
    assert!(result.is_ok());

    let content = result.unwrap();
    assert!(content.contains("Alice") || content.contains("Name"));
}

#[test]
fn test_odp_parser() {
    let parser = OdpParser;
    let (path, data) = test_file("test.odp");

    assert!(parser.can_parse(&path));

    let result = parser.parse(&path, &data);
    assert!(result.is_ok());

    let content = result.unwrap();
    assert!(content.contains("ODP"));
    assert!(content.contains("test"));
}

#[test]
fn test_docx_parser() {
    let parser = DocxParser;
    let (path, data) = test_file("test.docx");

    assert!(parser.can_parse(&path));

    let result = parser.parse(&path, &data);
    assert!(result.is_ok());

    let content = result.unwrap();
    assert!(content.contains("docx") || content.contains("姓名") || content.contains("张三"));
}

#[test]
fn test_pptx_parser() {
    let parser = PptxParser;
    let (path, data) = test_file("test.pptx");

    assert!(parser.can_parse(&path));

    let result = parser.parse(&path, &data);
    assert!(result.is_ok());

    let content = result.unwrap();
    assert!(!content.is_empty());
}

#[test]
fn test_excel_parser_xlsx() {
    let parser = ExcelParser;
    let (path, data) = test_file("test.xlsx");

    assert!(parser.can_parse(&path));

    let result = parser.parse(&path, &data);
    assert!(result.is_ok());

    let content = result.unwrap();
    assert!(content.contains("姓名") || content.contains("张三"));
}

#[test]
fn test_pdf_parser() {
    let parser = PdfParser;
    let (path, data) = test_file("test.pdf");

    assert!(parser.can_parse(&path));

    let result = parser.parse(&path, &data);
    assert!(result.is_ok());

    let content = result.unwrap();
    println!("PDF parsed content: {}", content);
}

#[test]
fn test_parser_manager() {
    let manager = ParserManager::new();
    let (path, data) = test_file("test.txt");

    let result = manager.parse(&path, &data);
    assert!(result.is_ok());

    let content = result.unwrap();
    assert!(content.contains("plain text file"));
}

#[test]
fn test_parser_manager_md() {
    let manager = ParserManager::new();
    let (path, data) = test_file("test.md");

    let result = manager.parse(&path, &data);
    assert!(result.is_ok());

    let content = result.unwrap();
    assert!(content.contains("Markdown"));
}

#[test]
fn test_parser_manager_unknown_extension() {
    let manager = ParserManager::new();
    let path = "/tmp/test.xyz";

    let result = manager.parse(path, b"whatever");
    assert!(result.is_err());
    assert!(result.unwrap_err().message().contains("No parser found"));
}

#[test]
fn test_parser_manager_docx() {
    let manager = ParserManager::new();
    let (path, data) = test_file("test.docx");

    let result = manager.parse(&path, &data);
    assert!(result.is_ok());

    let content = result.unwrap();
    assert!(content.contains("docx") || content.contains("姓名") || content.contains("张三"));
}

#[test]
fn test_parser_manager_pptx() {
    let manager = ParserManager::new();
    let (path, data) = test_file("test.pptx");

    let result = manager.parse(&path, &data);
    assert!(result.is_ok());

    let content = result.unwrap();
    assert!(!content.is_empty());
}

#[test]
fn test_parser_manager_excel() {
    let manager = ParserManager::new();
    let (path, data) = test_file("test.xlsx");

    let result = manager.parse(&path, &data);
    assert!(result.is_ok());

    let content = result.unwrap();
    assert!(content.contains("姓名") || content.contains("张三"));
}

#[test]
fn test_parser_manager_pdf() {
    let manager = ParserManager::new();
    let (path, data) = test_file("test.pdf");

    let result = manager.parse(&path, &data);
    assert!(result.is_ok());
}

#[test]
fn test_parser_manager_rtf() {
    let manager = ParserManager::new();
    let (path, data) = test_file("test.rtf");

    let result = manager.parse(&path, &data);
    assert!(result.is_ok());

    let content = result.unwrap();
    assert!(!content.is_empty());
}

#[test]
fn test_parser_manager_odt() {
    let manager = ParserManager::new();
    let (path, data) = test_file("test.odt");

    let result = manager.parse(&path, &data);
    assert!(result.is_ok());

    let content = result.unwrap();
    assert!(content.contains("ODT"));
}

#[test]
fn test_parser_manager_ods() {
    let manager = ParserManager::new();
    let (path, data) = test_file("test.ods");

    let result = manager.parse(&path, &data);
    assert!(result.is_ok());

    let content = result.unwrap();
    assert!(content.contains("Alice") || content.contains("Name") || content.contains("姓名"));
}

#[test]
fn test_parser_manager_odp() {
    let manager = ParserManager::new();
    let (path, data) = test_file("test.odp");

    let result = manager.parse(&path, &data);
    assert!(result.is_ok());

    let content = result.unwrap();
    assert!(!content.is_empty());
}

#[test]
fn test_parser_manager_csv() {
    let manager = ParserManager::new();
    let (path, data) = test_file("test.csv");

    let result = manager.parse(&path, &data);
    assert!(result.is_ok());

    let content = result.unwrap();
    assert!(content.contains("Alice") || content.contains("name"));
}

#[test]
fn no_parser_message_escapes_the_path() {
    let manager = ParserManager::new();
    let result = manager.parse("C:\\dir\\a \"b\".xyz", b"whatever");
    assert_eq!(
        result.unwrap_err().message(),
        "No parser found for file: \"C:\\\\dir\\\\a \\\"b\\\".xyz\""
    );
    let result = manager.parse("/tmp/test.xyz", b"whatever");
    assert_eq!(result.unwrap_err().message(), "No parser found for file: \"/tmp/test.xyz\"");
}

#[test]
fn rtf_unicode_values() {
    let parser = RtfParser;
    let ok = parser.parse("a.rtf", br"{\rtf1 \u21834 x}").unwrap();
    assert!(ok.contains('\u{554a}'));
    let err = parser.parse("a.rtf", br"{\rtf1 \u55357 x}").unwrap_err();
    assert_eq!(err.message(), "Failed to parse RTF file: unsupported content");
    let err = parser.parse("a.rtf", br"{\rtf1\uc-2\u65 x}").unwrap_err();
    assert_eq!(err.message(), "Failed to parse RTF file: unsupported content");
    let err = parser.parse("a.rtf", br"{\rtf1 \u-10179 x}").unwrap_err();
    assert_eq!(err.message(), "Failed to parse RTF file: unsupported content");
    assert!(parser.parse("a.rtf", br"{\rtf1\uc1 \u-24425 x}").is_ok());
}

#[test]
fn rtf_surrogate_pairs_and_other_limits() {
    let parser = RtfParser;
    let ok = parser.parse("a.rtf", br"{\rtf1 \u55357\u56832 x}").unwrap();
    assert!(ok.contains('\u{1F600}'));
    let ok = parser.parse("a.rtf", br"{\rtf1 \u-10179 \u-8704 x}").unwrap();
    assert!(ok.contains('\u{1F600}'));
    let err = parser.parse("a.rtf", br"{\rtf1 \u55357 \u65 x}").unwrap_err();
    assert_eq!(err.message(), "Failed to parse RTF file: unsupported content");
    let err = parser.parse("a.rtf", br"{\rtf1 \u56832 x}").unwrap_err();
    assert_eq!(err.message(), "Failed to parse RTF file: unsupported content");
    let err = parser.parse("a.rtf", br"{\rtf1 \sl-2147483648 x}").unwrap_err();
    assert_eq!(err.message(), "Failed to parse RTF file: unsupported content");
    assert!(parser.parse("a.rtf", br"{\rtf1 \sl-240 x}").is_ok());
    let mut many = String::from(r"{\rtf1{\colortbl;");
    for _ in 0..65535 {
        many.push_str(r"\red0\green0\blue0;");
    }
    many.push_str("}x}");
    let err = parser.parse("a.rtf", many.as_bytes()).unwrap_err();
    assert_eq!(err.message(), "Failed to parse RTF file: unsupported content");
}
