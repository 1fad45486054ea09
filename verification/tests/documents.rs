use std::io::Write;

use wunderdrive::archive::{PdfReader, ZipReader};
use wunderdrive::extract::{docx_runs_of, extract_bytes, pdf_pages_of, pptx_slides_of, Extractor};
use zip::write::SimpleFileOptions;
use zip::ZipWriter;

fn zip_of(parts: &[(&str, &str)]) -> Vec<u8> {
    let mut zw = ZipWriter::new(std::io::Cursor::new(Vec::new()));
    let opts = SimpleFileOptions::default();
    for (name, body) in parts {
        zw.start_file(*name, opts).unwrap();
        zw.write_all(body.as_bytes()).unwrap();
    }
    zw.finish().unwrap().into_inner()
}

fn build_minimal_docx() -> Vec<u8> {
    let content_types = r#"<?xml version="1.0" encoding="UTF-8" standalone="yes"?>
<Types xmlns="http://schemas.openxmlformats.org/package/2006/content-types">
<Default Extension="rels" ContentType="application/vnd.openxmlformats-package.relationships+xml"/>
<Default Extension="xml" ContentType="application/xml"/>
<Override PartName="/word/document.xml" ContentType="application/vnd.openxmlformats-officedocument.wordprocessingml.document.main+xml"/>
</Types>"#;
    let rels = r#"<?xml version="1.0" encoding="UTF-8" standalone="yes"?>
<Relationships xmlns="http://schemas.openxmlformats.org/package/2006/relationships">
<Relationship Id="rId1" Type="http://schemas.openxmlformats.org/officeDocument/2006/relationships/officeDocument" Target="word/document.xml"/>
</Relationships>"#;
    let document = r#"<?xml version="1.0" encoding="UTF-8" standalone="yes"?>
<w:document xmlns:w="http://schemas.openxmlformats.org/wordprocessingml/2006/main">
<w:body><w:p><w:r><w:t>Hello docx world</w:t></w:r></w:p></w:body></w:document>"#;
    zip_of(&[("[Content_Types].xml", content_types), ("_rels/.rels", rels), ("word/document.xml", document)])
}

fn build_minimal_pdf() -> Vec<u8> {
    let stream_body = b"(Hello PDF) Tj\n";
    let stream_len = stream_body.len();
    let header = b"%PDF-1.4\n";
    let obj1 = b"1 0 obj\n<< /Type /Catalog /Pages 2 0 R >>\nendobj\n";
    let obj2 = b"2 0 obj\n<< /Type /Pages /Kids [3 0 R] /Count 1 >>\nendobj\n";
    let obj3 = b"3 0 obj\n<< /Type /Page /Parent 2 0 R /Contents 4 0 R >>\nendobj\n";
    let stream_pre = format!("4 0 obj\n<< /Length {stream_len} >>\nstream\n").into_bytes();
    let stream_post = b"endstream\nendobj\n";
    let mut bytes = Vec::new();
    bytes.extend_from_slice(header);
    let off1 = bytes.len();
    bytes.extend_from_slice(obj1);
    let off2 = bytes.len();
    bytes.extend_from_slice(obj2);
    let off3 = bytes.len();
    bytes.extend_from_slice(obj3);
    let off4 = bytes.len();
    bytes.extend_from_slice(&stream_pre);
    bytes.extend_from_slice(stream_body);
    bytes.extend_from_slice(stream_post);
    let xref_offset = bytes.len();
    let xref = format!(
        "xref\n0 5\n0000000000 65535 f \n{off1:010} 00000 n \n{off2:010} 00000 n \n{off3:010} 00000 n \n{off4:010} 00000 n \n"
    );
    bytes.extend_from_slice(xref.as_bytes());
    let trailer = format!("trailer\n<< /Size 5 /Root 1 0 R >>\nstartxref\n{xref_offset}\n%%EOF\n");
    bytes.extend_from_slice(trailer.as_bytes());
    bytes
}

#[test]
fn docx_extracts_text() {
    let out = extract_bytes(Extractor::Docx, &build_minimal_docx()).expect("docx should extract Some(text)");
    assert!(out.contains("Hello docx world"), "missing phrase in: {out:?}");
    assert_eq!(out, "Hello docx world");
    assert_eq!(docx_runs_of(&build_minimal_docx()), Some(vec!["Hello docx world".to_string()]));
}

#[test]
fn docx_without_body_or_archive_has_no_text() {
    let other = zip_of(&[("word/other.xml", "<w:t>x</w:t>")]);
    assert_eq!(extract_bytes(Extractor::Docx, &other), None);
    assert_eq!(extract_bytes(Extractor::Docx, b"not a zip"), None);
}

#[test]
fn pdf_extracts_text() {
    let out = extract_bytes(Extractor::Pdf, &build_minimal_pdf()).expect("pdf should extract Some(text)");
    assert!(out.contains("Hello PDF"), "missing 'Hello PDF' in: {out:?}");
    assert_eq!(out, "Hello PDF\n");
    assert_eq!(pdf_pages_of(&build_minimal_pdf()), Some(vec![b"(Hello PDF) Tj\n\n".to_vec()]));
    assert_eq!(extract_bytes(Extractor::Pdf, b"%PDF- broken"), None);
    assert!(PdfReader::load(b"nothing").is_none());
}

#[test]
fn pptx_slides_in_number_order() {
    let bytes = zip_of(&[
        ("ppt/slides/slide2.xml", "<p:sld><a:t>Second</a:t></p:sld>"),
        ("ppt/media/image1.png", "PNG"),
        ("ppt/slides/slide1.xml", "<p:sld><a:t>First</a:t><a:t> slide</a:t></p:sld>"),
        ("ppt/slides/slide3.xml", "<p:sld></p:sld>"),
    ]);
    assert_eq!(pptx_slides_of(&bytes), vec![(2, "Second".to_string()), (1, "First slide".to_string())]);
    assert_eq!(extract_bytes(Extractor::Pptx, &bytes), Some("First slide\n\nSecond".to_string()));
    assert_eq!(extract_bytes(Extractor::Pptx, &zip_of(&[("a.txt", "x")])), None);
}

#[test]
fn plain_bytes_decode_lossily() {
    assert_eq!(extract_bytes(Extractor::Plain, b"caf\xc3\xa9 \xff"), Some("caf\u{e9} \u{fffd}".to_string()));
}

#[test]
fn zip_reader_reads_entries() {
    let bytes = zip_of(&[("a.txt", "alpha"), ("b/c.txt", "gamma")]);
    let mut z = ZipReader::open(&bytes).unwrap();
    assert_eq!(z.len(), 2);
    assert_eq!(z.name_at(1), Some("b/c.txt".to_string()));
    assert_eq!(z.bytes_at(0), Some(b"alpha".to_vec()));
    assert_eq!(z.bytes_named("b/c.txt"), Some(b"gamma".to_vec()));
    assert_eq!(z.bytes_named("missing"), None);
    assert_eq!(z.name_at(5), None);
    assert!(ZipReader::open(b"plain").is_none());
}
