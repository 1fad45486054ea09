use wunderdrive::extract::{
    extracted_text, extractor_for, extractor_for_path, file_extension, join_slides, join_strings,
    parse_usize, slide_entry, slide_number, to_ascii_lower, truncate_chars, workbook_text, Cell, Extracted, Extractor,
    MAX_CHARS, pdf_pages_text,
};
use wunderdrive::ooxml::{parse_ooxml_text, resolve_reference, Runs, XmlEvent};
use wunderdrive::pdf::{extract_pdf_content_ops, pdf_text};

#[test]
fn pdf_content_extracts_strings() {
    let stream = b"(Hi) Tj\n[(a) -5 (b)] TJ\n";
    let mut out = String::new();
    extract_pdf_content_ops(stream, &mut out);
    assert!(out.contains("Hi"));
    assert!(out.contains("a"));
    assert!(out.contains("b"));
}

#[test]
fn pdf_hex_string_in_tj() {
    let stream = b"<48656c6c6f> Tj\n";
    let mut out = String::new();
    extract_pdf_content_ops(stream, &mut out);
    assert!(out.contains("Hello"), "got: {out:?}");
}

#[test]
fn pdf_content_exact_text() {
    let mut out = String::new();
    extract_pdf_content_ops(b"(Hi) Tj\n[(a) -5 (b)] TJ\n", &mut out);
    assert_eq!(out, "Hiab ");
    let mut out2 = String::new();
    extract_pdf_content_ops(b"(not shown) Td (x\\(y\\)) Tj (\\101\\102) Tj (\\101Z!) Tj", &mut out2);
    assert_eq!(out2, "x(y)ABAZ!");
    let mut out3 = String::new();
    extract_pdf_content_ops(b"(\\101) Tj\n", &mut out3);
    assert_eq!(out3, "A");
    let mut out4 = String::new();
    // at most three octal digits belong to an escape
    extract_pdf_content_ops(b"(\\1012) Tj", &mut out4);
    assert_eq!(out4, "A2");
}

#[test]
fn pdf_string_without_operator_is_ignored() {
    let mut out = String::new();
    extract_pdf_content_ops(b"(skip) Tf <4142> Tf", &mut out);
    assert_eq!(out, "");
}

#[test]
fn pdf_text_decodes_utf8_and_replaces_invalid() {
    assert_eq!(pdf_text(b"plain"), "plain");
    assert_eq!(pdf_text(&[0xff, b'a']), "\u{fffd}a");
}

#[test]
fn pdf_pages_are_separated_by_line_breaks() {
    let pages = vec![b"(one) Tj".to_vec(), b"(two) Tj".to_vec()];
    assert_eq!(pdf_pages_text(&pages), Some("one\ntwo\n".to_string()));
    let blank = vec![b"(   ) Tj".to_vec()];
    assert_eq!(pdf_pages_text(&blank), None);
}

#[test]
fn ooxml_text_parses_docx_fragment() {
    let xml = br#"<?xml version="1.0"?>
        <w:document xmlns:w="http://schemas.openxmlformats.org/wordprocessingml/2006/main">
            <w:body><w:p><w:r><w:t>Hello</w:t></w:r></w:p>
            <w:p><w:r><w:t>World</w:t></w:r></w:p></w:body></w:document>"#;
    let parts = parse_ooxml_text(xml, b"w:t").unwrap_or_default();
    assert_eq!(parts, vec!["Hello".to_string(), "World".to_string()]);
}

#[test]
fn ooxml_references_are_resolved() {
    let xml = b"<a:p><a:t>A &amp; B &#x43;&#68;</a:t><a:t>  </a:t></a:p>";
    assert_eq!(parse_ooxml_text(xml, b"a:t"), Some(vec!["A & B CD".to_string()]));
    let bad = b"<a:t>x &nope; y</a:t>";
    assert_eq!(parse_ooxml_text(bad, b"a:t"), None);
    assert_eq!(parse_ooxml_text(b"<w:t>x</w:t>", b"a:t"), None);
}

#[test]
fn reference_resolution() {
    assert_eq!(resolve_reference("lt"), Some("<".to_string()));
    assert_eq!(resolve_reference("quot"), Some("\"".to_string()));
    assert_eq!(resolve_reference("#65"), Some("A".to_string()));
    assert_eq!(resolve_reference("#x20AC"), Some("\u{20ac}".to_string()));
    assert_eq!(resolve_reference("#0"), None);
    assert_eq!(resolve_reference("#xD800"), None);
    assert_eq!(resolve_reference("#+65"), None);
    assert_eq!(resolve_reference("nbsp"), None);
}

#[test]
fn runs_collector_steps() {
    let tag = b"w:t";
    let mut r = Runs::new();
    r.step(XmlEvent::Text("outside".to_string()), tag);
    r.step(XmlEvent::Start(b"w:t".to_vec()), tag);
    r.step(XmlEvent::Text("in".to_string()), tag);
    r.step(XmlEvent::Ref("gt".to_string()), tag);
    r.step(XmlEvent::End(b"w:t".to_vec()), tag);
    r.step(XmlEvent::Eof, tag);
    assert!(r.finished());
    r.step(XmlEvent::Start(b"w:t".to_vec()), tag);
    assert_eq!(r.finish(), Some(vec!["in>".to_string()]));
}

#[test]
fn truncate_keeps_complete_chars() {
    let s = "héllo".to_string();
    assert_eq!(truncate_chars(s.clone(), 10), s);
    let t = truncate_chars(s, 2);
    assert_eq!(t, "hé");
}

#[test]
fn extractor_dispatch() {
    assert_eq!(extractor_for("md"), Some(Extractor::Plain));
    assert_eq!(extractor_for("PDF"), Some(Extractor::Pdf));
    assert_eq!(extractor_for("Docx"), Some(Extractor::Docx));
    assert_eq!(extractor_for("pptx"), Some(Extractor::Pptx));
    assert_eq!(extractor_for("ods"), Some(Extractor::Spreadsheet));
    assert_eq!(extractor_for("dat"), None);
    assert_eq!(extractor_for_path("/x/note.md"), Some(Extractor::Plain));
    assert_eq!(extractor_for_path("/x/blob.dat"), None);
    assert_eq!(extractor_for_path("/x/Makefile"), None);
    assert_eq!(extractor_for_path("/x/a.Dockerfile"), Some(Extractor::Plain));
}

#[test]
fn file_extension_like_path() {
    assert_eq!(file_extension("/a/b.txt"), Some("txt".to_string()));
    assert_eq!(file_extension("/a/b.tar.gz"), Some("gz".to_string()));
    assert_eq!(file_extension("/a/.bashrc"), None);
    assert_eq!(file_extension("/a/b"), None);
    assert_eq!(file_extension("/a/b."), Some(String::new()));
    assert_eq!(file_extension("dir.d/"), Some("d".to_string()));
    assert_eq!(file_extension(".."), None);
    assert_eq!(to_ascii_lower("AbC-É"), "abc-É");
}

#[test]
fn slide_numbers() {
    assert_eq!(slide_number("ppt/slides/slide12.xml"), Some(12));
    assert_eq!(slide_number("ppt/slides/slide+3.xml"), Some(3));
    assert_eq!(slide_number("ppt/slides/slide.xml"), None);
    assert_eq!(slide_number("ppt/slides/slideX.xml"), None);
    assert_eq!(slide_number("ppt/slides/_rels/slide1.xml.rels"), None);
    assert_eq!(parse_usize("007"), Some(7));
    assert_eq!(parse_usize(""), None);
    assert_eq!(parse_usize("+"), None);
    assert_eq!(parse_usize("99999999999999999999999999"), None);
}

#[test]
fn slides_join_in_number_order() {
    let slides = vec![(2, "two".to_string()), (1, "one".to_string()), (3, "three".to_string())];
    assert_eq!(join_slides(slides), Some("one\n\ntwo\n\nthree".to_string()));
    assert_eq!(join_slides(Vec::new()), None);
    assert_eq!(join_strings(&vec!["a".to_string(), "b".to_string()], ", "), "a, b");
}

#[test]
fn workbook_rows_and_cells() {
    let book = vec![(
        "Sheet1".to_string(),
        vec![
            vec![Cell::Text("Name".to_string()), Cell::Int(-42), Cell::Bool(true)],
            vec![Cell::Empty, Cell::Shown("1.5".to_string())],
        ],
    )];
    assert_eq!(workbook_text(&book), Some("Sheet1\nName\t-42\tTRUE\n\t1.5\n".to_string()));
    let blank: Vec<(String, Vec<Vec<Cell>>)> = vec![(" ".to_string(), vec![])];
    assert_eq!(workbook_text(&blank), None);
}

#[test]
fn extracted_text_dispatch_and_cap() {
    assert_eq!(extracted_text(Extracted::Plain(b"hello world".to_vec())), Some("hello world".to_string()));
    assert_eq!(extracted_text(Extracted::Nothing), None);
    assert_eq!(extracted_text(Extracted::Docx(Some(vec!["Hello ".to_string(), "docx".to_string()]))), Some("Hello docx".to_string()));
    assert_eq!(extracted_text(Extracted::Docx(None)), None);
    let long = "x".repeat(MAX_CHARS + 5);
    assert_eq!(extracted_text(Extracted::Plain(long.into_bytes())).unwrap().chars().count(), MAX_CHARS);
}

#[test]
fn slide_entries_from_parts() {
    let xml = b"<p:sld><a:t>Hello</a:t><a:t> world</a:t></p:sld>";
    assert_eq!(slide_entry("ppt/slides/slide3.xml", xml), Some((3, "Hello world".to_string())));
    assert_eq!(slide_entry("ppt/slides/slide3.xml", b"<p:sld><a:t>  </a:t></p:sld>"), None);
    assert_eq!(slide_entry("ppt/notesSlides/notesSlide3.xml", xml), None);
    assert_eq!(slide_entry("ppt/slides/slide12.xml", b"<a:t>x &amp; y</a:t>"), Some((12, "x & y".to_string())));
}
