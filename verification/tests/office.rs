use std::io::{Cursor, Write};

use dowse::extract::{Extractor, IndexRules};
use dowse::office::{
    decompress_budget, extract_docx, extract_document, extract_pptx, extract_xlsx, sort_names, Package,
};
use dowse::xml_text::{extract_tagged_text, ref_value, tagged_text_of, XmlEvent};
use zip::write::SimpleFileOptions;
use zip::CompressionMethod;

const BUDGET: usize = 20 * 1024 * 1024;

fn zip_bytes(entries: &[(&str, &str)]) -> Vec<u8> {
    let mut zip = zip::ZipWriter::new(Cursor::new(Vec::new()));
    for (name, content) in entries {
        zip.start_file(*name, SimpleFileOptions::default()).unwrap();
        zip.write_all(content.as_bytes()).unwrap();
    }
    zip.finish().unwrap().into_inner()
}

#[test]
fn extracts_docx_paragraph_text() {
    let document_xml = r#"<?xml version="1.0" encoding="UTF-8" standalone="yes"?>
<w:document xmlns:w="http://schemas.openxmlformats.org/wordprocessingml/2006/main">
  <w:body>
    <w:p><w:r><w:t>季度对账哨兵词</w:t></w:r></w:p>
    <w:p><w:r><w:t>quarterly-sentinel</w:t></w:r></w:p>
  </w:body>
</w:document>"#;
    let pkg = zip_bytes(&[("word/document.xml", document_xml)]);
    let text = extract_docx(pkg, BUDGET).expect("the docx has text");
    assert!(text.contains("季度对账哨兵词"));
    assert!(text.contains("quarterly-sentinel"));
    assert_eq!(text, "季度对账哨兵词\nquarterly-sentinel");
}

#[test]
fn extracts_xlsx_shared_and_inline_strings() {
    let shared_strings = r#"<?xml version="1.0" encoding="UTF-8" standalone="yes"?>
<sst xmlns="http://schemas.openxmlformats.org/spreadsheetml/2006/main" count="1" uniqueCount="1">
  <si><t>季度对账哨兵词</t></si>
</sst>"#;
    let sheet1 = r#"<?xml version="1.0" encoding="UTF-8" standalone="yes"?>
<worksheet xmlns="http://schemas.openxmlformats.org/spreadsheetml/2006/main">
  <sheetData>
    <row r="1">
      <c r="A1" t="s"><v>0</v></c>
      <c r="B1" t="inlineStr"><is><t>quarterly-sentinel</t></is></c>
    </row>
  </sheetData>
</worksheet>"#;
    let pkg = zip_bytes(&[("xl/sharedStrings.xml", shared_strings), ("xl/worksheets/sheet1.xml", sheet1)]);
    let text = extract_xlsx(pkg, BUDGET).expect("the xlsx has text");
    assert!(text.contains("季度对账哨兵词"));
    assert!(text.contains("quarterly-sentinel"));
}

#[test]
fn extracts_pptx_slide_text() {
    let slide1 = r#"<?xml version="1.0" encoding="UTF-8" standalone="yes"?>
<p:sld xmlns:a="http://schemas.openxmlformats.org/drawingml/2006/main"
       xmlns:p="http://schemas.openxmlformats.org/presentationml/2006/main">
  <p:cSld>
    <p:spTree>
      <p:sp><p:txBody><a:p><a:r><a:t>季度对账哨兵词</a:t></a:r></a:p></p:txBody></p:sp>
      <p:sp><p:txBody><a:p><a:r><a:t>quarterly-sentinel</a:t></a:r></a:p></p:txBody></p:sp>
    </p:spTree>
  </p:cSld>
</p:sld>"#;
    let pkg = zip_bytes(&[("ppt/slides/slide1.xml", slide1)]);
    let text = extract_pptx(pkg, BUDGET).expect("the pptx has text");
    assert!(text.contains("季度对账哨兵词"));
    assert!(text.contains("quarterly-sentinel"));
}

#[test]
fn pptx_slides_come_in_name_order() {
    let slide = |t: &str| format!("<p:sld><a:p><a:t>{}</a:t></a:p></p:sld>", t);
    let pkg = zip_bytes(&[
        ("ppt/slides/slide2.xml", &slide("second")),
        ("ppt/slides/slide1.xml", &slide("first")),
        ("ppt/slideLayouts/slideLayout1.xml", &slide("layout")),
    ]);
    let text = extract_pptx(pkg, BUDGET).unwrap();
    assert_eq!(text, "first\n\nsecond");
}

#[test]
fn corrupted_docx_is_skipped_without_panic() {
    assert!(extract_docx(b"this is not a zip file at all".to_vec(), BUDGET).is_none());
    assert!(Package::open(b"not a zip".to_vec()).is_none());
}

#[test]
fn docx_missing_document_entry_returns_none() {
    let pkg = zip_bytes(&[("docProps/core.xml", "<coreProperties/>")]);
    assert!(extract_docx(pkg, BUDGET).is_none());
}

#[test]
fn docx_with_truncated_xml_keeps_text_before_corruption() {
    let document_xml = r#"<w:document xmlns:w="http://schemas.openxmlformats.org/wordprocessingml/2006/main"><w:body><w:p><w:r><w:t>partial-before-corruption</w:t></w:r></w:p></w:bogusEnd>"#;
    let pkg = zip_bytes(&[("word/document.xml", document_xml)]);
    let text = extract_docx(pkg, BUDGET).expect("the text before the fault is kept");
    assert!(text.contains("partial-before-corruption"));
}

#[test]
fn whitespace_only_docx_returns_none() {
    let document_xml = r#"<w:document xmlns:w="http://schemas.openxmlformats.org/wordprocessingml/2006/main"><w:body><w:p><w:r><w:t>    </w:t></w:r></w:p></w:body></w:document>"#;
    let pkg = zip_bytes(&[("word/document.xml", document_xml)]);
    assert!(extract_docx(pkg, BUDGET).is_none());
}

#[test]
fn xlsx_skips_unreadable_sheet_and_processes_the_rest() {
    let mut zip = zip::ZipWriter::new(Cursor::new(Vec::new()));
    let stored = SimpleFileOptions::default().compression_method(CompressionMethod::Stored);
    zip.start_file("xl/worksheets/sheet1.xml", stored).unwrap();
    zip.write_all(
        br#"<worksheet><sheetData><row><c t="inlineStr"><is><t>CORRUPTME_SHEET1_UNIQUE</t></is></c></row></sheetData></worksheet>"#,
    )
    .unwrap();
    zip.start_file("xl/worksheets/sheet2.xml", SimpleFileOptions::default()).unwrap();
    zip.write_all(
        br#"<worksheet><sheetData><row><c t="inlineStr"><is><t>survivor-sheet2-text</t></is></c></row></sheetData></worksheet>"#,
    )
    .unwrap();
    let mut raw = zip.finish().unwrap().into_inner();

    let needle = b"CORRUPTME_SHEET1_UNIQUE";
    let pos = raw.windows(needle.len()).position(|w| w == needle).expect("the stored text is in the package");
    raw[pos] ^= 0xFF;

    let text = extract_xlsx(raw, BUDGET).expect("the other sheet still gives text");
    assert!(text.contains("survivor-sheet2-text"));
    assert!(!text.contains("CORRUPTME_SHEET1_UNIQUE"));
}

#[test]
fn part_over_the_budget_is_left_out() {
    let document_xml = "<w:document><w:p><w:t>0123456789</w:t></w:p></w:document>";
    let pkg = zip_bytes(&[("word/document.xml", document_xml)]);
    assert!(extract_docx(pkg.clone(), document_xml.len() - 1).is_none());
    assert_eq!(extract_docx(pkg, document_xml.len()).as_deref(), Some("0123456789"));
}

#[test]
fn xlsx_budget_is_shared_between_parts() {
    let shared = "<sst><si><t>shared</t></si></sst>";
    let sheet = "<worksheet><t>sheet</t></worksheet>";
    let pkg = zip_bytes(&[("xl/sharedStrings.xml", shared), ("xl/worksheets/sheet1.xml", sheet)]);
    assert_eq!(extract_xlsx(pkg.clone(), shared.len()).as_deref(), Some("shared"));
    assert_eq!(extract_xlsx(pkg, shared.len() + sheet.len()).as_deref(), Some("shared\nsheet"));
}

#[test]
fn references_inside_text_are_resolved() {
    let xml = b"<r><t>a&amp;b&#x41;&#66;&lt;&nosuch;c</t><t2>&amp;</t2></r>";
    assert_eq!(extract_tagged_text(xml, "t", None), "a&bAB<c");
    assert_eq!(ref_value("quot").as_deref(), Some("\""));
    assert_eq!(ref_value("#x4E2D").as_deref(), Some("中"));
    assert_eq!(ref_value("#0"), None);
    assert_eq!(ref_value("bogus"), None);
}

#[test]
fn pass_over_events_collects_text_runs_and_breaks() {
    let evs = vec![
        XmlEvent::Start("p".to_string()),
        XmlEvent::Text("outside".to_string()),
        XmlEvent::Start("t".to_string()),
        XmlEvent::Text("one".to_string()),
        XmlEvent::End("t".to_string()),
        XmlEvent::End("p".to_string()),
        XmlEvent::Empty("p".to_string()),
        XmlEvent::Start("t".to_string()),
        XmlEvent::Text("two".to_string()),
        XmlEvent::Error,
        XmlEvent::Text("never".to_string()),
    ];
    assert_eq!(tagged_text_of(&evs, "t", Some("p")), "one\n\ntwo");
    assert_eq!(tagged_text_of(&evs, "t", None), "onetwo");
}

#[test]
fn names_sort_as_strings() {
    let v = vec!["b".to_string(), "a10".to_string(), "a2".to_string(), "a".to_string()];
    assert_eq!(sort_names(&v), vec!["a", "a10", "a2", "b"]);
}

#[test]
fn dispatch_by_extractor() {
    let rules = IndexRules { exclude_dirs: Vec::new(), extra_text_exts: Vec::new(), max_file_mb: 20 };
    assert_eq!(decompress_budget(&rules), 20 * 1024 * 1024);
    assert_eq!(extract_document(Extractor::PlainText, b"hello".to_vec(), 10).as_deref(), Some("hello"));
    let pkg = zip_bytes(&[("word/document.xml", "<d><p><t>x</t></p></d>")]);
    assert_eq!(extract_document(Extractor::Docx, pkg, 100).as_deref(), Some("x"));
}
