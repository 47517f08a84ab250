use dowse::paths::{path_is_under, paths_equal};
use dowse::extract::{
    budget_after, decode_text_smart, extraction_plan, entry_read_limit, entry_within_budget, extractor_for_path,
    file_extension, finish_text, is_extractable_with, is_text_ext, over_size_limit, settle_decoding,
    sheet_entry, slide_entry, Extractor, IndexRules, DEFAULT_MAX_FILE_MB,
};

fn rules() -> IndexRules {
    IndexRules { exclude_dirs: Vec::new(), extra_text_exts: Vec::new(), max_file_mb: DEFAULT_MAX_FILE_MB }
}

#[test]
fn extensions_follow_path_extension_rules() {
    assert_eq!(file_extension("C:\\a\\report.PDF"), Some(vec!['P', 'D', 'F']));
    assert_eq!(file_extension("C:\\a\\.gitignore"), None);
    assert_eq!(file_extension("C:\\a\\noext"), None);
    assert_eq!(file_extension("C:\\a.b\\noext"), None);
    assert_eq!(file_extension("archive.tar.gz"), Some(vec!['g', 'z']));
}

#[test]
fn extractors_by_extension() {
    let r = rules();
    assert_eq!(extractor_for_path("C:\\a\\x.Docx", &r), Some(Extractor::Docx));
    assert_eq!(extractor_for_path("C:\\a\\x.xlsx", &r), Some(Extractor::Xlsx));
    assert_eq!(extractor_for_path("C:\\a\\x.pptx", &r), Some(Extractor::Pptx));
    assert_eq!(extractor_for_path("C:\\a\\x.pdf", &r), Some(Extractor::Pdf));
    assert_eq!(extractor_for_path("C:\\a\\x.md", &r), Some(Extractor::PlainText));
    assert_eq!(extractor_for_path("C:\\a\\x.png", &r), None);
    assert!(is_text_ext("txt"));
    assert!(!is_text_ext("exe"));
}

#[test]
fn extra_text_ext_becomes_extractable_and_reads_as_text() {
    let default_rules = rules();
    assert!(!is_extractable_with("C:\\notes\\note.rst", &default_rules));
    let with_rst = IndexRules { extra_text_exts: vec!["rst".to_string()], ..rules() };
    assert!(is_extractable_with("C:\\notes\\note.rst", &with_rst));
    assert_eq!(extractor_for_path("C:\\notes\\note.RST", &with_rst), Some(Extractor::PlainText));
    let text = decode_text_smart("追加扩展名内容 extra-ext-marker".as_bytes()).unwrap();
    assert!(text.contains("extra-ext-marker"));
}

#[test]
fn file_over_size_limit_is_skipped() {
    let r = rules();
    assert_eq!(r.max_file_bytes(), 20 * 1024 * 1024);
    assert!(over_size_limit(r.max_file_bytes() + 1, &r));
    assert!(!over_size_limit(r.max_file_bytes(), &r));
}

#[test]
fn custom_lower_size_limit_skips_file_default_would_index() {
    let two_mb = 2 * 1024 * 1024;
    assert!(!over_size_limit(two_mb, &rules()));
    let tight = IndexRules { max_file_mb: 1, ..rules() };
    assert!(over_size_limit(two_mb, &tight));
    let huge = IndexRules { max_file_mb: u64::MAX, ..rules() };
    assert_eq!(huge.max_file_bytes(), u64::MAX);
}

#[test]
fn gbk_encoded_chinese_txt_is_decoded_to_utf8() {
    let content = "这是一段用于编码探测的中文测试文本，\
包含足够多的汉字以便字符集识别器把它判定为国标编码而不是别的编码，\
季度对账哨兵词也在这里出现。";
    let (gbk, _, unmappable) = encoding_rs::GBK.encode(content);
    assert!(!unmappable);
    let text = decode_text_smart(&gbk).expect("GBK text decodes");
    assert!(text.contains("季度对账哨兵词"));
    assert!(text.contains("国标编码"));
}

#[test]
fn utf8_bom_file_is_decoded_without_leading_bom_char() {
    let mut bytes = vec![0xEF, 0xBB, 0xBF];
    bytes.extend_from_slice("带 BOM 的内容 marker-bom".as_bytes());
    let text = decode_text_smart(&bytes).expect("BOM text decodes");
    assert!(text.contains("marker-bom"));
    assert!(text.contains("带 BOM 的内容"));
    assert!(!text.starts_with('\u{FEFF}'));
}

#[test]
fn empty_text_file_returns_none() {
    assert!(decode_text_smart(b"").is_none());
}

#[test]
fn misdetected_encoding_falls_back_to_lossy_utf8() {
    let (gbk, _, _) = encoding_rs::GBK
        .encode("编码探测有损回退分支覆盖用例需要一段足够长的国标中文来稳定命中 GBK 判定");
    let mut buf = b"FALLBACK_MARKER_".to_vec();
    buf.extend_from_slice(&gbk);
    buf.extend_from_slice(&[0x81, 0x20]);
    let text = decode_text_smart(&buf).expect("the fallback still gives text");
    assert!(text.contains("FALLBACK_MARKER_"));
    assert!(!text.contains("国标中文"));
}

#[test]
fn settle_decoding_keeps_or_falls_back() {
    assert_eq!(settle_decoding("GBK", Some(("好".to_string(), false)), b"x"), "好");
    assert_eq!(settle_decoding("GBK", Some(("好".to_string(), true)), b"ab\xff"), "ab\u{FFFD}");
    assert_eq!(settle_decoding("UTF-8", Some(("a\u{FFFD}".to_string(), true)), b"a\xff"), "a\u{FFFD}");
    assert_eq!(settle_decoding("nonsense", None, b"plain"), "plain");
}

#[test]
fn finish_text_trims_and_drops_blank() {
    assert_eq!(finish_text("  hello \n"), Some("hello".to_string()));
    assert_eq!(finish_text("   \n\t "), None);
}

#[test]
fn package_part_names_and_budgets() {
    assert!(sheet_entry("xl/worksheets/sheet1.xml"));
    assert!(!sheet_entry("xl/worksheets/_rels/sheet1.xml.rels"));
    assert!(slide_entry("ppt/slides/slide12.xml"));
    assert!(!slide_entry("ppt/slideLayouts/slideLayout1.xml"));
    assert_eq!(entry_read_limit(10), 11);
    assert_eq!(entry_read_limit(usize::MAX), if usize::BITS == 64 { u64::MAX } else { usize::MAX as u64 + 1 });
    assert!(entry_within_budget(10, 10));
    assert!(!entry_within_budget(11, 10));
    assert_eq!(budget_after(10, 4), 6);
    assert_eq!(budget_after(3, 4), 0);
}

#[test]
fn path_comparison_follows_path_components() {
    assert!(!paths_equal("\\docs", "docs"), "a path from the root is not a relative one");
    assert!(paths_equal("C:\\a\\.\\b", "C:\\a\\b"), ". components are dropped");
    assert!(!paths_equal(".\\a", "a"), "a leading . is kept");
    assert!(paths_equal("C:\\a\\\\b\\", "C:/a/b"));
    assert!(path_is_under("C:\\a\\.\\b\\c.txt", "C:\\a\\b"));
    assert!(!path_is_under("docs\\x", "\\docs"));
}

#[test]
fn extraction_needs_an_extractable_kind_within_the_size_limit() {
    let two_mb = 2 * 1024 * 1024;
    assert_eq!(extraction_plan("C:\\a\\big.txt", two_mb, &rules()), Some(Extractor::PlainText));
    let tight = IndexRules { max_file_mb: 1, ..rules() };
    assert_eq!(extraction_plan("C:\\a\\big.txt", two_mb, &tight), None);
    assert_eq!(extraction_plan("C:\\notes\\note.rst", 10, &rules()), None);
    let with_rst = IndexRules { extra_text_exts: vec!["rst".to_string()], ..rules() };
    assert_eq!(extraction_plan("C:\\notes\\note.rst", 10, &with_rst), Some(Extractor::PlainText));
    assert_eq!(extraction_plan("C:\\a\\x.png", 10, &rules()), None);
}
