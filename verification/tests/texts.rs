use dowse::highlight::{segments_from_ranges, wrap_highlight_ranges, TextSegment};
use dowse::paths::{display_path, path_components, path_is_under, paths_equal};
use dowse::strmap::StrMap;

#[test]
fn wrap_skips_ranges_off_char_boundaries_and_overlaps() {
    let r = wrap_highlight_ranges("季度 report", &vec![(0, 3), (1, 2), (7, 13)], "<b>", "</b>");
    assert_eq!(r, "<b>季</b>度 <b>report</b>");
    let r = wrap_highlight_ranges("abcdef", &vec![(2, 4), (3, 5)], "[", "]");
    assert_eq!(r, "ab[cd]ef");
    let r = wrap_highlight_ranges("abc", &vec![(1, 9)], "[", "]");
    assert_eq!(r, "abc");
}

#[test]
fn segments_cut_at_ranges() {
    let s = segments_from_ranges("abc", &vec![(0, 1)]);
    assert_eq!(
        s,
        vec![
            TextSegment { text: "a".to_string(), highlighted: true },
            TextSegment { text: "bc".to_string(), highlighted: false },
        ]
    );
    assert_eq!(
        segments_from_ranges("abc", &Vec::new()),
        vec![TextSegment { text: "abc".to_string(), highlighted: false }]
    );
}

#[test]
fn paths_compare_by_components() {
    assert_eq!(display_path("\\\\?\\C:\\docs"), "C:\\docs");
    assert_eq!(display_path("\\\\?\\UNC\\srv\\share"), "\\\\srv\\share");
    assert_eq!(display_path("C:\\docs"), "C:\\docs");
    assert!(path_is_under("C:\\docs\\a\\b.md", "C:\\docs"));
    assert!(path_is_under("C:/docs/a", "C:\\docs"));
    assert!(!path_is_under("C:\\docsx\\a", "C:\\docs"));
    assert!(paths_equal("C:\\docs\\", "C:\\docs"));
    assert_eq!(path_components("C:\\a\\\\b").len(), 3);
}

#[test]
fn strmap_insert_get_remove() {
    let mut m: StrMap<u32> = StrMap::new();
    m.insert("a".to_string(), 1);
    m.insert("b".to_string(), 2);
    m.insert("a".to_string(), 3);
    assert_eq!(m.len(), 2);
    assert_eq!(m.get("a"), Some(&3));
    assert_eq!(m.remove("a"), Some(3));
    assert_eq!(m.get("a"), None);
    assert_eq!(m.pop_first(), Some(("b".to_string(), 2)));
    assert_eq!(m.len(), 0);
}
