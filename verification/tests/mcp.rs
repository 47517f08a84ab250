use dowse::highlight::{segments_from_ranges, TextSegment};
use dowse::mcp::{
    check_preview_params, check_search_params, clean_ext_tokens, ext_tokens, mark_highlights,
    parse_sort, to_preview_output, DowseMcpServer, ParamError, PreviewParams, SearchParams,
    SortMode, MAX_MCP_OFFSET,
};

fn pieces(raw: &str) -> Vec<String> {
    raw.split(',').map(String::from).collect()
}

#[test]
fn mark_highlights_wraps_ranges_with_marks() {
    let ranges = vec![(0, 5)];
    let out = mark_highlights("hello world", &ranges);
    assert_eq!(out, "«hello» world");
}

#[test]
fn mark_highlights_multiple_ranges() {
    let out = mark_highlights("限流中间件的实现", &vec![(0, 6), (12, 15)]);
    assert_eq!(out, "«限流»中间«件»的实现");
}

#[test]
fn mark_highlights_no_ranges_returns_original() {
    let out = mark_highlights("nothing highlighted", &vec![]);
    assert_eq!(out, "nothing highlighted");
}

#[test]
fn mark_highlights_skips_ranges_off_char_boundaries_or_overlapping() {
    assert_eq!(mark_highlights("限流", &vec![(1, 3)]), "限流");
    assert_eq!(mark_highlights("abcdef", &vec![(0, 3), (2, 4), (4, 6)]), "«abc»d«ef»");
    assert_eq!(mark_highlights("abc", &vec![(2, 2), (1, 9)]), "abc");
}

#[test]
fn segments_split_text_into_plain_and_highlighted_pieces() {
    let segs = segments_from_ranges("a限流b", &vec![(1, 7)]);
    assert_eq!(
        segs,
        vec![
            TextSegment { text: "a".to_string(), highlighted: false },
            TextSegment { text: "限流".to_string(), highlighted: true },
            TextSegment { text: "b".to_string(), highlighted: false },
        ]
    );
    assert_eq!(segments_from_ranges("", &vec![]), Vec::<TextSegment>::new());
}

#[test]
fn parse_sort_maps_known_values_and_rejects_unknown() {
    assert_eq!(parse_sort(None).unwrap(), SortMode::Relevance);
    assert_eq!(parse_sort(Some("relevance")).unwrap(), SortMode::Relevance);
    assert_eq!(parse_sort(Some("mtime")).unwrap(), SortMode::MtimeDesc);
    assert_eq!(parse_sort(Some("size")).unwrap(), SortMode::SizeDesc);
    assert!(parse_sort(Some("bogus")).is_err());
    assert!(parse_sort(Some("mtime_desc")).is_err());
}

#[test]
fn clean_ext_tokens_drops_empty_segments() {
    assert_eq!(clean_ext_tokens(pieces("md,,txt")), vec!["md", "txt"]);
    assert_eq!(clean_ext_tokens(pieces("md")), vec!["md"]);
    assert!(clean_ext_tokens(pieces("")).is_empty());
    assert!(clean_ext_tokens(pieces(",,")).is_empty());
    assert_eq!(clean_ext_tokens(pieces("md, PDF")), vec!["md", "pdf"]);
    assert!(clean_ext_tokens(pieces(" , ")).is_empty());
    assert_eq!(ext_tokens("md, PDF"), vec!["md", "pdf"]);
}

fn params(query: &str) -> SearchParams {
    SearchParams { query: query.to_string(), limit: None, offset: None, ext: None, sort: None }
}

#[test]
fn search_params_reject_blank_query_zero_limit_empty_ext_and_unknown_sort() {
    assert_eq!(check_search_params(&params("   ")).unwrap_err(), ParamError::EmptyQuery);
    let mut p = params("笔记");
    p.limit = Some(0);
    assert_eq!(check_search_params(&p).unwrap_err(), ParamError::ZeroLimit);
    let mut p = params("笔记");
    p.ext = Some(",".to_string());
    assert_eq!(check_search_params(&p).unwrap_err(), ParamError::EmptyExt);
    let mut p = params("笔记");
    p.sort = Some("bogus".to_string());
    assert_eq!(
        check_search_params(&p).unwrap_err(),
        ParamError::UnknownSort("bogus".to_string())
    );
    let long = "字".repeat(3000);
    assert_eq!(check_search_params(&params(&long)).unwrap_err(), ParamError::QueryTooLong);
}

#[test]
fn search_params_fill_defaults_and_clamp_offset() {
    let plan = check_search_params(&params("限流")).unwrap();
    assert_eq!(plan.limit, 10);
    assert_eq!(plan.offset, 0);
    assert_eq!(plan.sort, SortMode::Relevance);
    assert!(plan.include_score);
    assert!(plan.exts.is_empty());
    let mut p = params("限流");
    p.offset = Some(5_000_000);
    p.sort = Some("size".to_string());
    p.ext = Some("md,TXT".to_string());
    let plan = check_search_params(&p).unwrap();
    assert_eq!(plan.offset, MAX_MCP_OFFSET);
    assert!(!plan.include_score);
    assert_eq!(plan.exts, vec!["md", "txt"]);
}

#[test]
fn preview_params_reject_blank_path_then_blank_query() {
    let p = PreviewParams { path: " ".to_string(), query: "x".to_string() };
    assert_eq!(check_preview_params(&p), Err(ParamError::EmptyPath));
    let p = PreviewParams { path: r"C:\a.md".to_string(), query: "".to_string() };
    assert_eq!(check_preview_params(&p), Err(ParamError::EmptyQuery));
    let p = PreviewParams { path: r"C:\a.md".to_string(), query: "a".to_string() };
    assert_eq!(check_preview_params(&p), Ok(()));
}

#[test]
fn preview_output_marks_snippet() {
    let out = to_preview_output("abc", &vec![(1, 2)], 7, 9, "md".to_string());
    assert_eq!(out.snippet, "a«b»c");
    assert_eq!((out.size, out.mtime_unix_ms, out.kind.as_str()), (7, 9, "md"));
    let server = DowseMcpServer::new("idx".to_string());
    assert_eq!(server.index_dir(), "idx");
}

#[test]
fn index_status_output_and_unavailable_message() {
    use_index_status_output();
}

fn use_index_status_output() {
    let rules = dowse::extract::IndexRules {
        exclude_dirs: vec!["node_modules".to_string()],
        extra_text_exts: Vec::new(),
        max_file_mb: 20,
    };
    let out = dowse::mcp::to_index_status_output(3, vec!["C:\\docs".to_string()], 4096, Some(1), &rules);
    assert_eq!(out.num_docs, 3);
    assert_eq!(out.rules.exclude_dirs, vec!["node_modules".to_string()]);
    assert_eq!(out.rules.max_file_mb, 20);
    assert_eq!(dowse::mcp::unavailable_message("找不到 meta"), "索引不可用：找不到 meta");
}

#[test]
fn search_rejects_empty_query() {
    assert_eq!(check_search_params(&params("   ")).unwrap_err(), ParamError::EmptyQuery);
}

#[test]
fn search_rejects_zero_limit() {
    let mut p = params("笔记");
    p.limit = Some(0);
    assert_eq!(check_search_params(&p).unwrap_err(), ParamError::ZeroLimit);
}

#[test]
fn search_rejects_empty_ext_string() {
    let mut p = params("笔记");
    p.ext = Some(String::new());
    assert_eq!(check_search_params(&p).unwrap_err(), ParamError::EmptyExt);
}

#[test]
fn search_rejects_unknown_sort() {
    let mut p = params("笔记");
    p.sort = Some("bogus".to_owned());
    assert_eq!(check_search_params(&p).unwrap_err(), ParamError::UnknownSort("bogus".to_string()));
}

#[test]
fn preview_rejects_empty_path() {
    let p = PreviewParams { path: "".to_owned(), query: "笔记".to_owned() };
    assert_eq!(check_preview_params(&p), Err(ParamError::EmptyPath));
}
