use dowse::query::{
    date_to_ms, parse, parse_date_bound, parse_size_bound, Cmp, PathTerm, MS_PER_DAY,
};

#[test]
fn no_operator_query_signals_passthrough() {
    for q in ["限流 中间件", "\"unique marker\"", "分布式", "ext:md 限流"] {
        let parsed = parse(q).unwrap();
        assert!(!parsed.has_operators, "查询 {q:?} 不该被判成含操作符");
        assert!(parsed.groups.is_empty());
    }
}

#[test]
fn lowercase_or_and_not_are_plain_words() {
    let parsed = parse("cats or dogs").unwrap();
    assert!(!parsed.has_operators);
    let parsed = parse("shall not pass").unwrap();
    assert!(!parsed.has_operators);
}

#[test]
fn date_to_ms_epoch_and_known_dates() {
    assert_eq!(date_to_ms(1970, 1, 1), 0);
    assert_eq!(date_to_ms(1970, 1, 2), MS_PER_DAY);
    assert_eq!(date_to_ms(2000, 1, 1), 10957 * MS_PER_DAY);
}

#[test]
fn parse_mtime_day_bounds() {
    let b = parse_date_bound(">2026-01-01").unwrap();
    assert_eq!(b.cmp, Cmp::Gt);
    assert_eq!(b.start_ms, date_to_ms(2026, 1, 1));
    assert_eq!(b.next_ms, date_to_ms(2026, 1, 2));

    let b = parse_date_bound(">=2026-07").unwrap();
    assert_eq!(b.cmp, Cmp::Ge);
    assert_eq!(b.start_ms, date_to_ms(2026, 7, 1));
    assert_eq!(b.next_ms, date_to_ms(2026, 8, 1));

    let b = parse_date_bound("<2026-12").unwrap();
    assert_eq!(b.next_ms, date_to_ms(2027, 1, 1));
}

#[test]
fn parse_mtime_rejects_garbage() {
    assert!(parse_date_bound(">abc").is_err());
    assert!(parse_date_bound(">2026-13-01").is_err(), "月份越界应报错");
    assert!(parse_date_bound(">2026-02-30").is_err(), "2 月没有 30 号");
    assert!(parse_date_bound("2026-01-01").is_err(), "缺比较符应报错");
}

#[test]
fn parse_size_units_case_insensitive() {
    assert_eq!(parse_size_bound(">10mb").unwrap().bytes, 10 * 1024 * 1024);
    assert_eq!(parse_size_bound("<500KB").unwrap().bytes, 500 * 1024);
    assert_eq!(parse_size_bound(">=1Gb").unwrap().bytes, 1024 * 1024 * 1024);
    assert_eq!(parse_size_bound(">1024").unwrap().bytes, 1024);
    assert_eq!(
        parse_size_bound(">1.5mb").unwrap().bytes,
        (1.5 * 1024.0 * 1024.0) as u64
    );
}

#[test]
fn parse_size_rejects_garbage() {
    assert!(parse_size_bound(">abc").is_err());
    assert!(parse_size_bound(">10tb").is_err(), "不支持的单位应报错");
    assert!(parse_size_bound("10mb").is_err(), "缺比较符应报错");
}

#[test]
fn or_splits_into_groups_and_space_is_and_within_group() {
    let parsed = parse("限流 中间件 OR 熔断").unwrap();
    assert!(parsed.has_operators);
    assert_eq!(parsed.groups.len(), 2, "OR 应切成两组");
    assert_eq!(parsed.groups[0].content, vec!["限流", "中间件"]);
    assert_eq!(parsed.groups[1].content, vec!["熔断"]);
}

#[test]
fn exclusion_via_dash_and_not() {
    let parsed = parse("限流 -废弃").unwrap();
    assert_eq!(parsed.groups[0].content, vec!["限流"]);
    assert_eq!(parsed.groups[0].excluded, vec!["废弃"]);

    let parsed = parse("限流 NOT 废弃").unwrap();
    assert_eq!(parsed.groups[0].content, vec!["限流"]);
    assert_eq!(parsed.groups[0].excluded, vec!["废弃"]);
}

#[test]
fn path_operand_quoted_vs_bare() {
    let parsed = parse("path:报告").unwrap();
    assert_eq!(
        parsed.groups[0].paths,
        vec![PathTerm {
            operand: "报告".to_string(),
            phrase: false
        }]
    );

    let parsed = parse("path:\"my docs\"").unwrap();
    assert_eq!(
        parsed.groups[0].paths,
        vec![PathTerm {
            operand: "my docs".to_string(),
            phrase: true
        }]
    );
}

#[test]
fn combined_operators_in_one_group() {
    let parsed = parse("限流 path:src mtime:>2026-01-01 size:<1mb -草稿").unwrap();
    let g = &parsed.groups[0];
    assert_eq!(g.content, vec!["限流"]);
    assert_eq!(g.excluded, vec!["草稿"]);
    assert_eq!(g.paths.len(), 1);
    assert_eq!(g.mtimes.len(), 1);
    assert_eq!(g.sizes.len(), 1);
}

#[test]
fn ext_prefix_stays_content_for_backward_compat() {
    let parsed = parse("ext:md -草稿").unwrap();
    assert!(parsed.has_operators);
    assert_eq!(parsed.groups[0].content, vec!["ext:md"]);
    assert_eq!(parsed.groups[0].excluded, vec!["草稿"]);
}

#[test]
fn empty_operand_errors() {
    assert!(parse("path:").is_err(), "path: 空操作数应报错");
    assert!(parse("path:\"\"").is_err(), "path 引号里为空应报错");
}

#[test]
fn only_connectives_errors() {
    assert!(parse("NOT").is_err());
}

#[test]
fn month_span_ends_where_its_last_day_ends() {
    let leap_feb = parse_date_bound("<=2024-02").unwrap();
    let leap_last = parse_date_bound("<=2024-02-29").unwrap();
    assert_eq!(leap_feb.next_ms, leap_last.next_ms);
    assert_eq!(leap_feb.next_ms, date_to_ms(2024, 3, 1));
    assert_eq!(leap_feb.next_ms - leap_feb.start_ms, 29 * MS_PER_DAY);

    let feb = parse_date_bound("<=2023-02").unwrap();
    assert_eq!(feb.next_ms - feb.start_ms, 28 * MS_PER_DAY);
    assert_eq!(feb.next_ms, parse_date_bound("<=2023-02-28").unwrap().next_ms);

    let dec = parse_date_bound(">=1999-12").unwrap();
    let eve = parse_date_bound(">=1999-12-31").unwrap();
    assert_eq!(dec.next_ms, eve.next_ms);
    assert_eq!(eve.next_ms, date_to_ms(2000, 1, 1));

    let century = parse_date_bound("<2100-02").unwrap();
    assert_eq!(century.next_ms - century.start_ms, 28 * MS_PER_DAY);
    let quad = parse_date_bound("<2000-02").unwrap();
    assert_eq!(quad.next_ms - quad.start_ms, 29 * MS_PER_DAY);
}
