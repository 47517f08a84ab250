use dowse::meta::{
    append_root, assert_no_root_nesting, assert_no_root_nesting_allow_exact, ensure_schema_version,
    is_root_registered, register_root_with_cursors, registered_roots, remove_root_from_meta,
    save_usn_cursor, IndexMeta, MetaError, RootError, UsnCursor, SCHEMA_VERSION,
};
use dowse::paths::{display_path, path_is_under, paths_equal};
use dowse::strmap::StrMap;

#[test]
fn nesting_rejects_child_and_parent_both_directions() {
    let existing = vec![r"C:\docs\project".to_string()];

    let child = r"C:\docs\project\sub";
    assert!(
        assert_no_root_nesting(&existing, child).is_err(),
        "候选是已有根的子目录应该被拒绝"
    );

    let parent = r"C:\docs";
    assert!(
        assert_no_root_nesting(&existing, parent).is_err(),
        "候选是已有根的父目录应该被拒绝"
    );

    let duplicate = r"C:\docs\project";
    assert!(
        assert_no_root_nesting(&existing, duplicate).is_err(),
        "跟已有根完全相同应该被拒绝"
    );

    let sibling = r"C:\docs\other";
    assert!(
        assert_no_root_nesting(&existing, sibling).is_ok(),
        "兄弟目录不该被误判为嵌套"
    );
}

#[test]
fn nesting_check_normalizes_extended_length_prefix() {
    let existing = vec![r"\\?\C:\docs\project".to_string()];
    let child = r"C:\docs\project\sub";
    assert!(assert_no_root_nesting(&existing, child).is_err());
}

#[test]
fn allow_exact_nesting_permits_duplicate_but_blocks_parent_child() {
    let existing = vec![r"C:\docs\project".to_string()];

    let duplicate = r"C:\docs\project";
    assert!(
        assert_no_root_nesting_allow_exact(&existing, duplicate).is_ok(),
        "跟已有根完全相同应该放行（幂等重扫）"
    );
    assert!(is_root_registered(&existing, duplicate));

    let child = r"C:\docs\project\sub";
    assert!(
        assert_no_root_nesting_allow_exact(&existing, child).is_err(),
        "子目录仍应被拒绝"
    );
    let parent = r"C:\docs";
    assert!(
        assert_no_root_nesting_allow_exact(&existing, parent).is_err(),
        "父目录仍应被拒绝"
    );

    let sibling = r"C:\docs\other";
    assert!(assert_no_root_nesting_allow_exact(&existing, sibling).is_ok());
    assert!(!is_root_registered(&existing, sibling));
}

#[test]
fn nesting_reports_which_root_and_kind() {
    let existing = vec![r"D:\a".to_string(), r"C:\docs\project".to_string()];
    assert_eq!(
        assert_no_root_nesting(&existing, r"C:\docs\project\sub"),
        Err(RootError::InsideRoot {
            candidate: r"C:\docs\project\sub".to_string(),
            root: r"C:\docs\project".to_string(),
        })
    );
    assert_eq!(
        assert_no_root_nesting(&existing, r"C:\docs"),
        Err(RootError::ContainsRoot {
            candidate: r"C:\docs".to_string(),
            root: r"C:\docs\project".to_string(),
        })
    );
    assert_eq!(
        assert_no_root_nesting(&existing, r"D:/a/"),
        Err(RootError::Duplicate { candidate: r"D:/a/".to_string() })
    );
}

#[test]
fn sibling_with_common_name_prefix_is_not_nested() {
    let existing = vec![r"C:\docs\pro".to_string()];
    assert!(assert_no_root_nesting(&existing, r"C:\docs\project").is_ok());
}

#[test]
fn display_path_strips_extended_prefixes() {
    assert_eq!(display_path(r"\\?\C:\docs"), r"C:\docs");
    assert_eq!(display_path(r"\\?\UNC\server\share\x"), r"\\server\share\x");
    assert_eq!(display_path(r"C:\plain"), r"C:\plain");
    assert_eq!(display_path(""), "");
}

#[test]
fn path_components_compare_ignoring_separator_style() {
    assert!(paths_equal(r"C:\a\b", "C:/a/b/"));
    assert!(!paths_equal(r"C:\a\b", r"C:\a\bc"));
    assert!(path_is_under(r"C:\a\b\c.txt", r"C:\a"));
    assert!(!path_is_under(r"C:\ab", r"C:\a"));
}

fn meta_with(roots: &[&str]) -> IndexMeta {
    IndexMeta {
        schema_version: SCHEMA_VERSION,
        roots: roots.iter().map(|r| r.to_string()).collect(),
        usn_cursors: StrMap::new(),
    }
}

#[test]
fn append_and_remove_root_keep_other_roots() {
    let mut meta = meta_with(&[r"C:\first"]);
    append_root(&mut meta, r"D:\second".to_string()).unwrap();
    assert_eq!(meta.roots, vec![r"C:\first".to_string(), r"D:\second".to_string()]);
    remove_root_from_meta(&mut meta, r"C:\first").unwrap();
    assert_eq!(meta.roots, vec![r"D:\second".to_string()]);
}

#[test]
fn append_root_rejects_nested_and_leaves_roots_alone() {
    let mut meta = meta_with(&[r"C:\first"]);
    let err = append_root(&mut meta, r"C:\first\sub".to_string());
    assert!(matches!(err, Err(RootError::InsideRoot { .. })));
    assert_eq!(meta.roots, vec![r"C:\first".to_string()]);
}

#[test]
fn remove_unregistered_root_errors() {
    let mut meta = meta_with(&[r"C:\first"]);
    assert_eq!(
        remove_root_from_meta(&mut meta, r"C:\other"),
        Err(RootError::NotRegistered { root: r"C:\other".to_string() })
    );
    assert_eq!(meta.roots, vec![r"C:\first".to_string()]);
}

#[test]
fn schema_version_mismatch_is_refused() {
    let mut meta = meta_with(&[r"C:\first"]);
    meta.schema_version = SCHEMA_VERSION - 1;
    assert!(matches!(
        ensure_schema_version(meta),
        Err(MetaError::SchemaMismatch(v)) if v == SCHEMA_VERSION - 1
    ));
    let meta = meta_with(&[r"C:\first"]);
    assert_eq!(registered_roots(meta).unwrap(), vec![r"C:\first".to_string()]);
}

#[test]
fn cursors_are_added_only_for_new_volumes() {
    let mut meta = meta_with(&[r"C:\first"]);
    save_usn_cursor(&mut meta, "C:".to_string(), UsnCursor { journal_id: 1, next_usn: 10 });
    register_root_with_cursors(
        &mut meta,
        r"D:\second".to_string(),
        vec![
            ("C:".to_string(), UsnCursor { journal_id: 1, next_usn: 99 }),
            ("D:".to_string(), UsnCursor { journal_id: 2, next_usn: 5 }),
        ],
    );
    assert_eq!(meta.roots, vec![r"C:\first".to_string(), r"D:\second".to_string()]);
    assert_eq!(meta.usn_cursors.get("C:"), Some(&UsnCursor { journal_id: 1, next_usn: 10 }));
    assert_eq!(meta.usn_cursors.get("D:"), Some(&UsnCursor { journal_id: 2, next_usn: 5 }));
    register_root_with_cursors(&mut meta, r"\\?\D:\second".to_string(), Vec::new());
    assert_eq!(meta.roots.len(), 2);
}

#[test]
fn a_volume_named_twice_takes_its_first_cursor() {
    let mut meta = meta_with(&[r"C:\first"]);
    register_root_with_cursors(
        &mut meta,
        r"E:\third".to_string(),
        vec![
            ("E:".to_string(), UsnCursor { journal_id: 7, next_usn: 70 }),
            ("E:".to_string(), UsnCursor { journal_id: 8, next_usn: 80 }),
        ],
    );
    assert_eq!(meta.usn_cursors.get("E:"), Some(&UsnCursor { journal_id: 7, next_usn: 70 }));
    assert_eq!(meta.usn_cursors.len(), 1);
}
