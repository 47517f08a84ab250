use dowse::frn_table::{join_path, FrnEntry, FrnTable};

fn entry(parent: u64, name: &str, is_dir: bool) -> FrnEntry {
    FrnEntry { parent_frn: parent, name: name.to_string(), is_dir }
}

#[test]
fn reconstructs_nested_path_from_root() {
    let mut t = FrnTable::new();
    t.register_root(1, "C:\\docs".to_string());
    t.upsert(2, entry(1, "sub", true));
    t.upsert(3, entry(2, "a.md", false));
    assert_eq!(t.reconstruct_path(3).as_deref(), Some("C:\\docs\\sub\\a.md"));
    assert_eq!(t.reconstruct_path(1).as_deref(), Some("C:\\docs"));
    assert_eq!(t.len(), 2);
}

#[test]
fn unknown_or_detached_frn_has_no_path() {
    let mut t = FrnTable::new();
    t.register_root(1, "C:\\docs".to_string());
    t.upsert(5, entry(99, "lost.md", false));
    assert_eq!(t.reconstruct_path(5), None);
    assert_eq!(t.reconstruct_path(77), None);
}

#[test]
fn parent_cycle_gives_no_path_instead_of_looping() {
    let mut t = FrnTable::new();
    t.register_root(1, "C:\\docs".to_string());
    t.upsert(2, entry(3, "x", true));
    t.upsert(3, entry(2, "y", true));
    assert_eq!(t.reconstruct_path(2), None);
}

#[test]
fn remove_forgets_entry() {
    let mut t = FrnTable::new();
    t.register_root(1, "C:\\docs".to_string());
    t.upsert(2, entry(1, "a.md", false));
    assert_eq!(t.remove(2), Some(entry(1, "a.md", false)));
    assert!(t.get(2).is_none());
    assert_eq!(t.remove(2), None);
}

#[test]
fn join_path_inserts_one_separator() {
    assert_eq!(join_path("C:\\docs", "a.md"), "C:\\docs\\a.md");
    assert_eq!(join_path("C:\\docs\\", "a.md"), "C:\\docs\\a.md");
}
