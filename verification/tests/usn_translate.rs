use dowse::frn_table::FrnTable;
use dowse::usn_translate::{
    parse_usn_record_v2_bytes, UsnOutcome, UsnReason, UsnRecord, UsnTranslator,
    FILE_ATTRIBUTE_DIRECTORY_BIT, USN_REASON_FILE_CREATE, USN_REASON_RENAME_NEW_NAME,
    USN_REASON_RENAME_OLD_NAME,
};


fn build_usn_record_v2_bytes(
    frn: u64,
    parent_frn: u64,
    usn: i64,
    reason_bits: u32,
    file_attributes: u32,
    name: &str,
) -> Vec<u8> {
    let name_u16: Vec<u16> = name.encode_utf16().collect();
    let name_bytes_len = name_u16.len() * 2;
    let name_offset = 60u16;
    let record_length = name_offset as usize + name_bytes_len;

    let mut buf = Vec::with_capacity(record_length);
    buf.extend_from_slice(&(record_length as u32).to_le_bytes());
    buf.extend_from_slice(&2u16.to_le_bytes());
    buf.extend_from_slice(&0u16.to_le_bytes());
    buf.extend_from_slice(&frn.to_le_bytes());
    buf.extend_from_slice(&parent_frn.to_le_bytes());
    buf.extend_from_slice(&usn.to_le_bytes());
    buf.extend_from_slice(&0i64.to_le_bytes());
    buf.extend_from_slice(&reason_bits.to_le_bytes());
    buf.extend_from_slice(&0u32.to_le_bytes());
    buf.extend_from_slice(&0u32.to_le_bytes());
    buf.extend_from_slice(&file_attributes.to_le_bytes());
    buf.extend_from_slice(&(name_bytes_len as u16).to_le_bytes());
    buf.extend_from_slice(&name_offset.to_le_bytes());
    for unit in &name_u16 {
        buf.extend_from_slice(&unit.to_le_bytes());
    }
    assert_eq!(buf.len(), record_length);
    buf
}

fn root_path() -> String {
    "C:\\watch".to_string()
}

fn joined(name: &str) -> String {
    format!("{}\\{}", root_path(), name)
}

fn translator_with_root() -> (UsnTranslator, u64) {
    let root_frn = 1;
    let mut table = FrnTable::new();
    table.register_root(root_frn, root_path());
    (UsnTranslator::new(table), root_frn)
}

fn reason(f: impl FnOnce(&mut UsnReason)) -> UsnReason {
    let mut r = UsnReason::default();
    f(&mut r);
    r
}

#[test]
fn parses_plain_file_record() {
    let bytes = build_usn_record_v2_bytes(42, 1, 999, USN_REASON_FILE_CREATE, 0, "a.md");
    let record = parse_usn_record_v2_bytes(&bytes).expect("应该解析成功");
    assert_eq!(record.frn, 42);
    assert_eq!(record.parent_frn, 1);
    assert_eq!(record.usn, 999);
    assert_eq!(record.name, "a.md");
    assert!(!record.is_dir);
    assert!(record.reason.file_create);
    assert!(!record.reason.file_delete);
}

#[test]
fn parses_directory_attribute_flag() {
    let bytes = build_usn_record_v2_bytes(
        7,
        1,
        1,
        USN_REASON_FILE_CREATE,
        FILE_ATTRIBUTE_DIRECTORY_BIT,
        "sub",
    );
    let record = parse_usn_record_v2_bytes(&bytes).expect("应该解析成功");
    assert!(record.is_dir);
}

#[test]
fn parses_rename_reason_bits() {
    let bytes = build_usn_record_v2_bytes(7, 1, 5, USN_REASON_RENAME_OLD_NAME, 0, "old.md");
    let record = parse_usn_record_v2_bytes(&bytes).expect("应该解析成功");
    assert!(record.reason.rename_old_name);
    assert!(!record.reason.rename_new_name);

    let bytes2 = build_usn_record_v2_bytes(7, 1, 6, USN_REASON_RENAME_NEW_NAME, 0, "new.md");
    let record2 = parse_usn_record_v2_bytes(&bytes2).expect("应该解析成功");
    assert!(record2.reason.rename_new_name);
}

#[test]
fn parses_cjk_filename_correctly() {
    let bytes =
        build_usn_record_v2_bytes(9, 1, 1, USN_REASON_FILE_CREATE, 0, "分布式限流器.md");
    let record = parse_usn_record_v2_bytes(&bytes).expect("应该解析成功");
    assert_eq!(record.name, "分布式限流器.md");
}

#[test]
fn truncated_record_shorter_than_fixed_header_fails_gracefully() {
    let bytes = vec![0u8; 30];
    assert_eq!(parse_usn_record_v2_bytes(&bytes), None);
}

#[test]
fn name_offset_beyond_buffer_fails_gracefully_instead_of_panicking() {
    let mut bytes = build_usn_record_v2_bytes(1, 1, 1, USN_REASON_FILE_CREATE, 0, "a.md");
    bytes[58..60].copy_from_slice(&5000u16.to_le_bytes());
    assert_eq!(parse_usn_record_v2_bytes(&bytes), None);
}

#[test]
fn odd_name_length_drops_trailing_partial_code_unit_without_panicking() {
    let mut bytes = build_usn_record_v2_bytes(5, 1, 1, USN_REASON_FILE_CREATE, 0, "XY");
    bytes[56..58].copy_from_slice(&3u16.to_le_bytes());
    let record = parse_usn_record_v2_bytes(&bytes).expect("奇数长度也应解析成功而不 panic");
    assert_eq!(record.name, "X", "尾部不满 2 字节的部分应被丢弃");
}

#[test]
fn zero_name_length_yields_empty_name() {
    let bytes = build_usn_record_v2_bytes(6, 1, 1, USN_REASON_FILE_CREATE, 0, "");
    let record = parse_usn_record_v2_bytes(&bytes).expect("空文件名也应解析成功");
    assert_eq!(record.name, "");
    assert_eq!(record.frn, 6);
}




#[test]
fn create_record_emits_upsert_with_is_dir_flag() {
    let (mut t, root) = translator_with_root();
    let outcome = t.translate(UsnRecord {
        usn: 10,
        frn: 2,
        parent_frn: root,
        name: "a.md".to_string(),
        is_dir: false,
        reason: reason(|r| r.file_create = true),
    });
    assert_eq!(
        outcome,
        UsnOutcome::Upsert {
            path: joined("a.md"),
            is_dir: false,
        }
    );
}

#[test]
fn plain_content_change_without_reason_bits_still_upserts() {
    let (mut t, root) = translator_with_root();
    let outcome = t.translate(UsnRecord {
        usn: 5,
        frn: 2,
        parent_frn: root,
        name: "a.md".to_string(),
        is_dir: false,
        reason: UsnReason::default(),
    });
    assert_eq!(
        outcome,
        UsnOutcome::Upsert {
            path: joined("a.md"),
            is_dir: false,
        }
    );
}

#[test]
fn delete_record_emits_remove_and_forgets_frn() {
    let (mut t, root) = translator_with_root();
    t.translate(UsnRecord {
        usn: 1,
        frn: 2,
        parent_frn: root,
        name: "a.md".to_string(),
        is_dir: false,
        reason: reason(|r| r.file_create = true),
    });
    let outcome = t.translate(UsnRecord {
        usn: 2,
        frn: 2,
        parent_frn: root,
        name: "a.md".to_string(),
        is_dir: false,
        reason: reason(|r| r.file_delete = true),
    });
    assert_eq!(
        outcome,
        UsnOutcome::Remove {
            path: joined("a.md"),
            is_dir: false,
        }
    );
    assert!(t.table().get(2).is_none());
}

#[test]
fn directory_delete_flags_is_dir_true() {
    let (mut t, root) = translator_with_root();
    t.translate(UsnRecord {
        usn: 1,
        frn: 2,
        parent_frn: root,
        name: "sub".to_string(),
        is_dir: true,
        reason: reason(|r| r.file_create = true),
    });
    let outcome = t.translate(UsnRecord {
        usn: 2,
        frn: 2,
        parent_frn: root,
        name: "sub".to_string(),
        is_dir: true,
        reason: reason(|r| r.file_delete = true),
    });
    assert_eq!(
        outcome,
        UsnOutcome::Remove {
            path: joined("sub"),
            is_dir: true,
        }
    );
}

#[test]
fn rename_old_name_alone_produces_no_event() {
    let (mut t, root) = translator_with_root();
    t.translate(UsnRecord {
        usn: 1,
        frn: 2,
        parent_frn: root,
        name: "old.md".to_string(),
        is_dir: false,
        reason: reason(|r| r.file_create = true),
    });
    let outcome = t.translate(UsnRecord {
        usn: 2,
        frn: 2,
        parent_frn: root,
        name: "old.md".to_string(),
        is_dir: false,
        reason: reason(|r| r.rename_old_name = true),
    });
    assert_eq!(outcome, UsnOutcome::NoEvent);
}

#[test]
fn old_name_then_new_name_pairs_into_rename_event() {
    let (mut t, root) = translator_with_root();
    t.translate(UsnRecord {
        usn: 1,
        frn: 2,
        parent_frn: root,
        name: "old.md".to_string(),
        is_dir: false,
        reason: reason(|r| r.file_create = true),
    });
    t.translate(UsnRecord {
        usn: 2,
        frn: 2,
        parent_frn: root,
        name: "old.md".to_string(),
        is_dir: false,
        reason: reason(|r| r.rename_old_name = true),
    });
    let outcome = t.translate(UsnRecord {
        usn: 3,
        frn: 2,
        parent_frn: root,
        name: "new.md".to_string(),
        is_dir: false,
        reason: reason(|r| r.rename_new_name = true),
    });
    assert_eq!(
        outcome,
        UsnOutcome::Rename {
            from: joined("old.md"),
            to: joined("new.md"),
            to_is_dir: false,
        }
    );
    assert_eq!(
        t.table().reconstruct_path(2),
        Some(joined("new.md"))
    );
}

#[test]
fn rename_immediately_followed_by_delete_before_pairing_completes_is_not_swallowed() {
    let (mut t, root) = translator_with_root();
    t.translate(UsnRecord {
        usn: 1,
        frn: 2,
        parent_frn: root,
        name: "old.md".to_string(),
        is_dir: false,
        reason: reason(|r| r.file_create = true),
    });
    let rename_outcome = t.translate(UsnRecord {
        usn: 2,
        frn: 2,
        parent_frn: root,
        name: "old.md".to_string(),
        is_dir: false,
        reason: reason(|r| r.rename_old_name = true),
    });
    assert_eq!(rename_outcome, UsnOutcome::NoEvent, "OLD_NAME 本身不产出事件");

    let delete_outcome = t.translate(UsnRecord {
        usn: 3,
        frn: 2,
        parent_frn: root,
        name: "old.md".to_string(),
        is_dir: false,
        reason: reason(|r| r.file_delete = true),
    });
    assert_eq!(
        delete_outcome,
        UsnOutcome::Remove {
            path: joined("old.md"),
            is_dir: false,
        },
        "配对未完成时被删除，必须退回用旧路径发一次 Remove，不能吞事件"
    );
    assert!(t.table().get(2).is_none(), "FRN 应该被彻底清出表");

    let late_new_name = t.translate(UsnRecord {
        usn: 4,
        frn: 2,
        parent_frn: root,
        name: "new.md".to_string(),
        is_dir: false,
        reason: reason(|r| r.rename_new_name = true),
    });
    assert_eq!(
        late_new_name,
        UsnOutcome::Upsert {
            path: joined("new.md"),
            is_dir: false,
        }
    );
}

#[test]
fn rename_completes_then_delete_targets_the_new_path_not_the_old_one() {
    let (mut t, root) = translator_with_root();
    t.translate(UsnRecord {
        usn: 1,
        frn: 2,
        parent_frn: root,
        name: "old.md".to_string(),
        is_dir: false,
        reason: reason(|r| r.file_create = true),
    });
    t.translate(UsnRecord {
        usn: 2,
        frn: 2,
        parent_frn: root,
        name: "old.md".to_string(),
        is_dir: false,
        reason: reason(|r| r.rename_old_name = true),
    });
    let rename = t.translate(UsnRecord {
        usn: 3,
        frn: 2,
        parent_frn: root,
        name: "new.md".to_string(),
        is_dir: false,
        reason: reason(|r| r.rename_new_name = true),
    });
    assert_eq!(
        rename,
        UsnOutcome::Rename {
            from: joined("old.md"),
            to: joined("new.md"),
            to_is_dir: false,
        }
    );

    let delete = t.translate(UsnRecord {
        usn: 4,
        frn: 2,
        parent_frn: root,
        name: "new.md".to_string(),
        is_dir: false,
        reason: reason(|r| r.file_delete = true),
    });
    assert_eq!(
        delete,
        UsnOutcome::Remove {
            path: joined("new.md"),
            is_dir: false,
        },
        "配对已完成，删除必须对准新路径，不能残留指向旧路径的孤儿文档"
    );
}

#[test]
fn interleaved_renames_of_two_different_frns_pair_independently() {
    let (mut t, root) = translator_with_root();
    t.translate(UsnRecord {
        usn: 1,
        frn: 10,
        parent_frn: root,
        name: "a-old.md".to_string(),
        is_dir: false,
        reason: reason(|r| r.file_create = true),
    });
    t.translate(UsnRecord {
        usn: 2,
        frn: 20,
        parent_frn: root,
        name: "b-old.md".to_string(),
        is_dir: false,
        reason: reason(|r| r.file_create = true),
    });

    t.translate(UsnRecord {
        usn: 3,
        frn: 10,
        parent_frn: root,
        name: "a-old.md".to_string(),
        is_dir: false,
        reason: reason(|r| r.rename_old_name = true),
    });
    t.translate(UsnRecord {
        usn: 4,
        frn: 20,
        parent_frn: root,
        name: "b-old.md".to_string(),
        is_dir: false,
        reason: reason(|r| r.rename_old_name = true),
    });
    let a_rename = t.translate(UsnRecord {
        usn: 5,
        frn: 10,
        parent_frn: root,
        name: "a-new.md".to_string(),
        is_dir: false,
        reason: reason(|r| r.rename_new_name = true),
    });
    let b_rename = t.translate(UsnRecord {
        usn: 6,
        frn: 20,
        parent_frn: root,
        name: "b-new.md".to_string(),
        is_dir: false,
        reason: reason(|r| r.rename_new_name = true),
    });

    assert_eq!(
        a_rename,
        UsnOutcome::Rename {
            from: joined("a-old.md"),
            to: joined("a-new.md"),
            to_is_dir: false,
        }
    );
    assert_eq!(
        b_rename,
        UsnOutcome::Rename {
            from: joined("b-old.md"),
            to: joined("b-new.md"),
            to_is_dir: false,
        }
    );
}

#[test]
fn new_name_without_prior_old_name_is_best_effort_upsert() {
    let (mut t, root) = translator_with_root();
    let outcome = t.translate(UsnRecord {
        usn: 1,
        frn: 2,
        parent_frn: root,
        name: "new.md".to_string(),
        is_dir: false,
        reason: reason(|r| r.rename_new_name = true),
    });
    assert_eq!(
        outcome,
        UsnOutcome::Upsert {
            path: joined("new.md"),
            is_dir: false,
        }
    );
}

#[test]
fn rename_moving_out_of_scope_resolves_to_remove_of_old_path() {
    let (mut t, root) = translator_with_root();
    t.translate(UsnRecord {
        usn: 1,
        frn: 2,
        parent_frn: root,
        name: "old.md".to_string(),
        is_dir: false,
        reason: reason(|r| r.file_create = true),
    });
    t.translate(UsnRecord {
        usn: 2,
        frn: 2,
        parent_frn: root,
        name: "old.md".to_string(),
        is_dir: false,
        reason: reason(|r| r.rename_old_name = true),
    });
    let outcome = t.translate(UsnRecord {
        usn: 3,
        frn: 2,
        parent_frn: 9999,
        name: "old.md".to_string(),
        is_dir: false,
        reason: reason(|r| r.rename_new_name = true),
    });
    assert_eq!(
        outcome,
        UsnOutcome::Remove {
            path: joined("old.md"),
            is_dir: false,
        }
    );
}

#[test]
fn frn_reused_after_delete_does_not_leak_stale_pending_rename() {
    let (mut t, root) = translator_with_root();
    t.translate(UsnRecord {
        usn: 1,
        frn: 2,
        parent_frn: root,
        name: "old.md".to_string(),
        is_dir: false,
        reason: reason(|r| r.file_create = true),
    });
    t.translate(UsnRecord {
        usn: 2,
        frn: 2,
        parent_frn: root,
        name: "old.md".to_string(),
        is_dir: false,
        reason: reason(|r| r.rename_old_name = true),
    });
    let outcome = t.translate(UsnRecord {
        usn: 3,
        frn: 2,
        parent_frn: root,
        name: "brand-new.md".to_string(),
        is_dir: false,
        reason: reason(|r| r.file_create = true),
    });
    assert_eq!(
        outcome,
        UsnOutcome::Upsert {
            path: joined("brand-new.md"),
            is_dir: false,
        }
    );
    let delete = t.translate(UsnRecord {
        usn: 4,
        frn: 2,
        parent_frn: root,
        name: "brand-new.md".to_string(),
        is_dir: false,
        reason: reason(|r| r.file_delete = true),
    });
    assert_eq!(
        delete,
        UsnOutcome::Remove {
            path: joined("brand-new.md"),
            is_dir: false,
        }
    );
}

#[test]
fn rename_to_identical_path_is_a_no_op() {
    let (mut t, root) = translator_with_root();
    t.translate(UsnRecord {
        usn: 1,
        frn: 2,
        parent_frn: root,
        name: "same.md".to_string(),
        is_dir: false,
        reason: reason(|r| r.file_create = true),
    });
    t.translate(UsnRecord {
        usn: 2,
        frn: 2,
        parent_frn: root,
        name: "same.md".to_string(),
        is_dir: false,
        reason: reason(|r| r.rename_old_name = true),
    });
    let outcome = t.translate(UsnRecord {
        usn: 3,
        frn: 2,
        parent_frn: root,
        name: "same.md".to_string(),
        is_dir: false,
        reason: reason(|r| r.rename_new_name = true),
    });
    assert_eq!(outcome, UsnOutcome::NoEvent);
}
