use dowse::frn_table::FrnTable;
use dowse::usn::{
    catchup_continues, catchup_next, outcome_to_events, parse_journal_buffer, translate_batch,
    CatchupStats, WatchEvent,
};
use dowse::usn_translate::{
    UsnOutcome, UsnTranslator, USN_REASON_FILE_CREATE, USN_REASON_FILE_DELETE,
    USN_REASON_RENAME_NEW_NAME, USN_REASON_RENAME_OLD_NAME,
};

fn record(frn: u64, parent: u64, usn: i64, reason: u32, attrs: u32, name: &str) -> Vec<u8> {
    let units: Vec<u16> = name.encode_utf16().collect();
    let name_len = units.len() * 2;
    let len = 60 + name_len;
    let mut b = Vec::new();
    b.extend_from_slice(&(len as u32).to_le_bytes());
    b.extend_from_slice(&2u16.to_le_bytes());
    b.extend_from_slice(&0u16.to_le_bytes());
    b.extend_from_slice(&frn.to_le_bytes());
    b.extend_from_slice(&parent.to_le_bytes());
    b.extend_from_slice(&usn.to_le_bytes());
    b.extend_from_slice(&0i64.to_le_bytes());
    b.extend_from_slice(&reason.to_le_bytes());
    b.extend_from_slice(&0u32.to_le_bytes());
    b.extend_from_slice(&0u32.to_le_bytes());
    b.extend_from_slice(&attrs.to_le_bytes());
    b.extend_from_slice(&(name_len as u16).to_le_bytes());
    b.extend_from_slice(&60u16.to_le_bytes());
    for u in units {
        b.extend_from_slice(&u.to_le_bytes());
    }
    b
}

fn journal(next_usn: i64, records: &[Vec<u8>]) -> Vec<u8> {
    let mut b = next_usn.to_le_bytes().to_vec();
    for r in records {
        b.extend_from_slice(r);
    }
    b
}

#[test]
fn short_buffer_means_nothing_read() {
    let buf = vec![0u8; 4];
    let batch = parse_journal_buffer(&buf, 4, 77);
    assert!(batch.records.is_empty());
    assert_eq!(batch.next_usn, 77);
}

#[test]
fn journal_buffer_splits_records_and_reads_next_usn() {
    let buf = journal(
        500,
        &[record(10, 1, 100, USN_REASON_FILE_CREATE, 0, "a.md"), record(11, 1, 101, USN_REASON_FILE_CREATE, 0, "b.md")],
    );
    let batch = parse_journal_buffer(&buf, buf.len(), 0);
    assert_eq!(batch.next_usn, 500);
    assert_eq!(batch.records.len(), 2);
    assert_eq!(batch.records[0].name, "a.md");
    assert_eq!(batch.records[1].frn, 11);
}

#[test]
fn journal_buffer_stops_at_record_past_filled_part() {
    let buf = journal(9, &[record(10, 1, 100, USN_REASON_FILE_CREATE, 0, "a.md"), record(11, 1, 101, 0, 0, "b.md")]);
    let batch = parse_journal_buffer(&buf, buf.len() - 2, 0);
    assert_eq!(batch.records.len(), 1);
}

#[test]
fn directory_rename_becomes_remove_dir_and_upsert_dir() {
    let evs = outcome_to_events(UsnOutcome::Rename {
        from: "C:\\a".to_string(),
        to: "C:\\b".to_string(),
        to_is_dir: true,
    });
    assert_eq!(
        evs,
        vec![WatchEvent::RemoveDir("C:\\a".to_string()), WatchEvent::UpsertDir("C:\\b".to_string())]
    );
    assert!(outcome_to_events(UsnOutcome::NoEvent).is_empty());
    assert_eq!(
        outcome_to_events(UsnOutcome::Remove { path: "C:\\x".to_string(), is_dir: false }),
        vec![WatchEvent::Remove("C:\\x".to_string())]
    );
}

#[test]
fn translate_batch_pairs_renames_across_the_batch() {
    let mut table = FrnTable::new();
    table.register_root(1, "C:\\w".to_string());
    let mut tr = UsnTranslator::new(table);
    let buf = journal(
        0,
        &[
            record(10, 1, 1, USN_REASON_FILE_CREATE, 0, "a.md"),
            record(10, 1, 2, USN_REASON_RENAME_OLD_NAME, 0, "a.md"),
            record(10, 1, 3, USN_REASON_RENAME_NEW_NAME, 0, "b.md"),
            record(10, 1, 4, USN_REASON_FILE_DELETE, 0, "b.md"),
        ],
    );
    let batch = parse_journal_buffer(&buf, buf.len(), 0);
    let mut events = Vec::new();
    let n = translate_batch(&mut tr, batch.records, &mut events);
    assert_eq!(n, 4);
    assert_eq!(
        events,
        vec![
            WatchEvent::Upsert("C:\\w\\a.md".to_string()),
            WatchEvent::Rename { from: "C:\\w\\a.md".to_string(), to: "C:\\w\\b.md".to_string() },
            WatchEvent::Remove("C:\\w\\b.md".to_string()),
        ]
    );
}

#[test]
fn catchup_stops_when_no_progress() {
    assert!(catchup_continues(5, 10));
    assert!(!catchup_continues(10, 10));
    assert_eq!(catchup_next(5, true, 5), None);
    assert_eq!(catchup_next(5, true, 8), Some(8));
    assert_eq!(catchup_next(5, false, 5), Some(5));
    assert_eq!(CatchupStats::default().records_read, 0);
}
