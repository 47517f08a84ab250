use dowse::indexer::{
    commit_index_tail, retry_dir_removal, REMOVE_DIR_ALL_RETRIES, next_retry_delay, should_retry, writer_threads_for_attempt, AddOutcome,
    Tally, PROGRESS_INTERVAL,
};

#[test]
fn commit_index_tail_saves_ocr_queue_before_committing_writer() {
    let order = std::cell::RefCell::new(Vec::new());
    let result: anyhow::Result<()> = commit_index_tail(
        || {
            order.borrow_mut().push("save_queue");
            Ok(())
        },
        || {
            order.borrow_mut().push("commit_writer");
            Ok(())
        },
    );
    assert!(result.is_ok());
    assert_eq!(order.into_inner(), vec!["save_queue", "commit_writer"]);
}

#[test]
fn commit_index_tail_skips_commit_when_queue_save_fails() {
    let order = std::cell::RefCell::new(Vec::new());
    let result: anyhow::Result<()> = commit_index_tail(
        || {
            order.borrow_mut().push("save_queue");
            Err(anyhow::Error::msg("模拟保存失败"))
        },
        || {
            order.borrow_mut().push("commit_writer");
            Ok(())
        },
    );
    assert!(result.is_err());
    assert_eq!(
        order.into_inner(),
        vec!["save_queue"],
        "队列保存失败时不该继续提交索引写入"
    );
}

#[test]
fn commit_index_tail_returns_the_commit_error() {
    let result: Result<(), &str> = commit_index_tail(|| Ok(()), || Err("commit failed"));
    assert_eq!(result, Err("commit failed"));
}

#[test]
fn writer_threads_shrink_with_attempts() {
    let threads: Vec<usize> = (1..=10).map(writer_threads_for_attempt).collect();
    assert_eq!(threads, vec![4, 4, 4, 4, 2, 2, 2, 1, 1, 1]);
}

#[test]
fn retries_only_transient_failures_before_the_last_attempt() {
    assert!(should_retry(1, true));
    assert!(!should_retry(1, false));
    assert!(!should_retry(10, true));
    assert_eq!(next_retry_delay(300), 600);
    assert_eq!(next_retry_delay(1200), 2400);
    assert_eq!(next_retry_delay(2400), 3000);
}

#[test]
fn tally_reports_every_interval_and_counts_oversize_among_skipped() {
    let mut t = Tally::new();
    let mut reports = Vec::new();
    let total = PROGRESS_INTERVAL * 2 + 3;
    for i in 0..total {
        let outcome = if i % 10 == 0 {
            AddOutcome::SkippedOversize
        } else if i % 7 == 0 {
            AddOutcome::Skipped
        } else {
            AddOutcome::Indexed
        };
        if let Some(n) = t.record(outcome) {
            reports.push(n);
        }
    }
    assert_eq!(reports, vec![PROGRESS_INTERVAL, PROGRESS_INTERVAL * 2]);
    assert_eq!(t.indexed + t.skipped, total);
    assert_eq!(t.skipped_oversize, 11);
    assert!(t.skipped_oversize <= t.skipped);
}

#[test]
fn remove_dir_all_retrying_propagates_non_permission_errors() {
    // A missing directory (or any error but a refusal for lack of
    // permission) is reported at once, never retried.
    for attempt in 1..=REMOVE_DIR_ALL_RETRIES + 1 {
        assert!(!retry_dir_removal(attempt, false), "目录不存在应该报错，不应该重试掩盖");
    }
    assert!(retry_dir_removal(1, true));
    assert!(retry_dir_removal(REMOVE_DIR_ALL_RETRIES, true));
    assert!(!retry_dir_removal(REMOVE_DIR_ALL_RETRIES + 1, true), "the last attempt's error is final");
}
