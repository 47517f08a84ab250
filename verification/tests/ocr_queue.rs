use dowse::ocr_queue::{registry_key, OcrQueue, OcrResult, Processed, Stat};
use dowse::strmap::StrMap;

fn copy_stats(m: &StrMap<Stat>) -> StrMap<Stat> {
    let mut out = StrMap::new();
    for (k, v) in m.entries() {
        out.insert(k.clone(), *v);
    }
    out
}

fn copy_processed(m: &StrMap<Processed>) -> StrMap<Processed> {
    let mut out = StrMap::new();
    for (k, v) in m.entries() {
        out.insert(
            k.clone(),
            Processed { mtime: v.mtime, size: v.size, content: v.content.clone() },
        );
    }
    out
}

/// What a restart reads back: the three parts as they were written.
fn reload(q: &OcrQueue) -> OcrQueue {
    OcrQueue::recover(copy_stats(q.pending()), copy_stats(q.in_flight()), copy_processed(q.processed()))
}

#[test]
fn enqueue_pop_and_mark_processed_round_trip() {
    let mut queue = OcrQueue::new();

    let path = "shot.png".to_string();
    queue.enqueue(path.clone(), 10, 20);
    assert_eq!(queue.pending_len(), 1);
    assert!(queue.cached_content(&path, 10, 20).is_none());

    let (popped_path, mtime, size) = queue.pop_pending().expect("a queued image can be taken");
    assert_eq!(popped_path, path);
    assert_eq!((mtime, size), (10, 20));
    assert_eq!(queue.pending_len(), 1, "a taken image still counts until its result is in");

    queue.mark_processed(popped_path.clone(), mtime, size, "识别结果".to_string());
    assert_eq!(queue.cached_content(&popped_path, 10, 20).as_deref(), Some("识别结果"));
    assert_eq!(queue.pending_len(), 0);
    assert!(queue.cached_content(&popped_path, 999, 20).is_none());
}

#[test]
fn pending_progress_survives_save_and_reload_from_disk() {
    let mut queue = OcrQueue::new();
    queue.enqueue("a.png".to_string(), 1, 2);
    queue.enqueue("b.png".to_string(), 3, 4);
    let (path, mtime, size) = queue.pop_pending().unwrap();
    queue.mark_processed(path, mtime, size, "已识别".to_string());

    let reloaded = reload(&queue);
    assert_eq!(reloaded.pending().len(), 1);
    assert_eq!(reloaded.processed().len(), 1);
}

#[test]
fn crash_between_pop_and_mark_processed_recovers_into_pending() {
    let mut queue = OcrQueue::new();
    queue.enqueue("a.png".to_string(), 1, 2);
    queue.pop_pending().expect("a queued image can be taken");
    assert_eq!(queue.in_flight().len(), 1);

    let reloaded = reload(&queue);
    assert_eq!(reloaded.in_flight().len(), 0);
    assert_eq!(reloaded.pending().len(), 1);
    assert!(reloaded.pending().get("a.png").is_some());
}

#[test]
fn pop_on_empty_queue_is_none() {
    let mut queue = OcrQueue::new();
    assert!(queue.pop_pending().is_none());
    assert_eq!(queue.pending_len(), 0);
}

#[test]
fn enqueue_of_taken_image_drops_it_from_flight() {
    let mut queue = OcrQueue::new();
    queue.enqueue("a.png".to_string(), 1, 2);
    queue.pop_pending().unwrap();
    queue.enqueue("a.png".to_string(), 5, 6);
    assert_eq!(queue.in_flight().len(), 0);
    assert_eq!(queue.pending().get("a.png"), Some(&Stat { mtime: 5, size: 6 }));
    assert_eq!(queue.pending_len(), 1);
}

#[test]
fn compact_drops_pending_outside_roots_and_missing_files() {
    let mut queue = OcrQueue::new();
    queue.enqueue("C:\\root\\kept.png".to_string(), 1, 2);
    queue.enqueue("C:\\root\\gone.png".to_string(), 1, 2);
    queue.enqueue("C:\\outside.png".to_string(), 1, 2);
    let roots = vec!["C:\\root".to_string()];
    let missing = vec!["C:\\root\\gone.png".to_string()];
    queue.compact(&roots, &missing);
    assert_eq!(queue.pending_len(), 1);
    assert!(queue.pending().get("C:\\root\\kept.png").is_some());
}

#[test]
fn compact_drops_processed_cache_outside_roots_and_missing_files() {
    let mut queue = OcrQueue::new();
    queue.mark_processed("C:\\root\\kept.png".to_string(), 1, 2, "内容".to_string());
    queue.mark_processed("C:\\root\\gone.png".to_string(), 1, 2, "内容".to_string());
    queue.mark_processed("C:\\outside.png".to_string(), 1, 2, "内容".to_string());
    let roots = vec!["C:\\root".to_string()];
    let missing = vec!["C:\\root\\gone.png".to_string()];
    queue.compact(&roots, &missing);
    assert!(queue.cached_content("C:\\root\\kept.png", 1, 2).is_some());
    assert!(queue.cached_content("C:\\root\\gone.png", 1, 2).is_none());
    assert!(queue.cached_content("C:\\outside.png", 1, 2).is_none());
}

#[test]
fn compact_keeps_nothing_of_a_sibling_with_common_prefix() {
    let mut queue = OcrQueue::new();
    queue.enqueue("C:\\rootx\\a.png".to_string(), 1, 2);
    queue.compact(&vec!["C:\\root".to_string()], &Vec::new());
    assert_eq!(queue.pending_len(), 0);
}

#[test]
fn settle_batch_commits_or_requeues() {
    let mut queue = OcrQueue::new();
    queue.enqueue("a.png".to_string(), 1, 2);
    queue.enqueue("b.png".to_string(), 3, 4);
    let (a, am, asz) = queue.pop_pending().unwrap();
    let (b, bm, bsz) = queue.pop_pending().unwrap();

    queue.settle_batch(
        vec![OcrResult { path: a.clone(), mtime: am, size: asz, content: "x".to_string() }],
        true,
    );
    assert!(queue.cached_content(&a, am, asz).is_some());

    queue.settle_batch(
        vec![OcrResult { path: b.clone(), mtime: bm, size: bsz, content: "y".to_string() }],
        false,
    );
    assert!(queue.cached_content(&b, bm, bsz).is_none());
    assert!(queue.pending().get(&b).is_some());
    assert_eq!(queue.in_flight().len(), 0);
}

/// The same index directory written with or without the extended-length
/// prefix shares one queue.
#[test]
fn for_index_dir_normalizes_extended_prefix_to_same_singleton() {
    let index_dir = "C:\\Users\\me\\AppData\\Local\\dowse\\index";
    let prefixed = format!("\\\\?\\{}", index_dir);
    assert_eq!(registry_key(index_dir), registry_key(&prefixed));
    assert_eq!(registry_key(index_dir), index_dir);
}

#[test]
fn settle_batch_stores_each_images_text_and_stat() {
    let mut queue = OcrQueue::new();
    queue.enqueue("a.png".to_string(), 1, 2);
    queue.enqueue("b.png".to_string(), 3, 4);
    queue.enqueue("c.png".to_string(), 5, 6);
    let (a, _, _) = queue.pop_pending().unwrap();
    let (b, _, _) = queue.pop_pending().unwrap();

    queue.settle_batch(
        vec![
            OcrResult { path: a.clone(), mtime: 10, size: 20, content: "first".to_string() },
            OcrResult { path: b.clone(), mtime: 30, size: 40, content: "限流".to_string() },
            OcrResult { path: a.clone(), mtime: 11, size: 21, content: "second".to_string() },
        ],
        true,
    );
    assert_eq!(queue.cached_content(&a, 11, 21).as_deref(), Some("second"));
    assert!(queue.cached_content(&a, 10, 20).is_none());
    assert_eq!(queue.cached_content(&b, 30, 40).as_deref(), Some("限流"));
    assert_eq!(queue.in_flight().len(), 0);
    let c = queue.pending().get("c.png").copied().unwrap();
    assert_eq!((c.mtime, c.size), (5, 6));

    let (c_path, _, _) = queue.pop_pending().unwrap();
    queue.settle_batch(vec![OcrResult { path: c_path.clone(), mtime: 7, size: 8, content: "z".to_string() }], false);
    let c = queue.pending().get(&c_path).copied().unwrap();
    assert_eq!((c.mtime, c.size), (7, 8));
    assert!(queue.cached_content(&c_path, 7, 8).is_none());
}
