use dowse::frn_table::FrnTable;
use dowse::root_ops::{op_step, OpEvent, OpPhase, OpStep, RootOp};
use dowse::usn::{parse_journal_buffer, Catchup, WatchEvent};
use dowse::usn_translate::USN_REASON_FILE_CREATE;
use dowse::window_drag::{hit_edge, DragAction, DragState, WinRect, EDGE_E, EDGE_N, EDGE_S, EDGE_W};

fn rect() -> WinRect {
    WinRect { left: 100, top: 100, right: 900, bottom: 600 }
}

#[test]
fn edges_are_hit_within_eight_pixels() {
    let r = rect();
    assert_eq!(hit_edge(500, 300, &r), 0);
    assert_eq!(hit_edge(105, 300, &r), EDGE_W);
    assert_eq!(hit_edge(908, 300, &r), EDGE_E);
    assert_eq!(hit_edge(909, 300, &r), 0);
    assert_eq!(hit_edge(100, 100, &r), EDGE_W | EDGE_N);
    assert_eq!(hit_edge(900, 595, &r), EDGE_E | EDGE_S);
}

#[test]
fn small_wobble_is_a_click_and_drag_follows_past_threshold() {
    let mut s = DragState::new(640, 420);
    s.button_down(500, 300, true, Some(rect()));
    assert_eq!(s.pointer_move(510, 290), DragAction::Stay);
    assert_eq!(s.pointer_move(511, 300), DragAction::MoveTo { x: 111, y: 100 });
    s.button_up();
    assert_eq!(s.pointer_move(600, 300), DragAction::Stay);
}

#[test]
fn press_outside_the_window_arms_nothing() {
    let mut s = DragState::new(640, 420);
    s.button_down(500, 300, false, Some(rect()));
    assert!(!s.armed);
    assert_eq!(s.pointer_move(700, 300), DragAction::Stay);
}

#[test]
fn west_resize_keeps_east_edge_and_respects_minimum() {
    let mut s = DragState::new(640, 420);
    s.button_down(102, 300, true, Some(rect()));
    assert_eq!(s.pointer_move(52, 300), DragAction::Place { x: 50, y: 100, w: 850, h: 500 });
    assert_eq!(s.pointer_move(402, 300), DragAction::Place { x: 260, y: 100, w: 640, h: 500 });
}

#[test]
fn south_east_corner_resizes_both_ways() {
    let mut s = DragState::new(640, 420);
    s.button_down(899, 599, true, Some(rect()));
    assert_eq!(s.pointer_move(949, 619), DragAction::Place { x: 100, y: 100, w: 850, h: 520 });
}

fn run(op: RootOp, evs: &[OpEvent]) -> (OpPhase, Vec<OpStep>) {
    let mut phase = OpPhase::NotStarted;
    let mut all = Vec::new();
    for ev in evs {
        let (next, steps) = op_step(op, phase, *ev);
        phase = next;
        all.extend(steps);
    }
    (phase, all)
}

#[test]
fn failed_rebuild_settles_and_watches_again() {
    let (phase, steps) = run(RootOp::Rebuild, &[OpEvent::Start, OpEvent::WorkFailed]);
    assert_eq!(phase, OpPhase::Finished);
    assert_eq!(
        steps,
        vec![
            OpStep::StopWatch,
            OpStep::BeginText,
            OpStep::SetBusy(true),
            OpStep::RefreshTooltip,
            OpStep::ResetIdle,
            OpStep::EmitSettled,
            OpStep::SetBusy(false),
            OpStep::RefreshTooltip,
            OpStep::ReopenSearcherOrClear,
            OpStep::WatchRegisteredRoots,
        ]
    );
}

#[test]
fn successful_add_root_reopens_and_starts_ocr() {
    let (phase, steps) =
        run(RootOp::AddRoot, &[OpEvent::Start, OpEvent::WorkDone, OpEvent::SearcherOpened]);
    assert_eq!(phase, OpPhase::Finished);
    assert_eq!(steps[4..6], [OpStep::CountOcrPending, OpStep::OpenSearcher]);
    assert_eq!(
        steps[6..],
        [
            OpStep::ReplaceSearcher,
            OpStep::WatchRegisteredRoots,
            OpStep::BeginOcr,
            OpStep::EmitSettled,
            OpStep::SetBusy(false),
            OpStep::RefreshMenu,
            OpStep::RefreshTooltip,
        ]
    );
}

#[test]
fn remove_root_has_no_text_phase() {
    let (_, steps) = run(RootOp::RemoveRoot, &[OpEvent::Start, OpEvent::WorkDone, OpEvent::SearcherFailed]);
    assert!(!steps.contains(&OpStep::BeginText));
    assert_eq!(steps.last(), Some(&OpStep::WatchRegisteredRoots));
    assert!(steps.contains(&OpStep::ClearSearcher) == false);
    let (phase, steps) = run(RootOp::RemoveRoot, &[OpEvent::WorkDone]);
    assert_eq!(phase, OpPhase::NotStarted);
    assert!(steps.is_empty());
}

fn record(frn: u64, usn: i64, name: &str) -> Vec<u8> {
    let units: Vec<u16> = name.encode_utf16().collect();
    let len = 60 + units.len() * 2;
    let mut b = Vec::new();
    b.extend_from_slice(&(len as u32).to_le_bytes());
    b.extend_from_slice(&2u16.to_le_bytes());
    b.extend_from_slice(&0u16.to_le_bytes());
    b.extend_from_slice(&frn.to_le_bytes());
    b.extend_from_slice(&1u64.to_le_bytes());
    b.extend_from_slice(&usn.to_le_bytes());
    b.extend_from_slice(&0i64.to_le_bytes());
    b.extend_from_slice(&USN_REASON_FILE_CREATE.to_le_bytes());
    b.extend_from_slice(&0u32.to_le_bytes());
    b.extend_from_slice(&0u32.to_le_bytes());
    b.extend_from_slice(&0u32.to_le_bytes());
    b.extend_from_slice(&((units.len() * 2) as u16).to_le_bytes());
    b.extend_from_slice(&60u16.to_le_bytes());
    for u in units {
        b.extend_from_slice(&u.to_le_bytes());
    }
    b
}

#[test]
fn catchup_replays_until_target_or_exhaustion() {
    let mut table = FrnTable::new();
    table.register_root(1, "C:\\w".to_string());
    let mut c = Catchup::new(table, 100, 300);
    assert!(c.wants_more());
    let mut buf = 200i64.to_le_bytes().to_vec();
    buf.extend(record(10, 150, "a.md"));
    let batch = parse_journal_buffer(&buf, buf.len(), c.current_usn());
    c.feed(batch);
    assert_eq!(c.current_usn(), 200);
    assert!(c.wants_more());
    let empty = 200i64.to_le_bytes().to_vec();
    c.feed(parse_journal_buffer(&empty, empty.len(), c.current_usn()));
    assert!(!c.wants_more());
    let (table, events, read, cursor) = c.finish();
    assert_eq!(events, vec![WatchEvent::Upsert("C:\\w\\a.md".to_string())]);
    assert_eq!(read, 1);
    assert_eq!(cursor, 200);
    assert_eq!(table.reconstruct_path(10).as_deref(), Some("C:\\w\\a.md"));
}
