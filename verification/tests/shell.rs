use dowse::commands::{check_lang, index_status_dto, preview_dto, settings_dto};
use dowse::config::{config_or_default, AppConfig, ConfigState, DEFAULT_HOTKEY};
use dowse::highlight::TextSegment;
use dowse::i18n::{lang_from_langid, resolve_lang, strings, Lang};
use dowse::indexing_status::{IndexingPhase, IndexingStatus};
use dowse::ocr_worker::{batch_due, drain_stats, worker_count, worker_step, WorkerAction, WorkerEvent};
use dowse::rebuild::{format_count, RebuildGuard};
use dowse::state::SearchState;
use dowse::tray::{menu_action, resolve_root_by_index, root_label, tooltip_text, MenuAction, TrayBusy};
use dowse::window_fx::{
    accent_policy, fallback_level, neutral_acrylic_tint, EffectLevel, EffectLevelState, Rgba,
    TransparencyTier, ACCENT_DISABLED, ACCENT_ENABLE_ACRYLICBLURBEHIND,
};

#[test]
fn default_config_values() {
    let c = AppConfig::default();
    assert_eq!(c.target_dir, None);
    assert!(c.transparency_enabled);
    assert_eq!(c.transparency_tier, TransparencyTier::Mid);
    assert!(!c.autostart_user_disabled);
    assert_eq!(c.hotkey, DEFAULT_HOTKEY);
    assert_eq!(c.lang, "auto");
    assert!(!c.auto_hide_on_blur);
    assert_eq!(config_or_default(None).hotkey, "Alt+Backquote");
}

#[test]
fn config_setters_change_one_field() {
    let mut st = ConfigState::new(AppConfig::default());
    st.set_target_dir("D:\\notes".to_string());
    st.set_lang("en".to_string());
    st.set_transparency_tier(TransparencyTier::High);
    let c = st.get();
    assert_eq!(c.target_dir.as_deref(), Some("D:\\notes"));
    assert_eq!(c.lang, "en");
    assert_eq!(c.transparency_tier, TransparencyTier::High);
    assert_eq!(c.hotkey, DEFAULT_HOTKEY);
    assert!(c.transparency_enabled);
}

#[test]
fn language_resolution() {
    assert_eq!(lang_from_langid(0x0804), Lang::Zh);
    assert_eq!(lang_from_langid(0x0404), Lang::Zh);
    assert_eq!(lang_from_langid(0x0409), Lang::En);
    assert_eq!(resolve_lang("zh", Lang::En), Lang::Zh);
    assert_eq!(resolve_lang("en", Lang::Zh), Lang::En);
    assert_eq!(resolve_lang("auto", Lang::Zh), Lang::Zh);
    assert_eq!(strings(Lang::En).menu_quit, "Quit");
    assert_eq!(strings(Lang::Zh).menu_quit, "退出");
}

#[test]
fn indexing_status_phases() {
    let mut s = IndexingStatus::new();
    assert_eq!(s.snapshot().phase, IndexingPhase::Idle);
    s.begin_text();
    s.set_text_progress(50, "a.md".to_string());
    let snap = s.snapshot();
    assert_eq!(snap.phase, IndexingPhase::Text);
    assert_eq!(snap.text_processed, 50);
    assert_eq!(snap.text_current_file, "a.md");
    s.begin_ocr(10);
    s.set_ocr_pending(4);
    let snap = s.snapshot();
    assert_eq!(snap.phase, IndexingPhase::Ocr);
    assert_eq!((snap.ocr_processed, snap.ocr_total), (6, 10));
    s.set_ocr_pending(15);
    let snap = s.snapshot();
    assert_eq!((snap.ocr_processed, snap.ocr_total), (0, 15));
    s.set_ocr_pending(0);
    assert_eq!(s.snapshot().phase, IndexingPhase::Idle);
    s.begin_ocr(0);
    assert_eq!(s.snapshot().phase, IndexingPhase::Idle);
}

#[test]
fn rebuild_guard_is_exclusive() {
    let mut g = RebuildGuard::new();
    let held = g.try_begin().expect("first begin succeeds");
    assert!(g.is_busy());
    assert!(g.try_begin().is_none());
    g.end(held);
    assert!(!g.is_busy());
    assert!(g.try_begin().is_some());
}

#[test]
fn format_count_groups_thousands() {
    assert_eq!(format_count(0), "0");
    assert_eq!(format_count(999), "999");
    assert_eq!(format_count(1000), "1,000");
    assert_eq!(format_count(15287), "15,287");
    assert_eq!(format_count(1234567), "1,234,567");
}

#[test]
fn menu_ids_map_to_actions() {
    assert_eq!(menu_action("show"), MenuAction::Show);
    assert_eq!(menu_action("folders_add"), MenuAction::AddFolder);
    assert_eq!(menu_action("autostart"), MenuAction::ToggleAutostart);
    assert_eq!(menu_action("quit"), MenuAction::Quit);
    assert_eq!(menu_action("folder_rebuild::3"), MenuAction::RebuildFolder(3));
    assert_eq!(menu_action("folder_remove::12"), MenuAction::RemoveFolder(12));
    assert_eq!(menu_action("folder_remove::x"), MenuAction::Ignore);
    assert_eq!(menu_action("something"), MenuAction::Ignore);
}

#[test]
fn tray_labels_and_tooltips() {
    assert_eq!(root_label("C:\\docs", 15287, "docs"), "C:\\docs · 15,287 docs");
    let en = strings(Lang::En);
    let mut s = IndexingStatus::new();
    assert_eq!(tooltip_text(&s.snapshot(), &en), "dowse — Alt+` to open");
    s.begin_text();
    s.set_text_progress(1200, "x".to_string());
    assert_eq!(tooltip_text(&s.snapshot(), &en), "dowse — indexing 1,200 docs");
    s.begin_ocr(10);
    s.set_ocr_pending(7);
    assert_eq!(tooltip_text(&s.snapshot(), &en), "dowse — image OCR 3 / 10");
    let mut busy = TrayBusy::new();
    assert!(!busy.get());
    busy.set(true);
    assert!(busy.get());
}

#[test]
fn root_by_index_checks_bounds() {
    let roots = vec!["C:\\a".to_string(), "C:\\b".to_string()];
    assert_eq!(resolve_root_by_index(roots.clone(), 1).as_deref(), Some("C:\\b"));
    assert_eq!(resolve_root_by_index(roots, 2), None);
}

#[test]
fn window_effects() {
    assert_eq!(TransparencyTier::Low.dwm_alpha(), 60);
    assert_eq!(TransparencyTier::default(), TransparencyTier::Mid);
    assert_eq!(neutral_acrylic_tint(true, TransparencyTier::High), Rgba { r: 18, g: 18, b: 20, a: 16 });
    assert_eq!(neutral_acrylic_tint(false, TransparencyTier::Mid), Rgba { r: 246, g: 246, b: 248, a: 40 });
    let p = accent_policy(ACCENT_ENABLE_ACRYLICBLURBEHIND, Some(Rgba { r: 1, g: 2, b: 3, a: 0 }));
    assert_eq!(p.accent_flags, 0);
    assert_eq!(p.gradient_color, 0x0103_0201);
    let q = accent_policy(ACCENT_DISABLED, None);
    assert_eq!((q.accent_flags, q.gradient_color, q.animation_id), (2, 0, 0));
    assert_eq!(fallback_level(false, true), EffectLevel::Mica);
    assert_eq!(fallback_level(false, false), EffectLevel::Solid);
    assert_eq!(fallback_level(true, false), EffectLevel::Acrylic);
    let mut st = EffectLevelState::new(EffectLevel::Solid);
    st.set(EffectLevel::Mica);
    assert_eq!(st.get(), EffectLevel::Mica);
}

#[test]
fn search_state_replace_and_clear() {
    let mut s: SearchState<u32> = SearchState::load_initial(None);
    assert!(s.current().is_none());
    s.replace(7);
    assert_eq!(s.current(), Some(&7));
    s.clear();
    assert!(s.current().is_none());
}

#[test]
fn command_dtos() {
    let p = preview_dto("abc", &vec![(1, 2)]);
    assert_eq!(
        p.segments,
        vec![
            TextSegment { text: "a".to_string(), highlighted: false },
            TextSegment { text: "b".to_string(), highlighted: true },
            TextSegment { text: "c".to_string(), highlighted: false },
        ]
    );
    let d = index_status_dto(Some(5), &vec!["\\\\?\\C:\\docs".to_string()]);
    assert!(d.has_index);
    assert_eq!(d.num_docs, 5);
    assert_eq!(d.roots, vec!["C:\\docs".to_string()]);
    let none = index_status_dto(None, &Vec::new());
    assert!(!none.has_index);
    assert_eq!(none.num_docs, 0);
    let s = settings_dto(&AppConfig::default(), true, "info".to_string());
    assert!(s.autostart_enabled);
    assert_eq!(s.hotkey, "Alt+Backquote");
    assert!(check_lang("zh").is_ok());
    assert_eq!(check_lang("fr"), Err("不支持的语言取值：fr".to_string()));
}

#[test]
fn ocr_worker_decisions() {
    assert_eq!(worker_count(0), 2);
    assert_eq!(worker_count(3), 3);
    assert_eq!(worker_count(16), 4);
    assert!(batch_due(32, None));
    assert!(batch_due(1, Some(5000)));
    assert!(!batch_due(1, Some(4999)));
    assert_eq!(
        worker_step(WorkerEvent::Recognised { batch_len: 32, oldest_age_ms: 0 }, false),
        WorkerAction::Flush
    );
    assert_eq!(
        worker_step(WorkerEvent::Recognised { batch_len: 1, oldest_age_ms: 0 }, false),
        WorkerAction::Continue
    );
    assert_eq!(
        worker_step(WorkerEvent::Recognised { batch_len: 1, oldest_age_ms: 0 }, true),
        WorkerAction::FlushAndStop
    );
    assert_eq!(worker_step(WorkerEvent::QueueEmpty { batch_len: 2 }, false), WorkerAction::FlushThenSleep);
    assert_eq!(worker_step(WorkerEvent::QueueEmpty { batch_len: 0 }, false), WorkerAction::Sleep);
    let d = drain_stats(true, 10, 3);
    assert_eq!((d.available, d.processed), (true, 7));
    assert_eq!(drain_stats(false, 10, 3).processed, 0);
}

#[test]
fn text_progress_leaves_ocr_counters_alone() {
    let mut s = IndexingStatus::new();
    s.begin_text();
    s.begin_ocr(10);
    s.set_ocr_pending(4);
    s.set_text_progress(7, "b.md".to_string());
    let snap = s.snapshot();
    assert_eq!(snap.phase, IndexingPhase::Text);
    assert_eq!((snap.ocr_processed, snap.ocr_total), (6, 10));
}
