use dowse::commands::{
    hides_on_blur,
    autostart_refusal_after, hotkey_after_register, hotkey_change_steps, rules_max_file_mb,
    should_enable_autostart, HotkeyStep,
};
use dowse::extract::IndexRules;
use dowse::indexer::{document_ext, document_name, image_document_content, text_file_outcome, AddOutcome};
use dowse::logging::{needs_rotation, MAX_LOG_BYTES};
use dowse::ocr_queue::{OcrQueue, Stat};
use dowse::root_ops::{add_folder_op, completion_event, RootOp};
use dowse::tray::{folders_menu, menu_action, FolderMenuEntry, MenuAction};
use dowse::window_fx::centered_left;

fn rules(mb: u64) -> IndexRules {
    IndexRules { exclude_dirs: Vec::new(), extra_text_exts: Vec::new(), max_file_mb: mb }
}

#[test]
fn text_outcomes_tell_oversize_from_other_skips() {
    let r = rules(1);
    assert_eq!(text_file_outcome(true, true, None, &r), AddOutcome::Indexed);
    assert_eq!(text_file_outcome(false, true, Some(2 * 1024 * 1024), &r), AddOutcome::SkippedOversize);
    assert_eq!(text_file_outcome(false, true, Some(1024), &r), AddOutcome::Skipped);
    assert_eq!(text_file_outcome(false, false, Some(2 * 1024 * 1024), &r), AddOutcome::Skipped);
    assert_eq!(text_file_outcome(false, true, None, &r), AddOutcome::Skipped);
}

#[test]
fn image_content_comes_from_cache_or_queues_the_image() {
    let mut q = OcrQueue::new();
    assert_eq!(image_document_content(&mut q, "a.png".to_string(), 1, 2), "");
    assert_eq!(q.pending().get("a.png"), Some(&Stat { mtime: 1, size: 2 }));
    q.pop_pending();
    q.mark_processed("a.png".to_string(), 1, 2, "文字".to_string());
    assert_eq!(image_document_content(&mut q, "a.png".to_string(), 1, 2), "文字");
    assert_eq!(q.pending_len(), 0);
    assert_eq!(image_document_content(&mut q, "a.png".to_string(), 5, 2), "");
    assert_eq!(q.pending_len(), 1);
}

#[test]
fn document_name_and_extension() {
    assert_eq!(document_name("C:\\docs\\Report.PDF"), "Report.PDF");
    assert_eq!(document_ext("C:\\docs\\Report.PDF"), "pdf");
    assert_eq!(document_ext("C:\\docs\\.gitignore"), "");
    assert_eq!(document_name("C:\\docs\\.."), "");
}

#[test]
fn folders_menu_lists_roots_then_add() {
    let roots = vec!["\\\\?\\C:\\docs".to_string(), "D:\\notes".to_string()];
    let menu = folders_menu(&roots, &vec![15287, 3], true, "docs");
    assert_eq!(menu.len(), 4);
    match &menu[0] {
        FolderMenuEntry::Root { label, rebuild_id, remove_id, enabled } => {
            assert_eq!(label, "C:\\docs · 15,287 docs");
            assert_eq!(rebuild_id, "folder_rebuild::0");
            assert_eq!(remove_id, "folder_remove::0");
            assert!(!enabled);
            assert_eq!(menu_action(rebuild_id), MenuAction::RebuildFolder(0));
        }
        other => panic!("unexpected entry {other:?}"),
    }
    match &menu[1] {
        FolderMenuEntry::Root { remove_id, .. } => {
            assert_eq!(menu_action(remove_id), MenuAction::RemoveFolder(1));
        }
        other => panic!("unexpected entry {other:?}"),
    }
    assert_eq!(menu[2], FolderMenuEntry::Separator);
    assert_eq!(menu[3], FolderMenuEntry::AddFolder { enabled: false });
    let empty = folders_menu(&Vec::new(), &Vec::new(), false, "docs");
    assert_eq!(empty, vec![FolderMenuEntry::AddFolder { enabled: true }]);
}

#[test]
fn operation_choice_and_completion_events() {
    assert_eq!(add_folder_op(false), RootOp::Rebuild);
    assert_eq!(add_folder_op(true), RootOp::AddRoot);
    assert_eq!(completion_event(RootOp::RemoveRoot, true), "dowse://root-removed");
    assert_eq!(completion_event(RootOp::RebuildRoot, true), "dowse://rebuild-done");
    assert_eq!(completion_event(RootOp::RemoveRoot, false), "dowse://rebuild-error");
}

#[test]
fn settings_decisions() {
    assert_eq!(rules_max_file_mb(0), 1);
    assert_eq!(rules_max_file_mb(20), 20);
    assert!(should_enable_autostart(false, Some(false)));
    assert!(!should_enable_autostart(false, None));
    assert!(!should_enable_autostart(true, Some(false)));
    assert_eq!(autostart_refusal_after(false, true), Some(true));
    assert_eq!(autostart_refusal_after(true, false), None);
    assert!(hotkey_change_steps(true).is_empty());
    assert_eq!(hotkey_change_steps(false), vec![HotkeyStep::UnregisterOld, HotkeyStep::RegisterNew]);
    assert_eq!(hotkey_after_register(false), HotkeyStep::RestoreOld);
    assert_eq!(hotkey_after_register(true), HotkeyStep::AdoptNew);
}

#[test]
fn log_rotation_and_window_centering() {
    assert!(!needs_rotation(MAX_LOG_BYTES - 1));
    assert!(needs_rotation(MAX_LOG_BYTES));
    assert_eq!(centered_left(0, 1920, 860), 530);
    assert_eq!(centered_left(100, 800, 861), 70);
    assert_eq!(centered_left(0, 800, 803), -1);
}

#[test]
fn result_file_name_falls_back_to_the_path() {
    assert_eq!(dowse::commands::file_name_of("C:\\docs\\a.md"), "a.md");
    assert_eq!(dowse::commands::file_name_of("C:\\docs\\.."), "C:\\docs\\..");
}

#[test]
fn window_hides_on_blur_only_when_asked_and_not_pinned() {
    assert!(hides_on_blur(true, true, false, true));
    assert!(!hides_on_blur(true, true, false, false), "the setting is off by default");
    assert!(!hides_on_blur(true, true, true, true), "pinned or a context menu open");
    assert!(!hides_on_blur(false, true, false, true), "only the main window");
    assert!(!hides_on_blur(true, false, false, true));
}
