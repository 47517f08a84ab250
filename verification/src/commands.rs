//! What the window's commands hand back, and the checks they make before
//! acting: the settings panel's initial values, the index status with the
//! roots in display form, and the accepted language settings.

use vstd::prelude::*;
use vstd::string::*;
use crate::config::AppConfig;
use crate::indexer::{doc_name_of, document_name};
use crate::highlight::{segments_from, segments_from_ranges, segments_view, TextSegment};
use crate::meta::strs;
use crate::paths::{display_path, display_text};
use crate::text::str_eq;
use crate::window_fx::TransparencyTier;

verus! {

/// The preview pane's content: the hit context cut into plain and
/// highlighted pieces.
#[derive(Debug, Clone, PartialEq, Eq)]
pub struct PreviewDto {
    pub segments: Vec<TextSegment>,
}

/// The preview of a hit: its context cut at the highlighted byte ranges.
pub fn preview_dto(snippet: &str, highlighted: &Vec<(usize, usize)>) -> (p: PreviewDto)
    ensures
        segments_view(p.segments@) == segments_from(snippet@, highlighted@, 0, 0),
{
    PreviewDto { segments: segments_from_ranges(snippet, highlighted) }
}

/// Whether an index is open, how many documents it has, and its roots as
/// shown to people.
#[derive(Debug, Clone, PartialEq, Eq)]
pub struct IndexStatusDto {
    pub has_index: bool,
    pub num_docs: u64,
    pub roots: Vec<String>,
}

/// The index status: no searcher means no index and no documents; the roots
/// are given in display form (without the extended-length prefix).
pub fn index_status_dto(num_docs: Option<u64>, roots: &Vec<String>) -> (d: IndexStatusDto)
    ensures
        d.has_index == num_docs is Some,
        d.num_docs == match num_docs {
            Some(n) => n,
            None => 0,
        },
        strs(d.roots@) == strs(roots@).map_values(|r: Seq<char>| display_text(r)),
{
    let mut shown: Vec<String> = Vec::new();
    let mut i: usize = 0;
    while i < roots.len()
        invariant
            i <= roots@.len(),
            strs(shown@) == strs(roots@).take(i as int).map_values(|r: Seq<char>| display_text(r)),
        decreases roots.len() - i,
    {
        let ghost before = shown@;
        let d = display_path(roots[i].as_str());
        let ghost dv = d@;
        shown.push(d);
        assert(strs(roots@)[i as int] == roots@[i as int]@);
        assert(strs(shown@) =~= strs(before).push(dv));
        assert(strs(roots@).take(i + 1) =~= strs(roots@).take(i as int).push(strs(roots@)[i as int]));
        assert(strs(roots@).take(i + 1).map_values(|r: Seq<char>| display_text(r)) =~= strs(roots@).take(i as int).map_values(|r: Seq<char>| display_text(r)).push(dv));
        i += 1;
    }
    assert(strs(roots@).take(roots@.len() as int) =~= strs(roots@));
    let (has_index, n) = match num_docs {
        Some(n) => (true, n),
        None => (false, 0),
    };
    IndexStatusDto { has_index, num_docs: n, roots: shown }
}

/// The settings panel's initial values.
#[derive(Debug, Clone, PartialEq, Eq)]
pub struct SettingsDto {
    pub hotkey: String,
    pub transparency_enabled: bool,
    pub transparency_tier: TransparencyTier,
    /// Whether launching at startup is on, as the system reports it.
    pub autostart_enabled: bool,
    pub lang: String,
    pub auto_hide_on_blur: bool,
    pub log_level: String,
}

/// The panel's values: the settings, the startup launch state the system
/// reports (not the user's stored refusal), and the log level.
pub fn settings_dto(cfg: &AppConfig, autostart_enabled: bool, log_level: String) -> (d: SettingsDto)
    ensures
        d.hotkey@ == cfg.hotkey@,
        d.transparency_enabled == cfg.transparency_enabled,
        d.transparency_tier == cfg.transparency_tier,
        d.autostart_enabled == autostart_enabled,
        d.lang@ == cfg.lang@,
        d.auto_hide_on_blur == cfg.auto_hide_on_blur,
        d.log_level == log_level,
{
    SettingsDto {
        hotkey: cfg.hotkey.clone(),
        transparency_enabled: cfg.transparency_enabled,
        transparency_tier: cfg.transparency_tier,
        autostart_enabled,
        lang: cfg.lang.clone(),
        auto_hide_on_blur: cfg.auto_hide_on_blur,
        log_level,
    }
}

/// The language settings the panel may store.
pub open spec fn lang_setting_ok(lang: Seq<char>) -> bool {
    lang == "auto"@ || lang == "zh"@ || lang == "en"@
}

/// Checks a language setting before it is stored: only "auto", "zh" and
/// "en" are accepted; the error names the value.
pub fn check_lang(lang: &str) -> (r: Result<(), String>)
    ensures
        r is Ok <==> lang_setting_ok(lang@),
        r matches Err(msg) ==> msg@ == "不支持的语言取值："@ + lang@,
{
    if str_eq(lang, "auto") || str_eq(lang, "zh") || str_eq(lang, "en") {
        Ok(())
    } else {
        let mut msg = String::from_str("不支持的语言取值：");
        msg.append(lang);
        Err(msg)
    }
}

/// The file name shown on a result's first line: the last component of its
/// path, or the whole path when it has none.
pub fn file_name_of(path: &str) -> (n: String)
    ensures
        n@ == (if doc_name_of(path@).len() == 0 {
            path@
        } else {
            doc_name_of(path@)
        }),
{
    let name = document_name(path);
    if name.unicode_len() == 0 {
        String::from_str(path)
    } else {
        name
    }
}

/// The size limit the rules panel stores: at least 1 MiB (0 would skip
/// every file).
pub fn rules_max_file_mb(requested: u64) -> (mb: u64)
    ensures
        mb == (if requested < 1 { 1 } else { requested }),
{
    if requested < 1 {
        1
    } else {
        requested
    }
}

/// At startup, launching at startup is switched on unless the user turned
/// it off; only when the system reports it off (an unreadable state counts
/// as on, so that nothing is forced).
pub fn should_enable_autostart(user_disabled: bool, system_enabled: Option<bool>) -> (b: bool)
    ensures
        b == (!user_disabled && system_enabled == Some(false)),
{
    !user_disabled && match system_enabled {
        Some(e) => !e,
        None => false,
    }
}

/// After switching launching at startup on or off, the user's refusal is
/// recorded as the opposite of the new state, and only when the switch
/// went through.
pub fn autostart_refusal_after(enable: bool, switched: bool) -> (r: Option<bool>)
    ensures
        r == (if switched {
            Some(!enable)
        } else {
            None
        }),
{
    if switched {
        Some(!enable)
    } else {
        None
    }
}

/// A step of changing the global hotkey.
#[derive(Debug, Clone, Copy, PartialEq, Eq, Structural)]
pub enum HotkeyStep {
    /// Unregister the current hotkey (a failure does not matter: it may never
    /// have been registered).
    UnregisterOld,
    /// Register the new hotkey and report whether it went through.
    RegisterNew,
    /// Make the new hotkey the current one and store it in the settings.
    AdoptNew,
    /// Register the old hotkey again.
    RestoreOld,
}

/// The steps of a hotkey change once the new one is parsed: none when it is
/// the current one; otherwise the old one goes and the new one is tried.
pub fn hotkey_change_steps(same_as_current: bool) -> (v: Vec<HotkeyStep>)
    ensures
        same_as_current ==> v@ == Seq::<HotkeyStep>::empty(),
        !same_as_current ==> v@ == seq![HotkeyStep::UnregisterOld, HotkeyStep::RegisterNew],
{
    if same_as_current {
        Vec::new()
    } else {
        let v = vec![HotkeyStep::UnregisterOld, HotkeyStep::RegisterNew];
        assert(v@ =~= seq![HotkeyStep::UnregisterOld, HotkeyStep::RegisterNew]);
        v
    }
}

/// What follows the attempt to register the new hotkey: it becomes current
/// when it went through; otherwise the old one is registered again, so that
/// there is never no hotkey at all.
pub fn hotkey_after_register(registered: bool) -> (s: HotkeyStep)
    ensures
        s == (if registered {
            HotkeyStep::AdoptNew
        } else {
            HotkeyStep::RestoreOld
        }),
{
    if registered {
        HotkeyStep::AdoptNew
    } else {
        HotkeyStep::RestoreOld
    }
}

/// Whether the main window hides when it loses the focus: only with the
/// "hide on blur" setting on, and not while hiding is suppressed (a context
/// menu is open or the window is pinned). Other windows never hide so, and
/// Esc and the hotkey hide the window on their own way.
pub fn hides_on_blur(is_main: bool, focus_lost: bool, suppressed: bool, auto_hide_on_blur: bool) -> (b: bool)
    ensures
        b == (is_main && focus_lost && !suppressed && auto_hide_on_blur),
{
    is_main && focus_lost && !suppressed && auto_hide_on_blur
}

} // verus!
