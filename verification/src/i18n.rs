//! The shell's own user-visible texts (tray menu, tooltips, context menu) in
//! Chinese and English. The language is the one set in the configuration
//! ("zh" or "en"); "auto" follows the system interface language, which counts
//! as Chinese when its primary language is Chinese.

use vstd::prelude::*;

verus! {

/// The interface language.
#[derive(Debug, Clone, Copy, PartialEq, Eq, Structural)]
pub enum Lang {
    Zh,
    En,
}

/// Chinese is the primary language of a Windows LANGID whose low ten bits
/// are `LANG_CHINESE` (4), whatever the region.
pub open spec fn langid_is_chinese(langid: u16) -> bool {
    langid & 0x3ff == 0x04
}

/// The language of the system interface, from its LANGID.
pub fn lang_from_langid(langid: u16) -> (l: Lang)
    ensures
        l == (if langid_is_chinese(langid) {
            Lang::Zh
        } else {
            Lang::En
        }),
{
    if (langid & 0x3ff) == 0x04 {
        Lang::Zh
    } else {
        Lang::En
    }
}

/// The language in effect: "zh" and "en" in the configuration pin it;
/// anything else ("auto", or nothing configured) follows the system.
pub open spec fn resolved_lang(configured: Seq<char>, system: Lang) -> Lang {
    if configured == seq!['z', 'h'] {
        Lang::Zh
    } else if configured == seq!['e', 'n'] {
        Lang::En
    } else {
        system
    }
}

/// Resolves the interface language (see [`resolved_lang`]).
pub fn resolve_lang(configured: &str, system: Lang) -> (l: Lang)
    ensures
        l == resolved_lang(configured@, system),
{
    let c = crate::text::chars_of(configured);
    if crate::text::chars_are2(&c, 'z', 'h') {
        Lang::Zh
    } else if crate::text::chars_are2(&c, 'e', 'n') {
        Lang::En
    } else {
        system
    }
}

/// Every user-visible text of the shell. Texts with a number in them are
/// split into the parts before and after it.
#[derive(Debug, Clone, Copy, PartialEq, Eq)]
pub struct Strings {
    pub idle_tooltip: &'static str,
    pub menu_show: &'static str,
    pub menu_autostart: &'static str,
    pub menu_quit: &'static str,
    pub folders_submenu: &'static str,
    /// Unit after a root's document count: "{path} · {count} {unit}".
    pub root_docs_unit: &'static str,
    pub rebuild_item: &'static str,
    pub remove_item: &'static str,
    pub add_folder_item: &'static str,
    /// Text indexing tooltip: "{prefix}{count}{suffix}".
    pub tooltip_indexing_prefix: &'static str,
    pub tooltip_indexing_suffix: &'static str,
    /// Image OCR tooltip: "{prefix}{done} / {total}".
    pub tooltip_ocr_prefix: &'static str,
    pub dialog_pick_folder: &'static str,
    pub stale_root_error: &'static str,
    pub ctx_open: &'static str,
    pub ctx_reveal: &'static str,
    pub ctx_copy_path: &'static str,
    pub ctx_copy_name: &'static str,
}

/// The texts of a language.
pub open spec fn strings_table(lang: Lang) -> Strings {
    match lang {
        Lang::Zh => Strings {
            idle_tooltip: "dowse — Alt+` 呼出",
            menu_show: "呼出",
            menu_autostart: "开机自启",
            menu_quit: "退出",
            folders_submenu: "索引文件夹",
            root_docs_unit: "篇",
            rebuild_item: "重建",
            remove_item: "移除",
            add_folder_item: "添加文件夹…",
            tooltip_indexing_prefix: "dowse — 索引中 ",
            tooltip_indexing_suffix: " 篇",
            tooltip_ocr_prefix: "dowse — 图片识别 ",
            dialog_pick_folder: "选择要索引的文件夹",
            stale_root_error: "找不到这个索引根，菜单可能已过期，请重新打开托盘菜单",
            ctx_open: "打开文件",
            ctx_reveal: "打开所在文件夹",
            ctx_copy_path: "复制完整路径",
            ctx_copy_name: "复制文件名",
        },
        Lang::En => Strings {
            idle_tooltip: "dowse — Alt+` to open",
            menu_show: "Show dowse",
            menu_autostart: "Launch at startup",
            menu_quit: "Quit",
            folders_submenu: "Indexed folders",
            root_docs_unit: "docs",
            rebuild_item: "Rebuild",
            remove_item: "Remove",
            add_folder_item: "Add folder…",
            tooltip_indexing_prefix: "dowse — indexing ",
            tooltip_indexing_suffix: " docs",
            tooltip_ocr_prefix: "dowse — image OCR ",
            dialog_pick_folder: "Choose a folder to index",
            stale_root_error: "Could not find this index root. The menu may be stale; reopen the tray menu.",
            ctx_open: "Open file",
            ctx_reveal: "Reveal in File Explorer",
            ctx_copy_path: "Copy full path",
            ctx_copy_name: "Copy file name",
        },
    }
}

/// The texts of the given language.
pub fn strings(lang: Lang) -> (s: Strings)
    ensures
        s == strings_table(lang),
{
    match lang {
        Lang::Zh => Strings {
            idle_tooltip: "dowse — Alt+` 呼出",
            menu_show: "呼出",
            menu_autostart: "开机自启",
            menu_quit: "退出",
            folders_submenu: "索引文件夹",
            root_docs_unit: "篇",
            rebuild_item: "重建",
            remove_item: "移除",
            add_folder_item: "添加文件夹…",
            tooltip_indexing_prefix: "dowse — 索引中 ",
            tooltip_indexing_suffix: " 篇",
            tooltip_ocr_prefix: "dowse — 图片识别 ",
            dialog_pick_folder: "选择要索引的文件夹",
            stale_root_error: "找不到这个索引根，菜单可能已过期，请重新打开托盘菜单",
            ctx_open: "打开文件",
            ctx_reveal: "打开所在文件夹",
            ctx_copy_path: "复制完整路径",
            ctx_copy_name: "复制文件名",
        },
        Lang::En => Strings {
            idle_tooltip: "dowse — Alt+` to open",
            menu_show: "Show dowse",
            menu_autostart: "Launch at startup",
            menu_quit: "Quit",
            folders_submenu: "Indexed folders",
            root_docs_unit: "docs",
            rebuild_item: "Rebuild",
            remove_item: "Remove",
            add_folder_item: "Add folder…",
            tooltip_indexing_prefix: "dowse — indexing ",
            tooltip_indexing_suffix: " docs",
            tooltip_ocr_prefix: "dowse — image OCR ",
            dialog_pick_folder: "Choose a folder to index",
            stale_root_error: "Could not find this index root. The menu may be stale; reopen the tray menu.",
            ctx_open: "Open file",
            ctx_reveal: "Reveal in File Explorer",
            ctx_copy_path: "Copy full path",
            ctx_copy_name: "Copy file name",
        },
    }
}

} // verus!
