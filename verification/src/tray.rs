//! The tray icon's menu and tooltip: what a menu item id asks for, the label
//! of a root's submenu, and the tooltip text for the indexing progress.

use vstd::prelude::*;
use vstd::string::*;
use crate::i18n::Strings;
use crate::indexing_status::{IndexingPhase, IndexingSnapshot, SnapshotView};
use crate::rebuild::{format_count, with_commas};
use crate::paths::{display_path, display_text};
use crate::text::{
    all_digits, chars_of, chars_start_with, decimal, digit_char, digits_value, is_ascii_digit,
    parse_usize, parse_usize_text, starts_with, str_eq, string_from_chars, sub_chars,
    u64_to_decimal,
};

verus! {

/// Whether an index operation runs; the root actions of the menu are greyed
/// out meanwhile.
pub struct TrayBusy {
    busy: bool,
}

impl TrayBusy {
    pub closed spec fn busy(&self) -> bool {
        self.busy
    }

    pub fn new() -> (t: TrayBusy)
        ensures
            !t.busy(),
    {
        TrayBusy { busy: false }
    }

    pub fn get(&self) -> (b: bool)
        ensures
            b == self.busy(),
    {
        self.busy
    }

    pub fn set(&mut self, busy: bool)
        ensures
            final(self).busy() == busy,
    {
        self.busy = busy;
    }
}

pub const MENU_SHOW: &'static str = "show";
pub const MENU_FOLDERS_ADD: &'static str = "folders_add";
pub const MENU_AUTOSTART: &'static str = "autostart";
pub const MENU_QUIT: &'static str = "quit";
/// A root's "rebuild" item is this prefix and the root's position.
pub const FOLDER_REBUILD_PREFIX: &'static str = "folder_rebuild::";
/// A root's "remove" item is this prefix and the root's position.
pub const FOLDER_REMOVE_PREFIX: &'static str = "folder_remove::";

/// What a click on a menu item asks for.
#[derive(Debug, Clone, Copy, PartialEq, Eq, Structural)]
pub enum MenuAction {
    Show,
    AddFolder,
    ToggleAutostart,
    Quit,
    /// Rebuild the root at this position of the registered roots.
    RebuildFolder(usize),
    /// Remove the root at this position of the registered roots.
    RemoveFolder(usize),
    /// An id that asks for nothing.
    Ignore,
}

/// The action of a menu item id: the fixed ids, or a root action whose
/// prefix is followed by a position; anything else asks for nothing.
pub open spec fn menu_action_of(id: Seq<char>) -> MenuAction {
    if id == MENU_SHOW@ {
        MenuAction::Show
    } else if id == MENU_FOLDERS_ADD@ {
        MenuAction::AddFolder
    } else if id == MENU_AUTOSTART@ {
        MenuAction::ToggleAutostart
    } else if id == MENU_QUIT@ {
        MenuAction::Quit
    } else if starts_with(id, FOLDER_REBUILD_PREFIX@) {
        match parse_usize_text(id.skip(FOLDER_REBUILD_PREFIX@.len() as int)) {
            Some(i) => MenuAction::RebuildFolder(i),
            None => MenuAction::Ignore,
        }
    } else if starts_with(id, FOLDER_REMOVE_PREFIX@) {
        match parse_usize_text(id.skip(FOLDER_REMOVE_PREFIX@.len() as int)) {
            Some(i) => MenuAction::RemoveFolder(i),
            None => MenuAction::Ignore,
        }
    } else {
        MenuAction::Ignore
    }
}

fn position_after(id: &Vec<char>, prefix: &Vec<char>) -> (r: Option<usize>)
    requires
        starts_with(id@, prefix@),
    ensures
        r == parse_usize_text(id@.skip(prefix@.len() as int)),
{
    let rest = sub_chars(id, prefix.len(), id.len());
    assert(rest@ =~= id@.skip(prefix@.len() as int));
    parse_usize(&rest)
}

/// The action a menu item id asks for (see [`menu_action_of`]).
pub fn menu_action(id: &str) -> (a: MenuAction)
    ensures
        a == menu_action_of(id@),
{
    if str_eq(id, MENU_SHOW) {
        return MenuAction::Show;
    }
    if str_eq(id, MENU_FOLDERS_ADD) {
        return MenuAction::AddFolder;
    }
    if str_eq(id, MENU_AUTOSTART) {
        return MenuAction::ToggleAutostart;
    }
    if str_eq(id, MENU_QUIT) {
        return MenuAction::Quit;
    }
    let v = chars_of(id);
    let rebuild = chars_of(FOLDER_REBUILD_PREFIX);
    if chars_start_with(&v, &rebuild) {
        return match position_after(&v, &rebuild) {
            Some(i) => MenuAction::RebuildFolder(i),
            None => MenuAction::Ignore,
        };
    }
    let remove = chars_of(FOLDER_REMOVE_PREFIX);
    if chars_start_with(&v, &remove) {
        return match position_after(&v, &remove) {
            Some(i) => MenuAction::RemoveFolder(i),
            None => MenuAction::Ignore,
        };
    }
    MenuAction::Ignore
}

/// The separator between a root's path and its document count.
pub const LABEL_DOT: &'static str = " · ";

/// A root's submenu title: "{path} · {count} {unit}".
pub fn root_label(display_path: &str, docs: u64, unit: &str) -> (s: String)
    ensures
        s@ == display_path@ + LABEL_DOT@ + with_commas(decimal(docs as nat)) + " "@ + unit@,
{
    let mut s = String::from_str(display_path);
    s.append(LABEL_DOT);
    let count = format_count(docs);
    s.append(count.as_str());
    s.append(" ");
    s.append(unit);
    s
}

/// The separator between the done and total image counts.
pub const OCR_COUNT_SEP: &'static str = " / ";

/// The tooltip for a progress snapshot: the idle hint; "{prefix}{count}
/// {suffix}" while indexing text; "{prefix}{done} / {total}" during OCR.
pub open spec fn tooltip_of(snap: SnapshotView, s: Strings) -> Seq<char> {
    match snap.phase {
        IndexingPhase::Idle => s.idle_tooltip@,
        IndexingPhase::Text => s.tooltip_indexing_prefix@ + with_commas(
            decimal(snap.text_processed as nat),
        ) + s.tooltip_indexing_suffix@,
        IndexingPhase::Ocr => s.tooltip_ocr_prefix@ + with_commas(
            decimal(snap.ocr_processed as nat),
        ) + OCR_COUNT_SEP@ + with_commas(decimal(snap.ocr_total as nat)),
    }
}

/// The tray tooltip for the current progress (see [`tooltip_of`]).
pub fn tooltip_text(snap: &IndexingSnapshot, s: &Strings) -> (t: String)
    ensures
        t@ == tooltip_of(snap@, *s),
{
    match snap.phase {
        IndexingPhase::Idle => String::from_str(s.idle_tooltip),
        IndexingPhase::Text => {
            let mut t = String::from_str(s.tooltip_indexing_prefix);
            let n = format_count(snap.text_processed as u64);
            t.append(n.as_str());
            t.append(s.tooltip_indexing_suffix);
            t
        },
        IndexingPhase::Ocr => {
            let mut t = String::from_str(s.tooltip_ocr_prefix);
            let done = format_count(snap.ocr_processed as u64);
            t.append(done.as_str());
            t.append(OCR_COUNT_SEP);
            let total = format_count(snap.ocr_total as u64);
            t.append(total.as_str());
            t
        },
    }
}

/// The root at a menu position, read again from the current list of roots
/// when the item is clicked; a position past the end (the list changed
/// meanwhile) gives `None`.
pub fn resolve_root_by_index(roots: Vec<String>, idx: usize) -> (r: Option<String>)
    ensures
        match r {
            Some(p) => idx < roots@.len() && p == roots@[idx as int],
            None => idx >= roots@.len(),
        },
{
    let mut roots = roots;
    if idx < roots.len() {
        Some(roots.swap_remove(idx))
    } else {
        None
    }
}

// ---------------------------------------------------------------------------
// The tray icon
// ---------------------------------------------------------------------------

/// The first frame that the png crate decodes from `png`, as the decoder
/// outputs it by default: its samples, width, height and PNG colour type
/// (6 for RGBA, 2 for RGB); nothing when the data cannot be decoded.
pub uninterp spec fn png_frame(png: Seq<u8>) -> Option<(Seq<u8>, u32, u32, u8)>;

/// `png::Decoder::new`, `read_info`, then `next_frame` into a buffer of
/// `output_buffer_size` bytes, cut to the frame's `buffer_size`; the colour
/// type as its PNG number. Any error gives nothing. The contract names the
/// frame.
#[verifier::external_body]
fn decode_png_frame(png: &[u8]) -> (r: Option<(Vec<u8>, u32, u32, u8)>)
    ensures
        match (r, png_frame(png@)) {
            (Some((b, w, h, c)), Some((b2, w2, h2, c2))) => b@ == b2 && w == w2 && h == h2 && c == c2,
            (None, None) => true,
            _ => false,
        },
{
    let mut reader = png::Decoder::new(std::io::Cursor::new(png)).read_info().ok()?;
    let mut buf = vec![0u8; reader.output_buffer_size()?];
    let info = reader.next_frame(&mut buf).ok()?;
    buf.truncate(info.buffer_size());
    Some((buf, info.width, info.height, info.color_type as u8))
}

/// The PNG colour types of RGBA and RGB samples.
pub const PNG_RGBA: u8 = 6;
pub const PNG_RGB: u8 = 2;

/// The first `k` RGB pixels of `rgb` as RGBA, opaque.
pub open spec fn rgba_prefix(rgb: Seq<u8>, k: int) -> Seq<u8>
    decreases k,
{
    if k <= 0 {
        Seq::empty()
    } else {
        rgba_prefix(rgb, k - 1) + seq![rgb[3 * (k - 1)], rgb[3 * (k - 1) + 1], rgb[3 * (k - 1) + 2], 255u8]
    }
}

/// RGB samples as opaque RGBA (a trailing partial pixel is dropped).
pub open spec fn rgb_to_rgba(rgb: Seq<u8>) -> Seq<u8> {
    rgba_prefix(rgb, (rgb.len() / 3) as int)
}

fn expand_rgb(rgb: &Vec<u8>) -> (r: Vec<u8>)
    ensures
        r@ == rgb_to_rgba(rgb@),
{
    let len = rgb.len();
    let n = len / 3;
    let mut out: Vec<u8> = Vec::new();
    let mut k: usize = 0;
    let mut i: usize = 0;
    while k < n
        invariant
            len == rgb@.len(),
            n == rgb@.len() / 3,
            3 * n <= rgb@.len(),
            k <= n,
            i == 3 * k,
            out@ == rgba_prefix(rgb@, k as int),
        decreases n - k,
    {
        assert(i + 3 <= rgb@.len());
        let r = rgb[i];
        let g = rgb[i + 1];
        let b = rgb[i + 2];
        out.push(r);
        out.push(g);
        out.push(b);
        out.push(255);
        assert(out@ =~= rgba_prefix(rgb@, k + 1));
        k += 1;
        i += 3;
    }
    out
}

/// The RGBA pixels of an icon: those of its first frame when it is RGBA or
/// RGB (made opaque); nothing when it cannot be decoded or has another
/// colour type.
pub open spec fn icon_rgba(png: Seq<u8>) -> Option<(Seq<u8>, u32, u32)> {
    match png_frame(png) {
        Some((b, w, h, c)) => if c == PNG_RGBA {
            Some((b, w, h))
        } else if c == PNG_RGB {
            Some((rgb_to_rgba(b), w, h))
        } else {
            None
        },
        None => None,
    }
}

/// Decodes a tray icon to RGBA pixels (see [`icon_rgba`]).
pub fn decode_rgba_png(png: &[u8]) -> (r: Option<(Vec<u8>, u32, u32)>)
    ensures
        match (r, icon_rgba(png@)) {
            (Some((b, w, h)), Some((b2, w2, h2))) => b@ == b2 && w == w2 && h == h2,
            (None, None) => true,
            _ => false,
        },
{
    match decode_png_frame(png) {
        Some((buf, w, h, c)) => {
            if c == PNG_RGBA {
                Some((buf, w, h))
            } else if c == PNG_RGB {
                Some((expand_rgb(&buf), w, h))
            } else {
                None
            }
        },
        None => None,
    }
}

// ---------------------------------------------------------------------------
// The folders submenu
// ---------------------------------------------------------------------------

/// The id of a root's menu item: the action's prefix and the root's
/// position among the registered roots.
pub open spec fn folder_item_id(prefix: Seq<char>, idx: usize) -> Seq<char> {
    prefix + decimal(idx as nat)
}

fn item_id(prefix: &str, idx: usize) -> (r: String)
    ensures
        r@ == folder_item_id(prefix@, idx),
{
    let digits = u64_to_decimal(idx as u64);
    let mut r = String::from_str(prefix);
    let d = string_from_chars(&digits);
    r.append(d.as_str());
    r
}

/// One entry of the folders submenu.
#[derive(Debug, Clone, PartialEq, Eq)]
pub enum FolderMenuEntry {
    /// A root's submenu: its title, and its rebuild and remove items.
    Root { label: String, rebuild_id: String, remove_id: String, enabled: bool },
    Separator,
    /// The "add folder" item.
    AddFolder { enabled: bool },
}

/// The folders submenu: one submenu per registered root, titled with its
/// path shown to people and its document count, whose items are greyed out
/// while an operation runs; a separator when there are roots; the "add
/// folder" item last, greyed out likewise.
pub fn folders_menu(roots: &Vec<String>, counts: &Vec<u64>, busy: bool, unit: &str) -> (r: Vec<FolderMenuEntry>)
    requires
        counts@.len() == roots@.len(),
    ensures
        r@.len() == roots@.len() + (if roots@.len() > 0 { 1int } else { 0 }) + 1,
        forall|i: int| 0 <= i < roots@.len() ==> match #[trigger] r@[i] {
            FolderMenuEntry::Root { label, rebuild_id, remove_id, enabled } => {
                &&& label@ == display_text(roots@[i]@) + LABEL_DOT@ + with_commas(
                    decimal(counts@[i] as nat),
                ) + " "@ + unit@
                &&& rebuild_id@ == folder_item_id(FOLDER_REBUILD_PREFIX@, i as usize)
                &&& remove_id@ == folder_item_id(FOLDER_REMOVE_PREFIX@, i as usize)
                &&& enabled == !busy
            },
            _ => false,
        },
        roots@.len() > 0 ==> r@[roots@.len() as int] == FolderMenuEntry::Separator,
        r@[r@.len() - 1] == (FolderMenuEntry::AddFolder { enabled: !busy }),
{
    let mut r: Vec<FolderMenuEntry> = Vec::new();
    let mut i: usize = 0;
    while i < roots.len()
        invariant
            i <= roots@.len(),
            counts@.len() == roots@.len(),
            r@.len() == i,
            forall|k: int| 0 <= k < i ==> match #[trigger] r@[k] {
                FolderMenuEntry::Root { label, rebuild_id, remove_id, enabled } => {
                    &&& label@ == display_text(roots@[k]@) + LABEL_DOT@ + with_commas(
                        decimal(counts@[k] as nat),
                    ) + " "@ + unit@
                    &&& rebuild_id@ == folder_item_id(FOLDER_REBUILD_PREFIX@, k as usize)
                    &&& remove_id@ == folder_item_id(FOLDER_REMOVE_PREFIX@, k as usize)
                    &&& enabled == !busy
                },
                _ => false,
            },
        decreases roots.len() - i,
    {
        let shown = display_path(roots[i].as_str());
        let label = root_label(shown.as_str(), counts[i], unit);
        let rebuild_id = item_id(FOLDER_REBUILD_PREFIX, i);
        let remove_id = item_id(FOLDER_REMOVE_PREFIX, i);
        r.push(FolderMenuEntry::Root { label, rebuild_id, remove_id, enabled: !busy });
        i += 1;
    }
    if roots.len() > 0 {
        r.push(FolderMenuEntry::Separator);
    }
    r.push(FolderMenuEntry::AddFolder { enabled: !busy });
    r
}

proof fn lemma_decimal_digits(n: nat)
    ensures
        all_digits(decimal(n)),
        digits_value(decimal(n)) == n,
        decimal(n).len() > 0,
    decreases n,
{
    if n < 10 {
        assert(digit_char(n as int) as int == n + 48);
        assert(decimal(n) =~= seq![digit_char(n as int)]);
        assert(decimal(n).drop_last() =~= Seq::<char>::empty());
        assert(digits_value(Seq::<char>::empty()) == 0);
        assert(decimal(n).last() == digit_char(n as int));
        assert(digits_value(decimal(n)) == digits_value(decimal(n).drop_last()) * 10 + (n as int));
    } else {
        lemma_decimal_digits(n / 10);
        let d = (n % 10) as int;
        assert(digit_char(d) as int == d + 48);
        let s = decimal(n / 10).push(digit_char(d));
        assert(s.drop_last() =~= decimal(n / 10));
        assert forall|i: int| 0 <= i < s.len() implies is_ascii_digit(#[trigger] s[i]) by {
            if i < s.len() - 1 {
                assert(s[i] == decimal(n / 10)[i]);
            }
        }
        assert(digits_value(s) == (n / 10) * 10 + d);
        assert(n == (n / 10) * 10 + n % 10);
    }
}

/// The ids the folders submenu gives a root's items lead back, through the
/// menu's dispatch, to that root's position: a rebuild item to rebuilding
/// it, a remove item to removing it.
pub proof fn lemma_folder_ids_round_trip(idx: usize)
    ensures
        menu_action_of(folder_item_id(FOLDER_REBUILD_PREFIX@, idx)) == MenuAction::RebuildFolder(idx),
        menu_action_of(folder_item_id(FOLDER_REMOVE_PREFIX@, idx)) == MenuAction::RemoveFolder(idx),
{
    reveal_strlit("folder_rebuild::");
    reveal_strlit("folder_remove::");
    reveal_strlit("show");
    reveal_strlit("folders_add");
    reveal_strlit("autostart");
    reveal_strlit("quit");
    lemma_decimal_digits(idx as nat);
    let d = decimal(idx as nat);
    let rb = folder_item_id(FOLDER_REBUILD_PREFIX@, idx);
    let rm = folder_item_id(FOLDER_REMOVE_PREFIX@, idx);
    assert(rb.take(FOLDER_REBUILD_PREFIX@.len() as int) =~= FOLDER_REBUILD_PREFIX@);
    assert(rb.skip(FOLDER_REBUILD_PREFIX@.len() as int) =~= d);
    assert(rm.take(FOLDER_REMOVE_PREFIX@.len() as int) =~= FOLDER_REMOVE_PREFIX@);
    assert(rm.skip(FOLDER_REMOVE_PREFIX@.len() as int) =~= d);
    assert(rb[0] == 'f' && rm[0] == 'f');
    assert(rb != MENU_SHOW@ && rm != MENU_SHOW@);
    assert(rb[7] == 'r' && rm[7] == 'r');
    assert(rb != MENU_FOLDERS_ADD@ && rm != MENU_FOLDERS_ADD@);
    assert(rb != MENU_AUTOSTART@ && rm != MENU_AUTOSTART@);
    assert(rb != MENU_QUIT@ && rm != MENU_QUIT@);
    assert(rm[9] == 'm');
    assert(!starts_with(rm, FOLDER_REBUILD_PREFIX@));
    assert(d[0] != '+');
}

} // verus!
