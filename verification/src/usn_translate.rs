//! USN journal records: decoding one raw `USN_RECORD_V2`, and turning the
//! stream of records of one volume into index events.
//!
//! The translator keeps the FRN table up to date with every record as it
//! arrives, so that a delete that follows a rename resolves to the new
//! location, and it pairs the two halves of a rename (`RENAME_OLD_NAME`, then
//! `RENAME_NEW_NAME`) by FRN.

use std::collections::HashMap;
use vstd::prelude::*;
use crate::frn_table::{resolve, EntryView, FrnEntry, FrnTable, TableView};
use crate::text::string_from_chars;

verus! {

broadcast use vstd::std_specs::hash::group_hash_axioms;

// ---------------------------------------------------------------------------
// Records
// ---------------------------------------------------------------------------

/// The reason bits of a record that the translation looks at.
#[derive(Debug, Clone, Copy, PartialEq, Eq, Structural)]
pub struct UsnReason {
    pub file_create: bool,
    pub file_delete: bool,
    pub rename_old_name: bool,
    pub rename_new_name: bool,
}

impl Default for UsnReason {
    fn default() -> (r: UsnReason)
        ensures
            r == (UsnReason {
                file_create: false,
                file_delete: false,
                rename_old_name: false,
                rename_new_name: false,
            }),
    {
        UsnReason {
            file_create: false,
            file_delete: false,
            rename_old_name: false,
            rename_new_name: false,
        }
    }
}

/// One journal record, reduced to what the translation needs.
#[derive(Debug, Clone, PartialEq, Eq)]
pub struct UsnRecord {
    pub usn: i64,
    pub frn: u64,
    pub parent_frn: u64,
    pub name: String,
    pub is_dir: bool,
    pub reason: UsnReason,
}

/// The mathematical content of a [`UsnRecord`].
pub struct RecordView {
    pub usn: i64,
    pub frn: u64,
    pub parent_frn: u64,
    pub name: Seq<char>,
    pub is_dir: bool,
    pub reason: UsnReason,
}

impl View for UsnRecord {
    type V = RecordView;

    open spec fn view(&self) -> RecordView {
        RecordView {
            usn: self.usn,
            frn: self.frn,
            parent_frn: self.parent_frn,
            name: self.name@,
            is_dir: self.is_dir,
            reason: self.reason,
        }
    }
}

pub const USN_REASON_FILE_CREATE: u32 = 0x100;
pub const USN_REASON_FILE_DELETE: u32 = 0x200;
pub const USN_REASON_RENAME_OLD_NAME: u32 = 0x1000;
pub const USN_REASON_RENAME_NEW_NAME: u32 = 0x2000;
pub const FILE_ATTRIBUTE_DIRECTORY_BIT: u32 = 0x10;
/// Size of the fixed part of `USN_RECORD_V2`, up to `FileName`.
pub const USN_RECORD_V2_HEADER_LEN: usize = 60;

// ---------------------------------------------------------------------------
// Little-endian fields
// ---------------------------------------------------------------------------

pub open spec fn le16(b: Seq<u8>, i: int) -> int {
    b[i] as int + b[i + 1] as int * 256
}

pub open spec fn le32(b: Seq<u8>, i: int) -> int {
    le16(b, i) + le16(b, i + 2) * 65536
}

pub open spec fn le64(b: Seq<u8>, i: int) -> int {
    le32(b, i) + le32(b, i + 4) * 4294967296
}

/// Two's complement reading of an unsigned 64-bit value.
pub open spec fn as_signed64(v: int) -> int {
    if v >= 0x8000_0000_0000_0000 {
        v - 0x1_0000_0000_0000_0000
    } else {
        v
    }
}

pub fn read_le16(b: &[u8], i: usize) -> (v: u16)
    requires
        i + 2 <= b@.len(),
    ensures
        v == le16(b@, i as int),
{
    b[i] as u16 + (b[i + 1] as u16) * 256
}

pub fn read_le32(b: &[u8], i: usize) -> (v: u32)
    requires
        i + 4 <= b@.len(),
    ensures
        v == le32(b@, i as int),
{
    let _n = b.len();
    read_le16(b, i) as u32 + (read_le16(b, i + 2) as u32) * 65536
}

pub fn read_le64(b: &[u8], i: usize) -> (v: u64)
    requires
        i + 8 <= b@.len(),
    ensures
        v == le64(b@, i as int),
{
    let _n = b.len();
    read_le32(b, i) as u64 + (read_le32(b, i + 4) as u64) * 4294967296
}

pub fn u64_as_i64(v: u64) -> (r: i64)
    ensures
        r == as_signed64(v as int),
{
    if v >= 0x8000_0000_0000_0000u64 {
        let d = v - 0x8000_0000_0000_0000u64;
        (d as i64) + i64::MIN
    } else {
        v as i64
    }
}

// ---------------------------------------------------------------------------
// UTF-16 names
// ---------------------------------------------------------------------------

pub open spec fn is_high_surrogate(u: u16) -> bool {
    0xD800 <= u && u < 0xDC00
}

pub open spec fn is_low_surrogate(u: u16) -> bool {
    0xDC00 <= u && u < 0xE000
}

/// The scalar value that a surrogate pair stands for.
pub open spec fn pair_scalar(hi: u16, lo: u16) -> int {
    0x10000 + (hi - 0xD800) * 1024 + (lo - 0xDC00)
}

/// A Unicode scalar value: a code point that is not a surrogate.
pub open spec fn is_scalar(v: int) -> bool {
    0 <= v <= 0x10FFFF && !(0xD800 <= v <= 0xDFFF)
}

/// Lossy UTF-16 decoding: surrogate pairs give one character, every other
/// non-surrogate unit gives its own character, and an unpaired surrogate
/// gives U+FFFD.
pub open spec fn utf16_lossy(u: Seq<u16>) -> Seq<char>
    decreases u.len(),
{
    if u.len() == 0 {
        Seq::empty()
    } else if u.len() >= 2 && is_high_surrogate(u[0]) && is_low_surrogate(u[1]) {
        seq![pair_scalar(u[0], u[1]) as char] + utf16_lossy(u.subrange(2, u.len() as int))
    } else if 0xD800 <= u[0] && u[0] < 0xE000 {
        seq!['\u{FFFD}'] + utf16_lossy(u.subrange(1, u.len() as int))
    } else {
        seq![u[0] as char] + utf16_lossy(u.subrange(1, u.len() as int))
    }
}

/// `char::from_u32`: the character with scalar value `v`, or `None` when `v`
/// is a surrogate or above U+10FFFF.
#[verifier::external_body]
fn char_from_u32(v: u32) -> (r: Option<char>)
    ensures
        r == (if is_scalar(v as int) {
            Some(v as char)
        } else {
            None
        }),
{
    char::from_u32(v)
}

fn scalar_char(v: u32) -> (c: char)
    requires
        is_scalar(v as int),
    ensures
        c == v as char,
{
    match char_from_u32(v) {
        Some(c) => c,
        None => '\u{FFFD}',
    }
}

/// Decodes UTF-16 code units (see [`utf16_lossy`]).
pub fn decode_utf16_lossy(units: &Vec<u16>) -> (r: Vec<char>)
    ensures
        r@ == utf16_lossy(units@),
{
    let ghost u = units@;
    let mut out: Vec<char> = Vec::new();
    let mut i: usize = 0;
    assert(u.subrange(0, u.len() as int) =~= u);
    while i < units.len()
        invariant
            u == units@,
            i <= u.len(),
            utf16_lossy(u) == out@ + utf16_lossy(u.subrange(i as int, u.len() as int)),
        decreases u.len() - i,
    {
        let ghost rest = u.subrange(i as int, u.len() as int);
        let ghost prev = out@;
        let w = units[i];
        if i + 1 < units.len() && 0xD800 <= w && w < 0xDC00 && 0xDC00 <= units[i + 1]
            && units[i + 1] < 0xE000 {
            let lo = units[i + 1];
            let v: u32 = 0x10000 + ((w - 0xD800) as u32) * 1024 + ((lo - 0xDC00) as u32);
            assert(rest.subrange(2, rest.len() as int) =~= u.subrange(i + 2, u.len() as int));
            out.push(scalar_char(v));
            assert(out@ =~= prev + seq![pair_scalar(rest[0], rest[1]) as char]);
            i += 2;
        } else if 0xD800 <= w && w < 0xE000 {
            assert(rest.subrange(1, rest.len() as int) =~= u.subrange(i + 1, u.len() as int));
            out.push('\u{FFFD}');
            assert(out@ =~= prev + seq!['\u{FFFD}']);
            i += 1;
        } else {
            assert(rest.subrange(1, rest.len() as int) =~= u.subrange(i + 1, u.len() as int));
            out.push(scalar_char(w as u32));
            assert(out@ =~= prev + seq![rest[0] as char]);
            i += 1;
        }
    }
    assert(out@ + utf16_lossy(u.subrange(i as int, u.len() as int)) =~= out@);
    out
}

/// The code units of a name of `nbytes` bytes at `off`; an odd last byte is
/// dropped.
pub open spec fn name_units(b: Seq<u8>, off: int, nbytes: int) -> Seq<u16> {
    Seq::new((nbytes / 2) as nat, |k: int| le16(b, off + 2 * k) as u16)
}

/// `attrs` has any of the bits of `mask` set.
pub open spec fn has_bit(attrs: u32, mask: u32) -> bool {
    attrs & mask != 0
}

/// Whether a byte buffer is a well-formed `USN_RECORD_V2` as far as the
/// decoder checks: the fixed header is there and the name lies inside.
pub open spec fn record_fits(b: Seq<u8>) -> bool {
    b.len() >= 60 && le16(b, 58) + le16(b, 56) <= b.len()
}

/// The record that a well-formed `USN_RECORD_V2` buffer holds (little-endian
/// fields at their fixed offsets; the name in UTF-16 at `FileNameOffset`).
pub open spec fn record_of(b: Seq<u8>) -> RecordView {
    let reason = le32(b, 40) as u32;
    RecordView {
        usn: as_signed64(le64(b, 24)) as i64,
        frn: le64(b, 8) as u64,
        parent_frn: le64(b, 16) as u64,
        name: utf16_lossy(name_units(b, le16(b, 58), le16(b, 56))),
        is_dir: has_bit(le32(b, 52) as u32, FILE_ATTRIBUTE_DIRECTORY_BIT),
        reason: UsnReason {
            file_create: has_bit(reason, USN_REASON_FILE_CREATE),
            file_delete: has_bit(reason, USN_REASON_FILE_DELETE),
            rename_old_name: has_bit(reason, USN_REASON_RENAME_OLD_NAME),
            rename_new_name: has_bit(reason, USN_REASON_RENAME_NEW_NAME),
        },
    }
}

/// Decodes one raw `USN_RECORD_V2` (already cut to its `RecordLength`).
/// Layout: `RecordLength:u32 MajorVersion:u16 MinorVersion:u16
/// FileReferenceNumber:u64 ParentFileReferenceNumber:u64 Usn:i64
/// TimeStamp:i64 Reason:u32 SourceInfo:u32 SecurityId:u32
/// FileAttributes:u32 FileNameLength:u16 FileNameOffset:u16 FileName:[u16]`.
/// A buffer shorter than the header, or whose name runs past its end, gives
/// `None`.
pub fn parse_usn_record_v2_bytes(record: &[u8]) -> (r: Option<UsnRecord>)
    ensures
        match r {
            Some(rec) => record_fits(record@) && rec@ == record_of(record@),
            None => !record_fits(record@),
        },
{
    if record.len() < USN_RECORD_V2_HEADER_LEN {
        return None;
    }
    let frn = read_le64(record, 8);
    let parent_frn = read_le64(record, 16);
    let usn = u64_as_i64(read_le64(record, 24));
    let reason_bits = read_le32(record, 40);
    let file_attributes = read_le32(record, 52);
    let name_length = read_le16(record, 56) as usize;
    let name_offset = read_le16(record, 58) as usize;
    if name_offset + name_length > record.len() {
        return None;
    }
    let ghost b = record@;
    let len = record.len();
    let n = name_length / 2;
    let mut units: Vec<u16> = Vec::new();
    let mut k: usize = 0;
    while k < n
        invariant
            b == record@,
            n == name_length / 2,
            name_offset + name_length <= len,
            len == b.len(),
            k <= n,
            units@ =~= name_units(b, name_offset as int, name_length as int).take(k as int),
        decreases n - k,
    {
        let unit = read_le16(record, name_offset + 2 * k);
        units.push(unit);
        k += 1;
    }
    assert(units@ =~= name_units(b, name_offset as int, name_length as int));
    let chars = decode_utf16_lossy(&units);
    let name = string_from_chars(&chars);
    Some(
        UsnRecord {
            usn,
            frn,
            parent_frn,
            name,
            is_dir: file_attributes & FILE_ATTRIBUTE_DIRECTORY_BIT != 0,
            reason: UsnReason {
                file_create: reason_bits & USN_REASON_FILE_CREATE != 0,
                file_delete: reason_bits & USN_REASON_FILE_DELETE != 0,
                rename_old_name: reason_bits & USN_REASON_RENAME_OLD_NAME != 0,
                rename_new_name: reason_bits & USN_REASON_RENAME_NEW_NAME != 0,
            },
        },
    )
}

// ---------------------------------------------------------------------------
// Translation
// ---------------------------------------------------------------------------

/// What one record asks of the index.
#[derive(Debug, Clone, PartialEq, Eq)]
pub enum UsnOutcome {
    Upsert { path: String, is_dir: bool },
    Remove { path: String, is_dir: bool },
    Rename { from: String, to: String, to_is_dir: bool },
    /// Nothing to emit now (typically the first half of a rename).
    NoEvent,
}

/// The mathematical content of a [`UsnOutcome`].
pub enum OutcomeView {
    Upsert { path: Seq<char>, is_dir: bool },
    Remove { path: Seq<char>, is_dir: bool },
    Rename { from: Seq<char>, to: Seq<char>, to_is_dir: bool },
    NoEvent,
}

impl View for UsnOutcome {
    type V = OutcomeView;

    open spec fn view(&self) -> OutcomeView {
        match self {
            UsnOutcome::Upsert { path, is_dir } => OutcomeView::Upsert { path: path@, is_dir: *is_dir },
            UsnOutcome::Remove { path, is_dir } => OutcomeView::Remove { path: path@, is_dir: *is_dir },
            UsnOutcome::Rename { from, to, to_is_dir } => OutcomeView::Rename {
                from: from@,
                to: to@,
                to_is_dir: *to_is_dir,
            },
            UsnOutcome::NoEvent => OutcomeView::NoEvent,
        }
    }
}

/// The state of a translator: the FRN table, and the renames waiting for
/// their second half (FRN to the path before the rename).
#[verifier::ext_equal]
pub struct TranslatorView {
    pub table: TableView,
    pub pending: Map<u64, Seq<char>>,
}

/// The entry a record describes.
pub open spec fn entry_of(r: RecordView) -> EntryView {
    EntryView { parent_frn: r.parent_frn, name: r.name, is_dir: r.is_dir }
}

/// The table with the record's entry recorded.
pub open spec fn with_record(t: TableView, r: RecordView) -> TableView {
    TableView { entries: t.entries.insert(r.frn, entry_of(r)), roots: t.roots }
}

/// The table with `frn` forgotten.
pub open spec fn without_frn(t: TableView, frn: u64) -> TableView {
    TableView { entries: t.entries.remove(frn), roots: t.roots }
}

/// A creation or a change of content or attributes: the entry is recorded
/// and its path is upserted; a path that does not resolve (outside every
/// root) leaves no entry behind. A stale pending rename of the FRN is
/// dropped.
pub open spec fn upsert_step(s: TranslatorView, r: RecordView) -> (TranslatorView, OutcomeView) {
    let t1 = with_record(s.table, r);
    let p = s.pending.remove(r.frn);
    match resolve(t1, r.frn) {
        Some(path) => (
            TranslatorView { table: t1, pending: p },
            OutcomeView::Upsert { path, is_dir: r.is_dir },
        ),
        None => (TranslatorView { table: without_frn(s.table, r.frn), pending: p }, OutcomeView::NoEvent),
    }
}

/// The first half of a rename: the entry is recorded at its old place, whose
/// path (if it resolves) waits for the second half. Nothing is emitted.
pub open spec fn old_name_step(s: TranslatorView, r: RecordView) -> (TranslatorView, OutcomeView) {
    let t1 = with_record(s.table, r);
    match resolve(t1, r.frn) {
        Some(path) => (
            TranslatorView { table: t1, pending: s.pending.insert(r.frn, path) },
            OutcomeView::NoEvent,
        ),
        None => (TranslatorView { table: t1, pending: s.pending }, OutcomeView::NoEvent),
    }
}

/// The second half of a rename: the entry moves to its new place at once.
/// Paired with a waiting first half it is a rename (nothing when the path is
/// unchanged); moved out of every root it removes the old path; unpaired it
/// is an upsert of the new path.
pub open spec fn new_name_step(s: TranslatorView, r: RecordView) -> (TranslatorView, OutcomeView) {
    let t1 = with_record(s.table, r);
    let paired = s.pending.contains_key(r.frn);
    let out = match resolve(t1, r.frn) {
        None => if paired {
            OutcomeView::Remove { path: s.pending[r.frn], is_dir: r.is_dir }
        } else {
            OutcomeView::NoEvent
        },
        Some(to) => if paired {
            if s.pending[r.frn] == to {
                OutcomeView::NoEvent
            } else {
                OutcomeView::Rename { from: s.pending[r.frn], to, to_is_dir: r.is_dir }
            }
        } else {
            OutcomeView::Upsert { path: to, is_dir: r.is_dir }
        },
    };
    (TranslatorView { table: t1, pending: s.pending.remove(r.frn) }, out)
}

/// A delete: the FRN is forgotten. With a rename still waiting for its
/// second half, the old path is removed; otherwise the path that the record
/// itself describes.
pub open spec fn delete_step(s: TranslatorView, r: RecordView) -> (TranslatorView, OutcomeView) {
    if s.pending.contains_key(r.frn) {
        (
            TranslatorView {
                table: without_frn(s.table, r.frn),
                pending: s.pending.remove(r.frn),
            },
            OutcomeView::Remove { path: s.pending[r.frn], is_dir: r.is_dir },
        )
    } else {
        let out = match resolve(with_record(s.table, r), r.frn) {
            Some(path) => OutcomeView::Remove { path, is_dir: r.is_dir },
            None => OutcomeView::NoEvent,
        };
        (TranslatorView { table: without_frn(s.table, r.frn), pending: s.pending }, out)
    }
}

/// One record: the rename halves come first, then deletes; everything else
/// (creation, content or attribute changes) is an upsert.
pub open spec fn translate_step(s: TranslatorView, r: RecordView) -> (TranslatorView, OutcomeView) {
    if r.reason.rename_old_name {
        old_name_step(s, r)
    } else if r.reason.rename_new_name {
        new_name_step(s, r)
    } else if r.reason.file_delete {
        delete_step(s, r)
    } else {
        upsert_step(s, r)
    }
}

/// Rename pairing and the FRN table of one volume.
pub struct UsnTranslator {
    table: FrnTable,
    pending_renames: HashMap<u64, String>,
}

impl View for UsnTranslator {
    type V = TranslatorView;

    closed spec fn view(&self) -> TranslatorView {
        TranslatorView {
            table: self.table@,
            pending: self.pending_renames@.map_values(|s: String| s@),
        }
    }
}

fn entry_for(record: &UsnRecord) -> (e: FrnEntry)
    ensures
        e@ == entry_of(record@),
{
    FrnEntry { parent_frn: record.parent_frn, name: record.name.clone(), is_dir: record.is_dir }
}

impl UsnTranslator {
    /// A translator over `table`, with no rename waiting.
    pub fn new(table: FrnTable) -> (t: UsnTranslator)
        ensures
            t@.table == table@,
            t@.pending == Map::<u64, Seq<char>>::empty(),
    {
        let t = UsnTranslator { table, pending_renames: HashMap::new() };
        assert(t@.pending =~= Map::<u64, Seq<char>>::empty());
        t
    }

    /// The table as it stands.
    pub fn table(&self) -> (t: &FrnTable)
        ensures
            t@ == self@.table,
    {
        &self.table
    }

    /// Gives the table back (to hand it on to the live reader).
    pub fn into_table(self) -> (t: FrnTable)
        ensures
            t@ == self@.table,
    {
        self.table
    }

    proof fn lemma_pending_remove(&self, old_map: Map<u64, String>, frn: u64)
        requires
            self.pending_renames@ == old_map.remove(frn),
        ensures
            self@.pending == old_map.map_values(|s: String| s@).remove(frn),
    {
        assert(self@.pending =~= old_map.map_values(|s: String| s@).remove(frn));
    }

    fn take_pending(&mut self, frn: u64) -> (r: Option<String>)
        ensures
            final(self)@.table == old(self)@.table,
            final(self)@.pending == old(self)@.pending.remove(frn),
            match r {
                Some(p) => old(self)@.pending.contains_key(frn) && p@ == old(self)@.pending[frn],
                None => !old(self)@.pending.contains_key(frn),
            },
    {
        let ghost m = self.pending_renames@;
        let r = self.pending_renames.remove(&frn);
        proof {
            self.lemma_pending_remove(m, frn);
        }
        r
    }

    fn handle_upsert(&mut self, record: UsnRecord) -> (out: UsnOutcome)
        ensures
            (final(self)@, out@) == upsert_step(old(self)@, record@),
    {
        self.take_pending(record.frn);
        self.table.upsert(record.frn, entry_for(&record));
        match self.table.reconstruct_path(record.frn) {
            Some(path) => UsnOutcome::Upsert { path, is_dir: record.is_dir },
            None => {
                self.table.remove(record.frn);
                assert(self@.table =~= without_frn(old(self)@.table, record.frn));
                UsnOutcome::NoEvent
            },
        }
    }

    fn handle_rename_old_name(&mut self, record: UsnRecord) -> (out: UsnOutcome)
        ensures
            (final(self)@, out@) == old_name_step(old(self)@, record@),
    {
        self.table.upsert(record.frn, entry_for(&record));
        if let Some(from_path) = self.table.reconstruct_path(record.frn) {
            let ghost m = self.pending_renames@;
            let ghost p = from_path@;
            self.pending_renames.insert(record.frn, from_path);
            assert(self@.pending =~= old(self)@.pending.insert(record.frn, p));
        }
        UsnOutcome::NoEvent
    }

    fn handle_rename_new_name(&mut self, record: UsnRecord) -> (out: UsnOutcome)
        ensures
            (final(self)@, out@) == new_name_step(old(self)@, record@),
    {
        self.table.upsert(record.frn, entry_for(&record));
        let to = self.table.reconstruct_path(record.frn);
        let pending = self.take_pending(record.frn);
        match to {
            None => match pending {
                Some(from_path) => UsnOutcome::Remove { path: from_path, is_dir: record.is_dir },
                None => UsnOutcome::NoEvent,
            },
            Some(to_path) => match pending {
                Some(from_path) => {
                    if from_path == to_path {
                        UsnOutcome::NoEvent
                    } else {
                        UsnOutcome::Rename { from: from_path, to: to_path, to_is_dir: record.is_dir }
                    }
                },
                None => UsnOutcome::Upsert { path: to_path, is_dir: record.is_dir },
            },
        }
    }

    fn handle_delete(&mut self, record: UsnRecord) -> (out: UsnOutcome)
        ensures
            (final(self)@, out@) == delete_step(old(self)@, record@),
    {
        if let Some(from_path) = self.take_pending(record.frn) {
            self.table.remove(record.frn);
            assert(self@.table =~= without_frn(old(self)@.table, record.frn));
            return UsnOutcome::Remove { path: from_path, is_dir: record.is_dir };
        }
        self.table.upsert(record.frn, entry_for(&record));
        let path = self.table.reconstruct_path(record.frn);
        self.table.remove(record.frn);
        assert(self@.table =~= without_frn(old(self)@.table, record.frn));
        match path {
            Some(path) => UsnOutcome::Remove { path, is_dir: record.is_dir },
            None => UsnOutcome::NoEvent,
        }
    }

    /// Translates one record (see [`translate_step`]). A path that does not
    /// resolve yields no event; the caller may look the FRN up by other means.
    pub fn translate(&mut self, record: UsnRecord) -> (out: UsnOutcome)
        ensures
            (final(self)@, out@) == translate_step(old(self)@, record@),
    {
        if record.reason.rename_old_name {
            return self.handle_rename_old_name(record);
        }
        if record.reason.rename_new_name {
            return self.handle_rename_new_name(record);
        }
        if record.reason.file_delete {
            return self.handle_delete(record);
        }
        self.handle_upsert(record)
    }
}

// ---------------------------------------------------------------------------
// Laws of the translation
// ---------------------------------------------------------------------------

/// A record of the kind that only creates or changes a file.
pub open spec fn is_plain_change(r: RecordView) -> bool {
    !r.reason.rename_old_name && !r.reason.rename_new_name && !r.reason.file_delete
}

/// The two halves of a rename of one FRN pair into one rename event from the
/// old path to the new one; the first half alone emits nothing, and once
/// paired nothing is left waiting.
pub proof fn lemma_rename_halves_pair(
    s: TranslatorView,
    r1: RecordView,
    r2: RecordView,
    from: Seq<char>,
    to: Seq<char>,
)
    requires
        r1.frn == r2.frn,
        r1.reason.rename_old_name,
        !r2.reason.rename_old_name,
        r2.reason.rename_new_name,
        resolve(with_record(s.table, r1), r1.frn) == Some(from),
        resolve(with_record(s.table, r2), r2.frn) == Some(to),
        from != to,
    ensures
        translate_step(s, r1).1 == OutcomeView::NoEvent,
        translate_step(translate_step(s, r1).0, r2).1 == (OutcomeView::Rename {
            from,
            to,
            to_is_dir: r2.is_dir,
        }),
        !translate_step(translate_step(s, r1).0, r2).0.pending.contains_key(r2.frn),
{
    let s1 = translate_step(s, r1).0;
    assert(with_record(s1.table, r2) =~= with_record(s.table, r2));
}

/// A delete that arrives after the first half of a rename, before the
/// second, is not swallowed: it removes the old path, and the FRN is
/// forgotten.
pub proof fn lemma_rename_then_delete_removes_old_path(
    s: TranslatorView,
    r1: RecordView,
    r2: RecordView,
    from: Seq<char>,
)
    requires
        r1.frn == r2.frn,
        r1.reason.rename_old_name,
        !r2.reason.rename_old_name,
        !r2.reason.rename_new_name,
        r2.reason.file_delete,
        resolve(with_record(s.table, r1), r1.frn) == Some(from),
    ensures
        translate_step(translate_step(s, r1).0, r2).1 == (OutcomeView::Remove {
            path: from,
            is_dir: r2.is_dir,
        }),
        !translate_step(translate_step(s, r1).0, r2).0.table.entries.contains_key(r2.frn),
        !translate_step(translate_step(s, r1).0, r2).0.pending.contains_key(r2.frn),
{
}

/// After a delete the FRN is gone: neither the table nor the waiting
/// renames know it.
pub proof fn lemma_delete_forgets_frn(s: TranslatorView, r: RecordView)
    requires
        !r.reason.rename_old_name,
        !r.reason.rename_new_name,
        r.reason.file_delete,
    ensures
        !translate_step(s, r).0.table.entries.contains_key(r.frn),
        !translate_step(s, r).0.pending.contains_key(r.frn),
{
}

/// The table is brought up to date by every record at once: a rename half
/// records the entry it describes, a plain change records it whenever its
/// path resolves (and leaves nothing behind otherwise), a delete drops it.
pub proof fn lemma_table_follows_each_record(s: TranslatorView, r: RecordView)
    ensures
        (r.reason.rename_old_name || r.reason.rename_new_name) ==> (
        translate_step(s, r).0.table.entries.contains_key(r.frn)
            && translate_step(s, r).0.table.entries[r.frn] == entry_of(r)),
        is_plain_change(r) ==> (translate_step(s, r).0.table.entries.contains_key(r.frn) <==> resolve(
            with_record(s.table, r),
            r.frn,
        ) is Some),
        is_plain_change(r) && translate_step(s, r).0.table.entries.contains_key(r.frn)
            ==> translate_step(s, r).0.table.entries[r.frn] == entry_of(r),
        (!r.reason.rename_old_name && !r.reason.rename_new_name && r.reason.file_delete)
            ==> !translate_step(s, r).0.table.entries.contains_key(r.frn),
{
}

/// A record touches nothing but its own FRN: the other entries, the roots
/// and the other FRNs' waiting renames stay as they were, so interleaved
/// renames of different files pair independently.
pub proof fn lemma_other_frns_untouched(s: TranslatorView, r: RecordView)
    ensures
        translate_step(s, r).0.table.entries.remove(r.frn) == s.table.entries.remove(r.frn),
        translate_step(s, r).0.table.roots == s.table.roots,
        translate_step(s, r).0.pending.remove(r.frn) == s.pending.remove(r.frn),
{
    let n = translate_step(s, r).0;
    assert(n.table.entries.remove(r.frn) =~= s.table.entries.remove(r.frn));
    assert(n.pending.remove(r.frn) =~= s.pending.remove(r.frn));
}

/// A rename event never names the same path on both sides.
pub proof fn lemma_no_rename_onto_itself(s: TranslatorView, r: RecordView)
    ensures
        translate_step(s, r).1 matches OutcomeView::Rename { from, to, .. } ==> from != to,
{
}

/// Once a rename is paired, a later delete of the FRN removes the path the
/// delete record describes (its new place), not the old one.
pub proof fn lemma_delete_after_completed_rename(
    s: TranslatorView,
    r1: RecordView,
    r2: RecordView,
)
    requires
        r1.frn == r2.frn,
        !r1.reason.rename_old_name,
        r1.reason.rename_new_name,
        !r2.reason.rename_old_name,
        !r2.reason.rename_new_name,
        r2.reason.file_delete,
    ensures
        translate_step(translate_step(s, r1).0, r2).1 == match resolve(
            with_record(s.table, r2),
            r2.frn,
        ) {
            Some(path) => OutcomeView::Remove { path, is_dir: r2.is_dir },
            None => OutcomeView::NoEvent,
        },
{
    let s1 = translate_step(s, r1).0;
    assert(with_record(s1.table, r2) =~= with_record(s.table, r2));
}

} // verus!
