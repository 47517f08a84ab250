//! Reading the USN journal of a volume: splitting the buffer that one
//! `FSCTL_READ_USN_JOURNAL` call fills into records, turning translated
//! records into watch events, and the catch-up loop's bookkeeping.

use vstd::prelude::*;
use crate::frn_table::FrnTable;
use crate::usn_translate::{
    as_signed64, le32, le64, parse_usn_record_v2_bytes, read_le32, read_le64, record_fits,
    record_of, translate_step, u64_as_i64, OutcomeView, RecordView, TranslatorView, UsnOutcome,
    UsnRecord, UsnTranslator,
};

verus! {

/// One batch read from the journal: its records and where the next read
/// starts.
pub struct JournalReadBatch {
    pub records: Vec<UsnRecord>,
    pub next_usn: i64,
}

pub open spec fn records_view(v: Seq<UsnRecord>) -> Seq<RecordView> {
    v.map_values(|r: UsnRecord| r@)
}

/// The records of the buffer `b` (of which `end` bytes were filled) from
/// byte `offset` on: each starts with its `RecordLength`; a zero length, or
/// one that runs past the filled part, ends the batch; a record the decoder
/// refuses is skipped.
pub open spec fn journal_records(b: Seq<u8>, end: int, offset: int) -> Seq<RecordView>
    decreases end - offset,
{
    if offset < 0 || offset + 4 > end || end > b.len() {
        Seq::empty()
    } else {
        let rl = le32(b, offset);
        if rl == 0 || offset + rl > end {
            Seq::empty()
        } else {
            let rec = b.subrange(offset, offset + rl);
            let rest = journal_records(b, end, offset + rl);
            if record_fits(rec) {
                seq![record_of(rec)] + rest
            } else {
                rest
            }
        }
    }
}

fn copy_bytes(b: &[u8], from: usize, to: usize) -> (v: Vec<u8>)
    requires
        from <= to <= b@.len(),
    ensures
        v@ == b@.subrange(from as int, to as int),
{
    let mut v: Vec<u8> = Vec::new();
    let mut i = from;
    while i < to
        invariant
            from <= i <= to,
            to <= b@.len(),
            v@ == b@.subrange(from as int, i as int),
        decreases to - i,
    {
        v.push(b[i]);
        assert(b@.subrange(from as int, i + 1) =~= b@.subrange(from as int, i as int).push(b@[i as int]));
        i += 1;
    }
    v
}

/// Splits the filled part of a journal read buffer. Fewer than 8 bytes
/// means nothing was read: no records, and the next read starts where this
/// one did. Otherwise the first 8 bytes are the next USN.
pub fn parse_journal_buffer(buf: &[u8], bytes_returned: usize, start_usn: i64) -> (batch: JournalReadBatch)
    requires
        bytes_returned <= buf@.len(),
    ensures
        bytes_returned < 8 ==> batch.records@.len() == 0 && batch.next_usn == start_usn,
        bytes_returned >= 8 ==> batch.next_usn == as_signed64(le64(buf@, 0)) && records_view(
            batch.records@,
        ) == journal_records(buf@, bytes_returned as int, 8),
{
    if bytes_returned < 8 {
        return JournalReadBatch { records: Vec::new(), next_usn: start_usn };
    }
    let next_usn = u64_as_i64(read_le64(buf, 0));
    let end = bytes_returned;
    let mut records: Vec<UsnRecord> = Vec::new();
    let mut offset: usize = 8;
    assert(records_view(records@) =~= Seq::<RecordView>::empty());
    loop
        invariant_except_break
            8 <= offset <= end,
            end <= buf@.len(),
            journal_records(buf@, end as int, 8) == records_view(records@) + journal_records(
                buf@,
                end as int,
                offset as int,
            ),
        ensures
            journal_records(buf@, end as int, 8) == records_view(records@),
        decreases end - offset,
    {
        if end - offset < 4 {
            assert(journal_records(buf@, end as int, offset as int) == Seq::<RecordView>::empty());
            assert(records_view(records@) + Seq::<RecordView>::empty() =~= records_view(records@));
            break;
        }
        let rl = read_le32(buf, offset) as usize;
        if rl == 0 || rl > end - offset {
            assert(records_view(records@) + Seq::<RecordView>::empty() =~= records_view(records@));
            break;
        }
        let rec = copy_bytes(buf, offset, offset + rl);
        let ghost prev = records_view(records@);
        match parse_usn_record_v2_bytes(rec.as_slice()) {
            Some(r) => {
                records.push(r);
                assert(records_view(records@) =~= prev.push(r@));
                assert(prev.push(r@) + journal_records(buf@, end as int, offset + rl) =~= prev + (
                seq![r@] + journal_records(buf@, end as int, offset + rl)));
            },
            None => {},
        }
        offset = offset + rl;
    }
    JournalReadBatch { records, next_usn }
}

/// What the index is asked to do for a path.
#[derive(Debug, Clone, PartialEq, Eq)]
pub enum WatchEvent {
    /// Index (again) the file at the path.
    Upsert(String),
    /// Index the whole directory tree at the path (walked by the consumer).
    UpsertDir(String),
    /// Drop the file at the path.
    Remove(String),
    /// Drop everything under the directory at the path.
    RemoveDir(String),
    /// The file moved.
    Rename { from: String, to: String },
}

/// The mathematical content of a [`WatchEvent`].
pub enum EventView {
    Upsert(Seq<char>),
    UpsertDir(Seq<char>),
    Remove(Seq<char>),
    RemoveDir(Seq<char>),
    Rename { from: Seq<char>, to: Seq<char> },
}

impl View for WatchEvent {
    type V = EventView;

    open spec fn view(&self) -> EventView {
        match self {
            WatchEvent::Upsert(p) => EventView::Upsert(p@),
            WatchEvent::UpsertDir(p) => EventView::UpsertDir(p@),
            WatchEvent::Remove(p) => EventView::Remove(p@),
            WatchEvent::RemoveDir(p) => EventView::RemoveDir(p@),
            WatchEvent::Rename { from, to } => EventView::Rename { from: from@, to: to@ },
        }
    }
}

pub open spec fn events_view(v: Seq<WatchEvent>) -> Seq<EventView> {
    v.map_values(|e: WatchEvent| e@)
}

/// The events of a translated record: directories are marked as such (the
/// consumer walks them, not the journal reader); a directory that moves is
/// removed at the old path and upserted at the new one.
pub open spec fn events_of(o: OutcomeView) -> Seq<EventView> {
    match o {
        OutcomeView::NoEvent => Seq::empty(),
        OutcomeView::Upsert { path, is_dir } => if is_dir {
            seq![EventView::UpsertDir(path)]
        } else {
            seq![EventView::Upsert(path)]
        },
        OutcomeView::Remove { path, is_dir } => if is_dir {
            seq![EventView::RemoveDir(path)]
        } else {
            seq![EventView::Remove(path)]
        },
        OutcomeView::Rename { from, to, to_is_dir } => if to_is_dir {
            seq![EventView::RemoveDir(from), EventView::UpsertDir(to)]
        } else {
            seq![EventView::Rename { from, to }]
        },
    }
}

/// The events of a translated record (see [`events_of`]).
pub fn outcome_to_events(outcome: UsnOutcome) -> (v: Vec<WatchEvent>)
    ensures
        events_view(v@) == events_of(outcome@),
{
    let v = match outcome {
        UsnOutcome::NoEvent => Vec::new(),
        UsnOutcome::Upsert { path, is_dir } => {
            if is_dir {
                vec![WatchEvent::UpsertDir(path)]
            } else {
                vec![WatchEvent::Upsert(path)]
            }
        },
        UsnOutcome::Remove { path, is_dir } => {
            if is_dir {
                vec![WatchEvent::RemoveDir(path)]
            } else {
                vec![WatchEvent::Remove(path)]
            }
        },
        UsnOutcome::Rename { from, to, to_is_dir } => {
            if to_is_dir {
                vec![WatchEvent::RemoveDir(from), WatchEvent::UpsertDir(to)]
            } else {
                vec![WatchEvent::Rename { from, to }]
            }
        },
    };
    assert(events_view(v@) =~= events_of(outcome@));
    v
}

/// The path an event acts on (where a file moved to, for a move).
pub open spec fn event_target(e: EventView) -> Seq<char> {
    match e {
        EventView::Upsert(p) => p,
        EventView::UpsertDir(p) => p,
        EventView::Remove(p) => p,
        EventView::RemoveDir(p) => p,
        EventView::Rename { from, to } => to,
    }
}

/// Whether an event takes a whole directory tree.
pub open spec fn event_is_dir(e: EventView) -> bool {
    e is UpsertDir || e is RemoveDir
}

/// Whether an event drops what is at its path from the index.
pub open spec fn event_drops(e: EventView) -> bool {
    e is Remove || e is RemoveDir
}

/// Each outcome becomes the events that do what it says, and no other: a
/// removal drops its path, and drops the whole tree when a directory went
/// (never just a file at that path); an upsert indexes its path, the whole
/// tree for a directory; a file that moved is one move from the old path to
/// the new; a directory that moved is dropped as a tree at the old path and
/// indexed as a tree at the new; nothing to do gives no event.
pub proof fn lemma_events_do_what_the_outcome_says(o: OutcomeView)
    ensures
        match o {
            OutcomeView::Remove { path, is_dir } => events_of(o).len() == 1 && event_drops(
                events_of(o)[0],
            ) && event_target(events_of(o)[0]) == path && event_is_dir(events_of(o)[0]) == is_dir,
            OutcomeView::Upsert { path, is_dir } => events_of(o).len() == 1 && !event_drops(
                events_of(o)[0],
            ) && event_target(events_of(o)[0]) == path && event_is_dir(events_of(o)[0]) == is_dir,
            OutcomeView::Rename { from, to, to_is_dir } => if to_is_dir {
                &&& events_of(o).len() == 2
                &&& event_drops(events_of(o)[0]) && event_is_dir(events_of(o)[0])
                    && event_target(events_of(o)[0]) == from
                &&& !event_drops(events_of(o)[1]) && event_is_dir(events_of(o)[1])
                    && event_target(events_of(o)[1]) == to
            } else {
                events_of(o) == seq![EventView::Rename { from, to }]
            },
            OutcomeView::NoEvent => events_of(o).len() == 0,
        },
{
}

/// The translator state and the events after translating `recs` in order.
pub open spec fn translate_all(s: TranslatorView, recs: Seq<RecordView>) -> (TranslatorView, Seq<EventView>)
    decreases recs.len(),
{
    if recs.len() == 0 {
        (s, Seq::empty())
    } else {
        let prev = translate_all(s, recs.drop_last());
        let step = translate_step(prev.0, recs.last());
        (step.0, prev.1 + events_of(step.1))
    }
}

/// Translates a batch of records in order, appending their events; returns
/// the number of records read.
pub fn translate_batch(translator: &mut UsnTranslator, records: Vec<UsnRecord>, events: &mut Vec<WatchEvent>) -> (n: usize)
    ensures
        n == records@.len(),
        (final(translator)@, events_view(final(events)@)) == {
            let r = translate_all(old(translator)@, records_view(records@));
            (r.0, events_view(old(events)@) + r.1)
        },
{
    let ghost recs = records_view(records@);
    let n = records.len();
    let mut records = records;
    let mut i: usize = 0;
    assert(events_view(events@) =~= events_view(old(events)@) + translate_all(
        old(translator)@,
        recs.take(0),
    ).1);
    while i < n
        invariant
            i <= n,
            n == recs.len(),
            records@.len() == n - i,
            forall|j: int| 0 <= j < records@.len() ==> #[trigger] records@[j]@ == recs[i + j],
            (translator@, events_view(events@)) == {
                let r = translate_all(old(translator)@, recs.take(i as int));
                (r.0, events_view(old(events)@) + r.1)
            },
        decreases n - i,
    {
        let rec = records.remove(0);
        assert(rec@ == recs[i as int]);
        assert(recs.take(i + 1).drop_last() =~= recs.take(i as int));
        assert(recs.take(i + 1).last() == recs[i as int]);
        let outcome = translator.translate(rec);
        let mut evs = outcome_to_events(outcome);
        let ghost before = events_view(events@);
        let ghost added = events_view(evs@);
        events.append(&mut evs);
        assert(events_view(events@) =~= before + added);
        assert(forall|j: int| 0 <= j < records@.len() ==> #[trigger] records@[j]@ == recs[i + 1 + j]);
        i += 1;
    }
    assert(recs.take(n as int) =~= recs);
    n
}

/// Whether the catch-up goes on reading: the journal position has not yet
/// reached the one taken when the catch-up began.
pub fn catchup_continues(current_usn: i64, target_usn: i64) -> (b: bool)
    ensures
        b == (current_usn < target_usn),
{
    current_usn < target_usn
}

/// Where the catch-up goes after a batch: nowhere (it is over) when the
/// batch brought nothing and no progress, else to the batch's next USN.
pub fn catchup_next(current_usn: i64, batch_was_empty: bool, batch_next_usn: i64) -> (r: Option<i64>)
    ensures
        r == (if batch_was_empty && batch_next_usn <= current_usn {
            None
        } else {
            Some(batch_next_usn)
        }),
{
    if batch_was_empty && batch_next_usn <= current_usn {
        None
    } else {
        Some(batch_next_usn)
    }
}

/// The state of a catch-up run: the translator (its FRN table and pending
/// renames), where the run is in the journal, the position it stops at
/// (the journal's next USN when the run began), the records read and the
/// events produced so far, and whether the journal had nothing more.
pub struct CatchupView {
    pub translator: TranslatorView,
    pub current_usn: i64,
    pub target_usn: i64,
    pub records_read: usize,
    pub events: Seq<EventView>,
    pub exhausted: bool,
}

/// Replays the journal from a saved cursor up to where it stood when the
/// replay began, translating the records into index changes.
pub struct Catchup {
    translator: UsnTranslator,
    current_usn: i64,
    target_usn: i64,
    records_read: usize,
    events: Vec<WatchEvent>,
    exhausted: bool,
}

impl View for Catchup {
    type V = CatchupView;

    closed spec fn view(&self) -> CatchupView {
        CatchupView {
            translator: self.translator@,
            current_usn: self.current_usn,
            target_usn: self.target_usn,
            records_read: self.records_read,
            events: events_view(self.events@),
            exhausted: self.exhausted,
        }
    }
}

/// Whether a run in state `c` reads another batch.
pub open spec fn catchup_wants(c: CatchupView) -> bool {
    !c.exhausted && c.current_usn < c.target_usn
}

/// The run after a batch: a batch that brought no record and no progress
/// means the journal has nothing more; otherwise its records are
/// translated in order and the run moves to the batch's next USN.
pub open spec fn catchup_after(c: CatchupView, records: Seq<RecordView>, next_usn: i64) -> CatchupView {
    if records.len() == 0 && next_usn <= c.current_usn {
        CatchupView { exhausted: true, ..c }
    } else {
        let r = translate_all(c.translator, records);
        CatchupView {
            translator: r.0,
            current_usn: next_usn,
            records_read: if c.records_read + records.len() > usize::MAX {
                usize::MAX
            } else {
                (c.records_read + records.len()) as usize
            },
            events: c.events + r.1,
            ..c
        }
    }
}

impl Catchup {
    /// A run starting at `start_usn` (the saved cursor) that stops at
    /// `target_usn`, with the table the volume's files were enumerated into.
    pub fn new(table: FrnTable, start_usn: i64, target_usn: i64) -> (c: Catchup)
        ensures
            c@.translator.table == table@,
            c@.translator.pending == Map::<u64, Seq<char>>::empty(),
            c@.current_usn == start_usn,
            c@.target_usn == target_usn,
            c@.records_read == 0,
            c@.events == Seq::<EventView>::empty(),
            !c@.exhausted,
    {
        let c = Catchup {
            translator: UsnTranslator::new(table),
            current_usn: start_usn,
            target_usn,
            records_read: 0,
            events: Vec::new(),
            exhausted: false,
        };
        assert(c@.events =~= Seq::<EventView>::empty());
        c
    }

    /// Where the next read starts.
    pub fn current_usn(&self) -> (u: i64)
        ensures
            u == self@.current_usn,
    {
        self.current_usn
    }

    /// Whether to read another batch (see [`catchup_wants`]).
    pub fn wants_more(&self) -> (b: bool)
        ensures
            b == catchup_wants(self@),
    {
        !self.exhausted && catchup_continues(self.current_usn, self.target_usn)
    }

    /// Takes in one batch read from `current_usn` (see [`catchup_after`]).
    pub fn feed(&mut self, batch: JournalReadBatch)
        ensures
            final(self)@ == catchup_after(old(self)@, records_view(batch.records@), batch.next_usn),
    {
        let was_empty = batch.records.len() == 0;
        match catchup_next(self.current_usn, was_empty, batch.next_usn) {
            None => {
                self.exhausted = true;
            },
            Some(next) => {
                let n = translate_batch(&mut self.translator, batch.records, &mut self.events);
                self.records_read = self.records_read.saturating_add(n);
                self.current_usn = next;
            },
        }
    }

    /// Ends the run: the table (to hand on to the live reader), the events,
    /// the number of records read, and where the cursor now stands.
    pub fn finish(self) -> (r: (FrnTable, Vec<WatchEvent>, usize, i64))
        ensures
            r.0@ == self@.translator.table,
            events_view(r.1@) == self@.events,
            r.2 == self@.records_read,
            r.3 == self@.current_usn,
    {
        (self.translator.into_table(), self.events, self.records_read, self.current_usn)
    }
}

/// Counts of a catch-up run.
#[derive(Debug, Clone, Copy, PartialEq, Eq, Structural)]
pub struct CatchupStats {
    pub records_read: usize,
    pub upserted: usize,
    pub removed: usize,
    pub skipped: usize,
}

impl Default for CatchupStats {
    fn default() -> (s: CatchupStats)
        ensures
            s == (CatchupStats { records_read: 0, upserted: 0, removed: 0, skipped: 0 }),
    {
        CatchupStats { records_read: 0, upserted: 0, removed: 0, skipped: 0 }
    }
}

} // verus!
