//! A cursor-based event log with undo/redo and named checkpoints.
use vstd::prelude::*;
use crate::text::{concat2, debug_quoted, debug_text};
use crate::text_map::{TextMap, values_shifted_above};

verus! {

/// Marker for checkpoint entries in the event log.
struct CheckpointEntry {
    name: String,
}

/// Internal entry: either a real event or a checkpoint sentinel.
enum Entry<T> {
    Event(T),
    Checkpoint(CheckpointEntry),
}

/// An entry of the log as seen by contracts: an event, or a checkpoint with
/// its name.
pub enum LogSlot<T> {
    Event(T),
    Checkpoint(Seq<char>),
}

/// The state of an event log: its entries, the cursor (one past the last
/// applied entry) and the position recorded for each checkpoint name.
pub struct EventLogModel<T> {
    pub slots: Seq<LogSlot<T>>,
    pub cursor: nat,
    pub checkpoints: Map<Seq<char>, usize>,
}

/// Generic cursor-based event log with undo/redo and named checkpoints.
///
/// Events are appended at the cursor position. The cursor always points one
/// past the last applied event. Undo moves the cursor back; redo moves it
/// forward. Appending a new event truncates the redo tail.
///
/// Checkpoint sentinels are stored in the log but skipped during undo/redo
/// traversal.
pub struct EventLog<T> {
    events: Vec<Entry<T>>,
    cursor: usize,
    checkpoints: TextMap<usize>,
}

impl<T> View for EventLog<T> {
    type V = EventLogModel<T>;

    closed spec fn view(&self) -> EventLogModel<T> {
        EventLogModel {
            slots: self.events@.map_values(
                |e: Entry<T>|
                    match e {
                        Entry::Event(v) => LogSlot::Event(v),
                        Entry::Checkpoint(c) => LogSlot::Checkpoint(c.name@),
                    },
            ),
            cursor: self.cursor as nat,
            checkpoints: self.checkpoints@,
        }
    }
}

/// A well-formed log state: the cursor lies within the entries (whose number
/// fits a `usize`) and every checkpoint records a position within them.
pub open spec fn model_wf<T>(m: EventLogModel<T>) -> bool {
    &&& m.cursor <= m.slots.len() <= usize::MAX
    &&& forall|k: Seq<char>| #[trigger] m.checkpoints.dom().contains(k) ==> m.checkpoints[k] <= m.slots.len()
}

/// The events among the entries at positions `lo..hi`, oldest first.
pub open spec fn events_between<T>(s: Seq<LogSlot<T>>, lo: int, hi: int) -> Seq<T>
    decreases hi - lo,
{
    if hi <= lo {
        seq![]
    } else {
        events_between(s, lo, hi - 1) + match s[hi - 1] {
            LogSlot::Event(e) => seq![e],
            LogSlot::Checkpoint(_) => seq![],
        }
    }
}

/// Undoing up to `count` events from position `pos`: the events passed over
/// (most recent first) and the position where the walk stops. The walk stops
/// at an undone event once `count` events are undone, or at the start.
pub open spec fn undo_walk<T>(s: Seq<LogSlot<T>>, pos: int, count: nat) -> (Seq<T>, int)
    decreases pos,
{
    if pos <= 0 || count == 0 {
        (seq![], pos)
    } else {
        match s[pos - 1] {
            LogSlot::Event(e) => {
                let (r, p) = undo_walk(s, pos - 1, (count - 1) as nat);
                (seq![e] + r, p)
            },
            LogSlot::Checkpoint(_) => undo_walk(s, pos - 1, count),
        }
    }
}

/// Redoing up to `count` events from position `pos`: the events passed over
/// (oldest first) and the position where the walk stops, just after the last
/// redone event or at the end.
pub open spec fn redo_walk<T>(s: Seq<LogSlot<T>>, pos: int, count: nat) -> (Seq<T>, int)
    decreases s.len() - pos,
{
    if pos < 0 || pos >= s.len() || count == 0 {
        (seq![], pos)
    } else {
        match s[pos] {
            LogSlot::Event(e) => {
                let (r, p) = redo_walk(s, pos + 1, (count - 1) as nat);
                (seq![e] + r, p)
            },
            LogSlot::Checkpoint(_) => redo_walk(s, pos + 1, count),
        }
    }
}

/// `out` is, element by element, a clone of `src`.
pub open spec fn clones_of<T: Clone>(src: Seq<T>, out: Seq<T>) -> bool {
    &&& out.len() == src.len()
    &&& forall|i: int| 0 <= i < src.len() ==> cloned(src[i], #[trigger] out[i])
}

/// The checkpoints that survive truncating the log to `len` entries.
pub open spec fn kept_checkpoints(c: Map<Seq<char>, usize>, len: nat) -> Map<Seq<char>, usize> {
    Map::new(|k: Seq<char>| c.dom().contains(k) && c[k] <= len, |k: Seq<char>| c[k])
}

/// The log after appending `event`: the redo tail is dropped (with the
/// checkpoints that pointed into it) and the event becomes the last applied
/// entry.
pub open spec fn appended<T>(m: EventLogModel<T>, event: T) -> EventLogModel<T> {
    EventLogModel {
        slots: m.slots.take(m.cursor as int).push(LogSlot::Event(event)),
        cursor: m.cursor + 1,
        checkpoints: kept_checkpoints(m.checkpoints, m.cursor),
    }
}

/// The log after recording checkpoint `name` at the current cursor: a
/// checkpoint entry is inserted at the cursor and the cursor moves past it, so
/// the applied events and the redo tail stay as they were. The name records
/// the cursor's position; positions recorded after the cursor move up by one
/// with the entries behind them.
pub open spec fn checkpointed<T>(m: EventLogModel<T>, name: Seq<char>) -> EventLogModel<T> {
    EventLogModel {
        slots: m.slots.insert(m.cursor as int, LogSlot::Checkpoint(name)),
        cursor: m.cursor + 1,
        checkpoints: values_shifted_above(m.checkpoints, m.cursor as usize).insert(name, m.cursor as usize),
    }
}

/// The events that `recent(count)` reports: the last `count` events before
/// the cursor (all of them when `count` is 0), oldest first.
pub open spec fn recent_events<T>(m: EventLogModel<T>, count: nat) -> Seq<T> {
    let all = events_between(m.slots, 0, m.cursor as int);
    let limit = if count == 0 {
        m.cursor
    } else {
        count
    };
    if limit >= all.len() {
        all
    } else {
        all.skip(all.len() - limit)
    }
}

/// Undoing to a checkpoint is possible: it exists and lies before the cursor.
pub open spec fn can_undo_to<T>(m: EventLogModel<T>, name: Seq<char>) -> bool {
    m.checkpoints.dom().contains(name) && m.checkpoints[name] < m.cursor
}

/// The message of a refused undo to a checkpoint.
pub open spec fn cannot_undo_to_text(name: Seq<char>) -> Seq<char> {
    "cannot undo to "@ + debug_text(name)
}

pub proof fn lemma_events_between_split<T>(s: Seq<LogSlot<T>>, lo: int, mid: int, hi: int)
    requires
        lo <= mid <= hi,
    ensures
        events_between(s, lo, hi) == events_between(s, lo, mid) + events_between(s, mid, hi),
    decreases hi - mid,
{
    if hi == mid {
        assert(events_between(s, mid, hi) =~= Seq::<T>::empty());
        assert(events_between(s, lo, mid) + events_between(s, mid, hi) =~= events_between(s, lo, mid));
    } else {
        lemma_events_between_split(s, lo, mid, hi - 1);
        let tail = match s[hi - 1] {
            LogSlot::Event(e) => seq![e],
            LogSlot::Checkpoint(_) => seq![],
        };
        assert(events_between(s, lo, mid) + events_between(s, mid, hi) =~= (events_between(s, lo, mid)
            + events_between(s, mid, hi - 1)) + tail);
    }
}

impl<T: Clone> EventLog<T> {
    /// The log is well formed.
    pub open spec fn wf(&self) -> bool {
        model_wf(self@)
    }

    /// Creates a new empty event log.
    pub fn new() -> (log: Self)
        ensures
            log.wf(),
            log@.slots == Seq::<LogSlot<T>>::empty(),
            log@.cursor == 0,
            log@.checkpoints == Map::<Seq<char>, usize>::empty(),
    {
        let log = EventLog { events: Vec::new(), cursor: 0, checkpoints: TextMap::new() };
        assert(log@.slots =~= Seq::<LogSlot<T>>::empty());
        log
    }

    /// Appends an event, truncating any redo history beyond the cursor.
    pub fn append(&mut self, event: T)
        requires
            old(self).wf(),
        ensures
            final(self).wf(),
            final(self)@ == appended(old(self)@, event),
    {
        let ghost m = self@;
        if self.cursor < self.events.len() {
            self.events.truncate(self.cursor);
            self.checkpoints.retain_at_most(self.cursor);
        }
        self.events.push(Entry::Event(event));
        self.cursor = self.events.len();
        assert(self@.slots =~= m.slots.take(m.cursor as int).push(LogSlot::Event(event)));
        assert(self@.checkpoints =~= kept_checkpoints(m.checkpoints, m.cursor));
    }

    /// Creates a named checkpoint at the current cursor position.
    pub fn checkpoint(&mut self, name: &str)
        requires
            old(self).wf(),
        ensures
            final(self).wf(),
            final(self)@ == checkpointed(old(self)@, name@),
    {
        let ghost m = self@;
        let at = self.cursor;
        self.events.insert(at, Entry::Checkpoint(CheckpointEntry { name: String::from_str(name) }));
        assert(self@.slots =~= m.slots.insert(at as int, LogSlot::Checkpoint(name@)));
        let len_after = self.events.len();
        assert(len_after == m.slots.len() + 1);
        assert forall|k: Seq<char>| #[trigger] self.checkpoints@.dom().contains(k) && self.checkpoints@[k] > at
            implies self.checkpoints@[k] < usize::MAX by {
            assert(m.checkpoints.dom().contains(k));
        }
        self.checkpoints.shift_above(at);
        self.checkpoints.insert(String::from_str(name), at);
        self.cursor = at + 1;
        assert forall|k: Seq<char>| #[trigger] self@.checkpoints.dom().contains(k) implies
            self@.checkpoints[k] <= self@.slots.len() by {
            if k != name@ {
                assert(m.checkpoints.dom().contains(k));
            }
        }
    }

    /// Undoes up to `count` non-checkpoint events. Returns events in reverse
    /// order (most recent first) for the caller to reverse-apply.
    pub fn undo(&mut self, count: usize) -> (undone: Vec<T>)
        requires
            old(self).wf(),
        ensures
            final(self).wf(),
            ({
                let (evs, pos) = undo_walk(old(self)@.slots, old(self)@.cursor as int, count as nat);
                &&& clones_of(evs, undone@)
                &&& final(self)@ == EventLogModel { cursor: pos as nat, ..old(self)@ }
            }),
    {
        let ghost m = self@;
        let ghost c0 = m.cursor as int;
        let mut result: Vec<T> = Vec::new();
        let ghost mut done: Seq<T> = seq![];
        let mut pos = self.cursor;
        let mut undone: usize = 0;
        while pos > 0 && undone < count
            invariant
                self@ == m,
                model_wf(m),
                c0 == m.cursor as int,
                pos <= m.cursor,
                undone <= count,
                undone == done.len(),
                clones_of(done, result@),
                undo_walk(m.slots, c0, count as nat).0 == done + undo_walk(
                    m.slots,
                    pos as int,
                    (count - undone) as nat,
                ).0,
                undo_walk(m.slots, c0, count as nat).1 == undo_walk(
                    m.slots,
                    pos as int,
                    (count - undone) as nat,
                ).1,
            decreases pos,
        {
            let ghost rest = (count - undone) as nat;
            match &self.events[pos - 1] {
                Entry::Event(ev) => {
                    let c = ev.clone();
                    result.push(c);
                    proof {
                        let (r, p) = undo_walk(m.slots, pos - 1, (rest - 1) as nat);
                        assert(undo_walk(m.slots, pos as int, rest).0 == seq![*ev] + r);
                        assert(done + (seq![*ev] + r) =~= done.push(*ev) + r);
                        done = done.push(*ev);
                    }
                    undone += 1;
                },
                Entry::Checkpoint(_) => {},
            }
            pos -= 1;
        }
        proof {
            assert(undo_walk(m.slots, pos as int, (count - undone) as nat).0 =~= Seq::<T>::empty());
            assert(done + Seq::<T>::empty() =~= done);
        }
        self.cursor = pos;
        result
    }

    /// Undoes to a named checkpoint. Returns events in reverse order. Returns
    /// an error if the checkpoint doesn't exist or is at or beyond the cursor.
    pub fn undo_to(&mut self, name: &str) -> (r: Result<Vec<T>, String>)
        requires
            old(self).wf(),
        ensures
            final(self).wf(),
            match r {
                Ok(undone) => {
                    let m = old(self)@;
                    let target = m.checkpoints[name@];
                    &&& can_undo_to(m, name@)
                    &&& clones_of(events_between(m.slots, target as int, m.cursor as int).reverse(), undone@)
                    &&& final(self)@ == EventLogModel { cursor: target as nat, ..m }
                },
                Err(msg) => {
                    &&& !can_undo_to(old(self)@, name@)
                    &&& msg@ == cannot_undo_to_text(name@)
                    &&& *final(self) == *old(self)
                },
            },
    {
        let ghost m = self@;
        let target = match self.checkpoints.get(name) {
            Some(t) => *t,
            None => {
                return Err(concat2("cannot undo to ", debug_quoted(name).as_str()));
            },
        };
        if target >= self.cursor {
            return Err(concat2("cannot undo to ", debug_quoted(name).as_str()));
        }
        let mut result: Vec<T> = Vec::new();
        let mut i = self.cursor;
        let ghost c0 = m.cursor as int;
        assert(events_between(m.slots, c0, c0).reverse() =~= Seq::<T>::empty());
        while i > target
            invariant
                self@ == m,
                model_wf(m),
                c0 == m.cursor as int,
                target <= i <= m.cursor,
                clones_of(events_between(m.slots, i as int, c0).reverse(), result@),
            decreases i,
        {
            let ghost prev = events_between(m.slots, i as int, c0);
            proof {
                lemma_events_between_split(m.slots, i - 1, i as int, c0);
                assert(events_between(m.slots, i - 1, i as int) == events_between(m.slots, i - 1, i - 1)
                    + match m.slots[i - 1] {
                    LogSlot::Event(e) => seq![e],
                    LogSlot::Checkpoint(_) => seq![],
                });
                assert(events_between(m.slots, i - 1, i - 1) =~= Seq::<T>::empty());
            }
            match &self.events[i - 1] {
                Entry::Event(ev) => {
                    let c = ev.clone();
                    result.push(c);
                    assert((seq![*ev] + prev).reverse() =~= prev.reverse().push(*ev));
                },
                Entry::Checkpoint(_) => {
                    assert((Seq::<T>::empty() + prev) =~= prev);
                },
            }
            i -= 1;
        }
        self.cursor = target;
        Ok(result)
    }

    /// Redoes up to `count` non-checkpoint events. Returns events in forward
    /// order for the caller to re-apply.
    pub fn redo(&mut self, count: usize) -> (redone: Vec<T>)
        requires
            old(self).wf(),
        ensures
            final(self).wf(),
            ({
                let (evs, pos) = redo_walk(old(self)@.slots, old(self)@.cursor as int, count as nat);
                &&& clones_of(evs, redone@)
                &&& final(self)@ == EventLogModel { cursor: pos as nat, ..old(self)@ }
            }),
    {
        let ghost m = self@;
        let ghost c0 = m.cursor as int;
        let mut result: Vec<T> = Vec::new();
        let ghost mut done: Seq<T> = seq![];
        let mut pos = self.cursor;
        let mut redone: usize = 0;
        while pos < self.events.len() && redone < count
            invariant
                self@ == m,
                model_wf(m),
                c0 == m.cursor as int,
                m.cursor <= pos <= m.slots.len(),
                self.events@.len() == m.slots.len(),
                redone <= count,
                redone == done.len(),
                clones_of(done, result@),
                redo_walk(m.slots, c0, count as nat).0 == done + redo_walk(
                    m.slots,
                    pos as int,
                    (count - redone) as nat,
                ).0,
                redo_walk(m.slots, c0, count as nat).1 == redo_walk(
                    m.slots,
                    pos as int,
                    (count - redone) as nat,
                ).1,
            decreases m.slots.len() - pos,
        {
            let ghost rest = (count - redone) as nat;
            match &self.events[pos] {
                Entry::Event(ev) => {
                    let c = ev.clone();
                    result.push(c);
                    proof {
                        let (r, p) = redo_walk(m.slots, pos + 1, (rest - 1) as nat);
                        assert(redo_walk(m.slots, pos as int, rest).0 == seq![*ev] + r);
                        assert(done + (seq![*ev] + r) =~= done.push(*ev) + r);
                        done = done.push(*ev);
                    }
                    redone += 1;
                },
                Entry::Checkpoint(_) => {},
            }
            pos += 1;
        }
        proof {
            assert(redo_walk(m.slots, pos as int, (count - redone) as nat).0 =~= Seq::<T>::empty());
            assert(done + Seq::<T>::empty() =~= done);
        }
        self.cursor = pos;
        result
    }

    /// Returns the last `count` non-checkpoint events (up to the cursor) in
    /// chronological order (oldest first). If `count` is 0, returns all.
    pub fn recent(&self, count: usize) -> (r: Vec<T>)
        requires
            self.wf(),
        ensures
            clones_of(recent_events(self@, count as nat), r@),
    {
        let ghost m = self@;
        let ghost c0 = m.cursor as int;
        let limit = if count == 0 {
            self.cursor
        } else {
            count
        };
        let mut pos = self.cursor;
        let mut found: usize = 0;
        assert(events_between(m.slots, c0, c0) =~= Seq::<T>::empty());
        while pos > 0 && found < limit
            invariant
                self@ == m,
                model_wf(m),
                c0 == m.cursor as int,
                pos <= m.cursor,
                found <= limit,
                found == events_between(m.slots, pos as int, c0).len(),
            decreases pos,
        {
            proof {
                lemma_events_between_split(m.slots, pos - 1, pos as int, c0);
                assert(events_between(m.slots, pos - 1, pos - 1) =~= Seq::<T>::empty());
            }
            match &self.events[pos - 1] {
                Entry::Event(_) => {
                    found += 1;
                },
                Entry::Checkpoint(_) => {},
            }
            pos -= 1;
        }
        let start = pos;
        let mut result: Vec<T> = Vec::new();
        let mut i = start;
        assert(events_between(m.slots, start as int, start as int) =~= Seq::<T>::empty());
        while i < self.cursor
            invariant
                self@ == m,
                model_wf(m),
                c0 == m.cursor as int,
                start <= i <= m.cursor,
                self.cursor == m.cursor,
                clones_of(events_between(m.slots, start as int, i as int), result@),
            decreases m.cursor - i,
        {
            match &self.events[i] {
                Entry::Event(ev) => {
                    let c = ev.clone();
                    result.push(c);
                },
                Entry::Checkpoint(_) => {
                    assert(events_between(m.slots, start as int, i + 1) =~= events_between(
                        m.slots,
                        start as int,
                        i as int,
                    ));
                },
            }
            i += 1;
        }
        proof {
            lemma_events_between_split(m.slots, 0, start as int, c0);
            let all = events_between(m.slots, 0, c0);
            let tail = events_between(m.slots, start as int, c0);
            if start == 0 {
                assert(events_between(m.slots, 0, 0) =~= Seq::<T>::empty());
                assert(all =~= tail);
                if limit < all.len() {
                    assert(found == limit);
                    assert(all.skip(0) =~= all);
                }
            } else {
                assert(found == limit);
                assert(all.skip(all.len() - limit) =~= tail);
            }
        }
        result
    }

    /// Returns the current cursor position (one past the last applied event).
    pub fn cursor(&self) -> (c: usize)
        ensures
            c == self@.cursor,
    {
        self.cursor
    }

    /// Returns the total number of entries in the log (including checkpoints).
    pub fn length(&self) -> (n: usize)
        ensures
            n == self@.slots.len(),
    {
        self.events.len()
    }

    /// Returns whether there are events before the cursor that can be undone.
    pub fn can_undo(&self) -> (r: bool)
        requires
            self.wf(),
        ensures
            r == (events_between(self@.slots, 0, self@.cursor as int).len() > 0),
    {
        let ghost m = self@;
        let ghost c0 = m.cursor as int;
        let mut i = self.cursor;
        assert(events_between(m.slots, c0, c0) =~= Seq::<T>::empty());
        while i > 0
            invariant
                self@ == m,
                model_wf(m),
                c0 == m.cursor as int,
                i <= m.cursor,
                events_between(m.slots, i as int, c0).len() == 0,
            decreases i,
        {
            proof {
                lemma_events_between_split(m.slots, i - 1, i as int, c0);
                assert(events_between(m.slots, i - 1, i - 1) =~= Seq::<T>::empty());
                lemma_events_between_split(m.slots, 0, i - 1, c0);
            }
            match &self.events[i - 1] {
                Entry::Event(_) => {
                    return true;
                },
                Entry::Checkpoint(_) => {},
            }
            i -= 1;
        }
        false
    }

    /// Returns whether there are events after the cursor that can be redone.
    pub fn can_redo(&self) -> (r: bool)
        requires
            self.wf(),
        ensures
            r == (redo_walk(self@.slots, self@.cursor as int, 1).0.len() > 0),
    {
        let ghost m = self@;
        let mut i = self.cursor;
        while i < self.events.len()
            invariant
                self@ == m,
                model_wf(m),
                m.cursor <= i <= m.slots.len(),
                redo_walk(m.slots, m.cursor as int, 1) == redo_walk(m.slots, i as int, 1),
            decreases m.slots.len() - i,
        {
            match &self.events[i] {
                Entry::Event(_) => {
                    return true;
                },
                Entry::Checkpoint(_) => {},
            }
            i += 1;
        }
        false
    }
}

impl<T: Clone> Default for EventLog<T> {
    /// An empty event log.
    fn default() -> (log: Self)
        ensures
            log.wf(),
            log@.slots == Seq::<LogSlot<T>>::empty(),
            log@.cursor == 0,
            log@.checkpoints == Map::<Seq<char>, usize>::empty(),
    {
        Self::new()
    }
}

} // verus!
