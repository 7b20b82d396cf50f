//! Laws of the event log: what undo, redo, append and checkpoints promise
//! across calls, stated over the log's model.
use vstd::prelude::*;
use crate::fcpcore::event_log::{
    LogSlot, EventLogModel, model_wf, events_between, undo_walk, redo_walk, appended,
    checkpointed, recent_events, can_undo_to, lemma_events_between_split,
};

verus! {

/// The entries at positions `lo..hi` are all checkpoints.
pub open spec fn only_checkpoints<T>(s: Seq<LogSlot<T>>, lo: int, hi: int) -> bool {
    forall|i: int| lo <= i < hi ==> (#[trigger] s[i]) is Checkpoint
}

/// The position just after the last event before `p` (0 if there is none).
pub open spec fn last_event_end<T>(s: Seq<LogSlot<T>>, p: int) -> int
    decreases p,
{
    if p <= 0 {
        0
    } else if s[p - 1] is Event {
        p
    } else {
        last_event_end(s, p - 1)
    }
}

proof fn lemma_last_event_end<T>(s: Seq<LogSlot<T>>, y: int)
    requires
        0 <= y,
    ensures
        0 <= last_event_end(s, y) <= y,
        only_checkpoints(s, last_event_end(s, y), y),
    decreases y,
{
    if y > 0 && !(s[y - 1] is Event) {
        lemma_last_event_end(s, y - 1);
    }
}

proof fn lemma_redo_compose<T>(s: Seq<LogSlot<T>>, x: int, n1: nat, n2: nat)
    requires
        0 <= x,
    ensures
        ({
            let (a, q1) = redo_walk(s, x, n1);
            let (b, q2) = redo_walk(s, q1, n2);
            redo_walk(s, x, n1 + n2) == (a + b, q2)
        }),
    decreases s.len() - x,
{
    if x >= s.len() {
        assert(Seq::<T>::empty() + Seq::<T>::empty() =~= Seq::<T>::empty());
    } else if n1 == 0 {
        let (b, q2) = redo_walk(s, x, n2);
        assert(Seq::<T>::empty() + b =~= b);
    } else {
        match s[x] {
            LogSlot::Event(e) => {
                lemma_redo_compose(s, x + 1, (n1 - 1) as nat, n2);
                let (a1, q1) = redo_walk(s, x + 1, (n1 - 1) as nat);
                let (b, q2) = redo_walk(s, q1, n2);
                assert((n1 + n2 - 1) as nat == ((n1 - 1) as nat + n2) as nat);
                assert(seq![e] + (a1 + b) =~= (seq![e] + a1) + b);
            },
            LogSlot::Checkpoint(_) => {
                lemma_redo_compose(s, x + 1, n1, n2);
            },
        }
    }
}

proof fn lemma_redo_over_checkpoints<T>(s: Seq<LogSlot<T>>, x: int, y: int)
    requires
        0 <= x <= y < s.len(),
        only_checkpoints(s, x, y),
        s[y] is Event,
    ensures
        redo_walk(s, x, 1) == (seq![s[y]->Event_0], y + 1),
    decreases y - x,
{
    if x < y {
        assert(s[x] is Checkpoint);
        lemma_redo_over_checkpoints(s, x + 1, y);
    } else {
        assert(redo_walk(s, y + 1, 0).0 =~= Seq::<T>::empty());
        assert(seq![s[y]->Event_0] + Seq::<T>::empty() =~= seq![s[y]->Event_0]);
    }
}

proof fn lemma_undo_found_nothing<T>(s: Seq<LogSlot<T>>, x: int, k: nat)
    requires
        0 <= x <= s.len(),
        k > 0,
        undo_walk(s, x, k).0.len() == 0,
    ensures
        undo_walk(s, x, k).1 == 0,
        only_checkpoints(s, 0, x),
    decreases x,
{
    if x > 0 {
        match s[x - 1] {
            LogSlot::Event(e) => {
                let (r, p) = undo_walk(s, x - 1, (k - 1) as nat);
                assert((seq![e] + r).len() > 0);
            },
            LogSlot::Checkpoint(_) => {
                lemma_undo_found_nothing(s, x - 1, k);
            },
        }
    }
}

proof fn lemma_undo_redo<T>(s: Seq<LogSlot<T>>, p: int, k: nat)
    requires
        0 <= p <= s.len(),
    ensures
        ({
            let (u, c1) = undo_walk(s, p, k);
            let (r, q) = redo_walk(s, c1, u.len());
            &&& 0 <= c1 <= p
            &&& r == u.reverse()
            &&& q == if u.len() == 0 {
                c1
            } else {
                last_event_end(s, p)
            }
        }),
    decreases p,
{
    if p <= 0 || k == 0 {
        assert(Seq::<T>::empty().reverse() =~= Seq::<T>::empty());
    } else {
        match s[p - 1] {
            LogSlot::Event(e) => {
                lemma_undo_redo(s, p - 1, (k - 1) as nat);
                let (r1, c1) = undo_walk(s, p - 1, (k - 1) as nat);
                let (a, q1) = redo_walk(s, c1, r1.len());
                lemma_redo_compose(s, c1, r1.len(), 1);
                if r1.len() == 0 {
                    if k - 1 > 0 {
                        lemma_undo_found_nothing(s, p - 1, (k - 1) as nat);
                    }
                    assert(only_checkpoints(s, c1, p - 1));
                } else {
                    lemma_last_event_end(s, p - 1);
                }
                lemma_redo_over_checkpoints(s, q1, p - 1);
                assert(r1.reverse() + seq![e] =~= (seq![e] + r1).reverse());
                assert((r1.len() + 1) as nat == (seq![e] + r1).len());
            },
            LogSlot::Checkpoint(_) => {
                lemma_undo_redo(s, p - 1, k);
            },
        }
    }
}

/// Undo followed by redo: redoing as many events as `undo(count)` gave back
/// returns those same events, oldest first; and when the entry just before the
/// cursor is an event and something was undone, the cursor comes back to where
/// it was.
pub proof fn law_redo_restores_undo<T>(m: EventLogModel<T>, count: nat)
    requires
        model_wf(m),
    ensures
        ({
            let (undone, mid) = undo_walk(m.slots, m.cursor as int, count);
            let (redone, end) = redo_walk(m.slots, mid, undone.len());
            &&& redone == undone.reverse()
            &&& end <= m.cursor
            &&& (undone.len() > 0 && m.slots[m.cursor - 1] is Event) ==> end == m.cursor
        }),
{
    lemma_undo_redo(m.slots, m.cursor as int, count);
    lemma_last_event_end(m.slots, m.cursor as int);
}

/// Appending an event drops the redo tail: afterwards nothing can be redone.
pub proof fn law_append_clears_redo<T>(m: EventLogModel<T>, event: T, count: nat)
    requires
        model_wf(m),
        m.cursor < usize::MAX,
    ensures
        appended(m, event).cursor == appended(m, event).slots.len(),
        redo_walk(appended(m, event).slots, appended(m, event).cursor as int, count)
            == (Seq::<T>::empty(), appended(m, event).cursor as int),
        model_wf(appended(m, event)),
{
    let a = appended(m, event);
    assert(a.slots.len() == m.cursor + 1);
    assert forall|k: Seq<char>| #[trigger] a.checkpoints.dom().contains(k) implies a.checkpoints[k]
        <= a.slots.len() by {}
}

/// A checkpoint recorded after the cursor's position is forgotten once a new
/// event is appended there: undoing to it is then refused.
pub proof fn law_append_forgets_later_checkpoints<T>(m: EventLogModel<T>, event: T, name: Seq<char>)
    requires
        model_wf(m),
        m.checkpoints.dom().contains(name),
        m.checkpoints[name] > m.cursor,
    ensures
        !appended(m, event).checkpoints.dom().contains(name),
        !can_undo_to(appended(m, event), name),
{
}

/// Undoing to a checkpoint that lies before the cursor leaves exactly the
/// events before the checkpoint as the recent history.
pub proof fn law_undo_to_leaves_events_before_checkpoint<T>(m: EventLogModel<T>, name: Seq<char>)
    requires
        model_wf(m),
        can_undo_to(m, name),
    ensures
        recent_events(EventLogModel { cursor: m.checkpoints[name] as nat, ..m }, 0)
            == events_between(m.slots, 0, m.checkpoints[name] as int),
{
    let t = m.checkpoints[name] as int;
    lemma_events_between_len(m.slots, 0, t);
}

proof fn lemma_events_between_len<T>(s: Seq<LogSlot<T>>, lo: int, hi: int)
    requires
        lo <= hi,
    ensures
        events_between(s, lo, hi).len() <= hi - lo,
    decreases hi - lo,
{
    if hi > lo {
        lemma_events_between_len(s, lo, hi - 1);
    }
}

proof fn lemma_events_between_shift<T>(s: Seq<LogSlot<T>>, t: Seq<LogSlot<T>>, lo: int, hi: int, d: int)
    requires
        lo <= hi,
        forall|i: int| lo <= i < hi ==> t[i + d] == #[trigger] s[i],
    ensures
        events_between(t, lo + d, hi + d) == events_between(s, lo, hi),
    decreases hi - lo,
{
    if hi > lo {
        lemma_events_between_shift(s, t, lo, hi - 1, d);
        assert(t[hi - 1 + d] == s[hi - 1]);
    }
}

/// A checkpoint is recorded at the cursor and changes no event: the applied
/// events and the redo tail stay as they were, the name records the cursor's
/// position, and undoing to it right away is allowed and gives back no events.
pub proof fn law_checkpoint_keeps_events<T>(m: EventLogModel<T>, name: Seq<char>)
    requires
        model_wf(m),
        m.slots.len() < usize::MAX,
    ensures
        checkpointed(m, name).checkpoints[name] == m.cursor,
        can_undo_to(checkpointed(m, name), name),
        events_between(checkpointed(m, name).slots, m.cursor as int, checkpointed(m, name).cursor as int)
            == Seq::<T>::empty(),
        events_between(checkpointed(m, name).slots, 0, checkpointed(m, name).cursor as int)
            == events_between(m.slots, 0, m.cursor as int),
        recent_events(checkpointed(m, name), 0) == recent_events(m, 0),
        events_between(
            checkpointed(m, name).slots,
            checkpointed(m, name).cursor as int,
            checkpointed(m, name).slots.len() as int,
        ) == events_between(m.slots, m.cursor as int, m.slots.len() as int),
        model_wf(checkpointed(m, name)),
{
    let c = checkpointed(m, name);
    let p = m.cursor as int;
    assert forall|k: Seq<char>| #[trigger] c.checkpoints.dom().contains(k) implies c.checkpoints[k]
        <= c.slots.len() by {
        if k != name {
            assert(m.checkpoints.dom().contains(k));
        }
    }
    assert(c.slots.len() == m.slots.len() + 1);
    assert forall|i: int| 0 <= i < p implies c.slots[i + 0] == #[trigger] m.slots[i] by {}
    lemma_events_between_shift(m.slots, c.slots, 0, p, 0);
    assert forall|i: int| p <= i < m.slots.len() implies c.slots[i + 1] == #[trigger] m.slots[i] by {}
    lemma_events_between_shift(m.slots, c.slots, p, m.slots.len() as int, 1);
    assert(events_between(c.slots, p, p) =~= Seq::<T>::empty());
    assert(c.slots[p] == LogSlot::<T>::Checkpoint(name));
    assert(events_between(c.slots, p, p + 1) =~= Seq::<T>::empty());
    lemma_events_between_split(c.slots, 0, p, p + 1);
    assert(events_between(c.slots, 0, p + 1) =~= events_between(m.slots, 0, p));
    lemma_events_between_len(m.slots, 0, p);
}

proof fn lemma_undo_walk_bounds<T>(s: Seq<LogSlot<T>>, p: int, k: nat)
    requires
        0 <= p,
    ensures
        0 <= undo_walk(s, p, k).1 <= p,
        undo_walk(s, p, k).0.len() <= k,
    decreases p,
{
    if p > 0 && k > 0 {
        match s[p - 1] {
            LogSlot::Event(_) => lemma_undo_walk_bounds(s, p - 1, (k - 1) as nat),
            LogSlot::Checkpoint(_) => lemma_undo_walk_bounds(s, p - 1, k),
        }
    }
}

proof fn lemma_redo_walk_bounds<T>(s: Seq<LogSlot<T>>, p: int, k: nat)
    requires
        0 <= p <= s.len(),
    ensures
        p <= redo_walk(s, p, k).1 <= s.len(),
        redo_walk(s, p, k).0.len() <= k,
    decreases s.len() - p,
{
    if p < s.len() && k > 0 {
        match s[p] {
            LogSlot::Event(_) => lemma_redo_walk_bounds(s, p + 1, (k - 1) as nat),
            LogSlot::Checkpoint(_) => lemma_redo_walk_bounds(s, p + 1, k),
        }
    }
}

/// Undo moves the cursor back and redo moves it forward, never past either
/// end of the log, and each gives back at most as many events as asked for.
pub proof fn law_undo_moves_back_redo_moves_forward<T>(m: EventLogModel<T>, count: nat)
    requires
        model_wf(m),
    ensures
        0 <= undo_walk(m.slots, m.cursor as int, count).1 <= m.cursor,
        undo_walk(m.slots, m.cursor as int, count).0.len() <= count,
        m.cursor <= redo_walk(m.slots, m.cursor as int, count).1 <= m.slots.len(),
        redo_walk(m.slots, m.cursor as int, count).0.len() <= count,
{
    lemma_undo_walk_bounds(m.slots, m.cursor as int, count);
    lemma_redo_walk_bounds(m.slots, m.cursor as int, count);
}

proof fn lemma_undo_walk_events<T>(s: Seq<LogSlot<T>>, p: int, k: nat)
    requires
        0 <= p <= s.len(),
    ensures
        events_between(s, 0, undo_walk(s, p, k).1) + undo_walk(s, p, k).0.reverse() == events_between(s, 0, p),
        undo_walk(s, p, k).0.len() == if k <= events_between(s, 0, p).len() {
            k
        } else {
            events_between(s, 0, p).len()
        },
    decreases p,
{
    if p <= 0 || k == 0 {
        assert(events_between(s, 0, p) + Seq::<T>::empty().reverse() =~= events_between(s, 0, p));
        if p <= 0 {
            assert(events_between(s, 0, p) =~= Seq::<T>::empty());
        }
    } else {
        match s[p - 1] {
            LogSlot::Event(e) => {
                lemma_undo_walk_events(s, p - 1, (k - 1) as nat);
                let (r, q) = undo_walk(s, p - 1, (k - 1) as nat);
                assert((seq![e] + r).reverse() =~= r.reverse() + seq![e]);
                assert(events_between(s, 0, q) + (r.reverse() + seq![e]) =~= (events_between(s, 0, q)
                    + r.reverse()) + seq![e]);
            },
            LogSlot::Checkpoint(_) => {
                lemma_undo_walk_events(s, p - 1, k);
                assert(events_between(s, 0, p) =~= events_between(s, 0, p - 1));
            },
        }
    }
}

proof fn lemma_redo_walk_events<T>(s: Seq<LogSlot<T>>, p: int, k: nat)
    requires
        0 <= p <= s.len(),
    ensures
        events_between(s, 0, redo_walk(s, p, k).1) == events_between(s, 0, p) + redo_walk(s, p, k).0,
    decreases s.len() - p,
{
    if p >= s.len() || k == 0 {
        assert(events_between(s, 0, p) + Seq::<T>::empty() =~= events_between(s, 0, p));
    } else {
        match s[p] {
            LogSlot::Event(e) => {
                lemma_redo_walk_events(s, p + 1, (k - 1) as nat);
                let (r, q) = redo_walk(s, p + 1, (k - 1) as nat);
                assert(events_between(s, 0, p + 1) =~= events_between(s, 0, p) + seq![e]);
                assert(events_between(s, 0, p) + seq![e] + r =~= events_between(s, 0, p) + (seq![e] + r));
            },
            LogSlot::Checkpoint(_) => {
                lemma_redo_walk_events(s, p + 1, k);
                assert(events_between(s, 0, p + 1) =~= events_between(s, 0, p));
            },
        }
    }
}

/// Undo takes its events off the end of the applied events: afterwards the
/// applied events, followed by the undone events oldest first, are the events
/// applied before; it undoes as many as asked for, or all there are; and it
/// leaves the entries and the checkpoints as they were.
pub proof fn law_undo_takes_the_last_events<T>(m: EventLogModel<T>, count: nat)
    requires
        model_wf(m),
    ensures
        ({
            let (undone, pos) = undo_walk(m.slots, m.cursor as int, count);
            let after = EventLogModel { cursor: pos as nat, ..m };
            &&& recent_events(after, 0) + undone.reverse() == recent_events(m, 0)
            &&& undone.len() == if count <= recent_events(m, 0).len() {
                count
            } else {
                recent_events(m, 0).len()
            }
            &&& after.slots == m.slots
            &&& after.checkpoints == m.checkpoints
            &&& (count == 0 ==> pos == m.cursor)
        }),
{
    let (undone, pos) = undo_walk(m.slots, m.cursor as int, count);
    lemma_undo_walk_events(m.slots, m.cursor as int, count);
    lemma_undo_walk_bounds(m.slots, m.cursor as int, count);
    lemma_events_between_len(m.slots, 0, pos);
    lemma_events_between_len(m.slots, 0, m.cursor as int);
}

/// Redoing as many events as an undo gave back restores the applied events
/// exactly as they were before the undo.
pub proof fn law_redo_after_undo_restores_events<T>(m: EventLogModel<T>, count: nat)
    requires
        model_wf(m),
    ensures
        ({
            let (undone, pos) = undo_walk(m.slots, m.cursor as int, count);
            let (redone, end) = redo_walk(m.slots, pos, undone.len());
            &&& redone == undone.reverse()
            &&& recent_events(EventLogModel { cursor: end as nat, ..m }, 0) == recent_events(m, 0)
        }),
{
    let (undone, pos) = undo_walk(m.slots, m.cursor as int, count);
    law_redo_restores_undo(m, count);
    lemma_undo_walk_events(m.slots, m.cursor as int, count);
    lemma_undo_walk_bounds(m.slots, m.cursor as int, count);
    lemma_redo_walk_events(m.slots, pos, undone.len());
    lemma_redo_walk_bounds(m.slots, pos, undone.len());
    let (redone, end) = redo_walk(m.slots, pos, undone.len());
    lemma_events_between_len(m.slots, 0, end);
    lemma_events_between_len(m.slots, 0, m.cursor as int);
}

} // verus!
