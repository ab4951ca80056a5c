//! Append-only log of game events, queried by window.
//!
//! Every event gets the next sequence number. A window selects the events
//! from a starting sequence number on: the start of the turn, the start of
//! the game, or the latest checkpoint of a given name.
use vstd::prelude::*;

use crate::game::GameEvent;
use crate::snapshot::registry::text_eq;

verus! {

/// A logged game event with its sequence number and turn.
#[derive(Clone)]
pub struct LoggedEvent {
    pub seq: u64,
    pub turn: u32,
    pub event: GameEvent,
}

/// Time window for event-log queries.
#[derive(Debug, Clone, Copy)]
pub enum Window {
    /// Since the current turn began.
    ThisTurn,
    /// Since the game began.
    ThisGame,
    /// Since the latest checkpoint of this name (the whole game if none).
    SinceCheckpoint(&'static str),
}

/// The log: its entries, the next sequence number, where the turn began,
/// and the named checkpoints in the order they were pushed.
pub struct EventLog {
    pub entries: Vec<LoggedEvent>,
    pub next_seq: u64,
    pub turn_start_seq: u64,
    pub checkpoints: Vec<(&'static str, u64)>,
}

/// The sequence number of the latest checkpoint named `name`, if any.
pub open spec fn last_checkpoint(cps: Seq<(&'static str, u64)>, name: Seq<char>) -> Option<u64>
    decreases cps.len(),
{
    if cps.len() == 0 {
        None
    } else if cps.last().0@ == name {
        Some(cps.last().1)
    } else {
        last_checkpoint(cps.drop_last(), name)
    }
}

/// How many entries from `start` on have `true` in `marks`.
pub open spec fn count_marked(es: Seq<LoggedEvent>, start: u64, marks: Seq<bool>) -> nat
    decreases es.len(),
{
    if es.len() == 0 {
        0
    } else {
        count_marked(es.drop_last(), start, marks.drop_last()) + (if es.last().seq >= start
            && marks.last() {
            1nat
        } else {
            0nat
        })
    }
}

/// The entries from `start` on that have `true` in `marks`, in order.
pub open spec fn marked_entries(es: Seq<LoggedEvent>, start: u64, marks: Seq<bool>) -> Seq<LoggedEvent>
    decreases es.len(),
{
    if es.len() == 0 {
        Seq::empty()
    } else {
        marked_entries(es.drop_last(), start, marks.drop_last()) + (if es.last().seq >= start
            && marks.last() {
            seq![es.last()]
        } else {
            Seq::empty()
        })
    }
}

impl EventLog {
    /// The log's order: sequence numbers increase along the entries and stay
    /// below the next one, and every window starts no later than it.
    pub open spec fn wf(&self) -> bool {
        &&& forall|i: int, j: int|
            0 <= i < j < self.entries@.len() ==> (#[trigger] self.entries@[i]).seq < (
            #[trigger] self.entries@[j]).seq
        &&& forall|i: int| 0 <= i < self.entries@.len() ==> (#[trigger] self.entries@[i]).seq < self.next_seq
        &&& self.turn_start_seq <= self.next_seq
        &&& forall|i: int|
            0 <= i < self.checkpoints@.len() ==> (#[trigger] self.checkpoints@[i]).1 <= self.next_seq
    }

    pub open spec fn spec_window_start(&self, w: Window) -> u64 {
        match w {
            Window::ThisTurn => self.turn_start_seq,
            Window::ThisGame => 0,
            Window::SinceCheckpoint(name) => match last_checkpoint(self.checkpoints@, name@) {
                Some(s) => s,
                None => 0,
            },
        }
    }

    /// An empty log.
    pub fn new() -> (r: Self)
        ensures
            r.entries@.len() == 0,
            r.next_seq == 0,
            r.turn_start_seq == 0,
            r.checkpoints@.len() == 0,
            r.wf(),
    {
        EventLog { entries: Vec::new(), next_seq: 0, turn_start_seq: 0, checkpoints: Vec::new() }
    }

    /// Append an event with the next sequence number.
    pub fn push(&mut self, turn: u32, event: GameEvent)
        requires
            old(self).next_seq < u64::MAX,
        ensures
            final(self).entries@ == old(self).entries@.push(
                LoggedEvent { seq: old(self).next_seq, turn, event },
            ),
            final(self).next_seq == old(self).next_seq + 1,
            final(self).turn_start_seq == old(self).turn_start_seq,
            final(self).checkpoints@ == old(self).checkpoints@,
            old(self).wf() ==> final(self).wf(),
    {
        let seq = self.next_seq;
        self.next_seq = self.next_seq + 1;
        self.entries.push(LoggedEvent { seq, turn, event });
    }

    /// The turn begins at the next event.
    pub fn mark_turn_start(&mut self)
        ensures
            final(self).turn_start_seq == old(self).next_seq,
            final(self).entries@ == old(self).entries@,
            final(self).next_seq == old(self).next_seq,
            final(self).checkpoints@ == old(self).checkpoints@,
            old(self).wf() ==> final(self).wf(),
    {
        self.turn_start_seq = self.next_seq;
    }

    /// Name the position of the next event.
    pub fn push_checkpoint(&mut self, name: &'static str)
        ensures
            final(self).checkpoints@ == old(self).checkpoints@.push((name, old(self).next_seq)),
            final(self).entries@ == old(self).entries@,
            final(self).next_seq == old(self).next_seq,
            final(self).turn_start_seq == old(self).turn_start_seq,
            old(self).wf() ==> final(self).wf(),
    {
        self.checkpoints.push((name, self.next_seq));
    }

    /// Remove the latest checkpoint of this name, if any.
    pub fn pop_checkpoint(&mut self, name: &'static str)
        ensures
            final(self).entries@ == old(self).entries@,
            final(self).next_seq == old(self).next_seq,
            final(self).turn_start_seq == old(self).turn_start_seq,
            old(self).wf() ==> final(self).wf(),
            (forall|i: int|
                0 <= i < old(self).checkpoints@.len() ==> (#[trigger] old(self).checkpoints@[i]).0@
                    != name@) ==> final(self).checkpoints@ == old(self).checkpoints@,
            (exists|i: int|
                0 <= i < old(self).checkpoints@.len() && (#[trigger] old(self).checkpoints@[i]).0@
                    == name@) ==> exists|p: int|
                0 <= p < old(self).checkpoints@.len() && old(self).checkpoints@[p].0@ == name@
                    && (forall|q: int|
                    p < q < old(self).checkpoints@.len() ==> (#[trigger] old(
                        self,
                    ).checkpoints@[q]).0@ != name@) && final(self).checkpoints@ == old(
                    self,
                ).checkpoints@.remove(p),
    {
        let mut k: usize = self.checkpoints.len();
        while k > 0
            invariant
                k <= self.checkpoints@.len(),
                self.checkpoints@ == old(self).checkpoints@,
                self.entries@ == old(self).entries@,
                self.next_seq == old(self).next_seq,
                self.turn_start_seq == old(self).turn_start_seq,
                forall|q: int| k <= q < self.checkpoints@.len() ==> (#[trigger] self.checkpoints@[q]).0@ != name@,
            decreases k,
        {
            if text_eq(self.checkpoints[k - 1].0, name) {
                self.checkpoints.remove(k - 1);
                return;
            }
            k = k - 1;
        }
    }

    /// At cleanup: the next turn's window begins at the next event; all
    /// entries are kept.
    pub fn prune_for_new_turn(&mut self)
        ensures
            final(self).turn_start_seq == old(self).next_seq,
            final(self).entries@ == old(self).entries@,
            final(self).next_seq == old(self).next_seq,
            final(self).checkpoints@ == old(self).checkpoints@,
            old(self).wf() ==> final(self).wf(),
    {
        self.turn_start_seq = self.next_seq;
    }

    /// The first sequence number in a window.
    fn window_start(&self, w: Window) -> (r: u64)
        ensures
            r == self.spec_window_start(w),
    {
        match w {
            Window::ThisTurn => self.turn_start_seq,
            Window::ThisGame => 0,
            Window::SinceCheckpoint(name) => {
                let ghost cps = self.checkpoints@;
                let mut k: usize = self.checkpoints.len();
                proof {
                    assert(cps.subrange(0, k as int) =~= cps);
                }
                while k > 0
                    invariant
                        k <= cps.len(),
                        cps == self.checkpoints@,
                        w == Window::SinceCheckpoint(name),
                        last_checkpoint(cps, name@) == last_checkpoint(cps.subrange(0, k as int), name@),
                    decreases k,
                {
                    proof {
                        assert(cps.subrange(0, k as int).drop_last() =~= cps.subrange(0, k - 1));
                        assert(cps.subrange(0, k as int).last() == cps[k - 1]);
                    }
                    if text_eq(self.checkpoints[k - 1].0, name) {
                        return self.checkpoints[k - 1].1;
                    }
                    k = k - 1;
                }
                0
            },
        }
    }

    /// The events in the window that satisfy `pred`, in log order.
    pub fn filter<'a, F: Fn(&LoggedEvent) -> bool>(&'a self, w: Window, pred: F) -> (r: Vec<
        &'a LoggedEvent,
    >)
        requires
            forall|e: &LoggedEvent| #[trigger] pred.requires((e,)),
        ensures
            exists|marks: Seq<bool>|
                {
                    &&& marks.len() == self.entries@.len()
                    &&& forall|i: int|
                        0 <= i < marks.len() && self.entries@[i].seq >= self.spec_window_start(w)
                            ==> pred.ensures((&self.entries@[i],), #[trigger] marks[i])
                    &&& r@.len() == marked_entries(self.entries@, self.spec_window_start(w), marks).len()
                    &&& forall|k: int|
                        0 <= k < r@.len() ==> *#[trigger] r@[k] == marked_entries(
                            self.entries@,
                            self.spec_window_start(w),
                            marks,
                        )[k]
                },
    {
        let start = self.window_start(w);
        let ghost es = self.entries@;
        let mut out: Vec<&'a LoggedEvent> = Vec::new();
        let ghost mut marks: Seq<bool> = Seq::empty();
        for i in 0..self.entries.len()
            invariant
                es == self.entries@,
                start == self.spec_window_start(w),
                forall|e: &LoggedEvent| #[trigger] pred.requires((e,)),
                marks.len() == i,
                forall|k: int|
                    0 <= k < i && es[k].seq >= start ==> pred.ensures((&es[k],), #[trigger] marks[k]),
                out@.len() == marked_entries(es.take(i as int), start, marks).len(),
                forall|k: int|
                    0 <= k < out@.len() ==> *#[trigger] out@[k] == marked_entries(es.take(i as int), start, marks)[k],
        {
            let e = &self.entries[i];
            let mut m = false;
            if e.seq >= start {
                m = pred(e);
                if m {
                    out.push(e);
                }
            }
            proof {
                let old_marks = marks;
                marks = marks.push(m);
                assert(es.take(i + 1).drop_last() =~= es.take(i as int));
                assert(marks.drop_last() =~= old_marks);
                assert(es.take(i + 1).last() == es[i as int]);
                assert forall|k: int|
                    0 <= k < i + 1 && es[k].seq >= start implies pred.ensures(
                    (&es[k],),
                    #[trigger] marks[k],
                ) by {
                    if k < i {
                        assert(marks[k] == old_marks[k]);
                    }
                }
            }
        }
        proof {
            assert(es.take(es.len() as int) =~= es);
        }
        out
    }

    /// How many events in the window satisfy `pred`.
    pub fn count<F: Fn(&LoggedEvent) -> bool>(&self, w: Window, pred: F) -> (r: usize)
        requires
            forall|e: &LoggedEvent| #[trigger] pred.requires((e,)),
        ensures
            exists|marks: Seq<bool>|
                marks.len() == self.entries@.len() && (forall|i: int|
                    0 <= i < marks.len() && self.entries@[i].seq >= self.spec_window_start(w)
                        ==> pred.ensures((&self.entries@[i],), #[trigger] marks[i])) && r
                    == count_marked(self.entries@, self.spec_window_start(w), marks),
    {
        let start = self.window_start(w);
        let ghost es = self.entries@;
        let mut n: usize = 0;
        let ghost mut marks: Seq<bool> = Seq::empty();
        for i in 0..self.entries.len()
            invariant
                es == self.entries@,
                start == self.spec_window_start(w),
                forall|e: &LoggedEvent| #[trigger] pred.requires((e,)),
                marks.len() == i,
                forall|k: int|
                    0 <= k < i && es[k].seq >= start ==> pred.ensures((&es[k],), #[trigger] marks[k]),
                n == count_marked(es.take(i as int), start, marks),
                n <= i,
        {
            let e = &self.entries[i];
            let mut m = false;
            if e.seq >= start {
                m = pred(e);
                if m {
                    n = n + 1;
                }
            }
            proof {
                let old_marks = marks;
                marks = marks.push(m);
                assert(es.take(i + 1).drop_last() =~= es.take(i as int));
                assert(marks.drop_last() =~= old_marks);
                assert forall|k: int|
                    0 <= k < i + 1 && es[k].seq >= start implies pred.ensures(
                    (&es[k],),
                    #[trigger] marks[k],
                ) by {
                    if k < i {
                        assert(marks[k] == old_marks[k]);
                    }
                }
            }
        }
        proof {
            assert(es.take(es.len() as int) =~= es);
        }
        n
    }

    /// Whether some event in the window satisfies `pred`.
    pub fn any<F: Fn(&LoggedEvent) -> bool>(&self, w: Window, pred: F) -> (r: bool)
        requires
            forall|e: &LoggedEvent| #[trigger] pred.requires((e,)),
        ensures
            r ==> exists|i: int|
                0 <= i < self.entries@.len() && self.entries@[i].seq >= self.spec_window_start(w)
                    && pred.ensures((&self.entries@[i],), true),
            !r ==> forall|i: int|
                0 <= i < self.entries@.len() && self.entries@[i].seq >= self.spec_window_start(w)
                    ==> pred.ensures((&#[trigger] self.entries@[i],), false),
    {
        let start = self.window_start(w);
        for i in 0..self.entries.len()
            invariant
                start == self.spec_window_start(w),
                forall|e: &LoggedEvent| #[trigger] pred.requires((e,)),
                forall|k: int|
                    0 <= k < i && self.entries@[k].seq >= start ==> pred.ensures(
                        (&#[trigger] self.entries@[k],),
                        false,
                    ),
        {
            let e = &self.entries[i];
            if e.seq >= start {
                if pred(e) {
                    return true;
                }
            }
        }
        false
    }
}

/// Marks that are true everywhere.
pub open spec fn all_marked(n: nat) -> Seq<bool> {
    Seq::new(n, |_i: int| true)
}

proof fn lemma_count_is_len(es: Seq<LoggedEvent>, start: u64, m: Seq<bool>)
    requires
        m.len() == es.len(),
    ensures
        count_marked(es, start, m) == marked_entries(es, start, m).len(),
        count_marked(es, start, m) > 0 <==> exists|i: int|
            0 <= i < es.len() && es[i].seq >= start && #[trigger] m[i],
    decreases es.len(),
{
    if es.len() > 0 {
        let i0 = es.drop_last();
        let m0 = m.drop_last();
        lemma_count_is_len(i0, start, m0);
        if count_marked(i0, start, m0) > 0 {
            let i = choose|i: int| 0 <= i < i0.len() && i0[i].seq >= start && #[trigger] m0[i];
            assert(m[i]);
        }
        if exists|i: int| 0 <= i < es.len() && es[i].seq >= start && #[trigger] m[i] {
            let i = choose|i: int| 0 <= i < es.len() && es[i].seq >= start && #[trigger] m[i];
            if i < i0.len() {
                assert(m0[i]);
            }
        }
    }
}

proof fn lemma_marks_equal(es: Seq<LoggedEvent>, start: u64, m1: Seq<bool>, m2: Seq<bool>)
    requires
        m1.len() == es.len(),
        m2.len() == es.len(),
        forall|i: int| 0 <= i < es.len() && es[i].seq >= start ==> m1[i] == m2[i],
    ensures
        count_marked(es, start, m1) == count_marked(es, start, m2),
        marked_entries(es, start, m1) == marked_entries(es, start, m2),
    decreases es.len(),
{
    if es.len() > 0 {
        let n = es.len() - 1;
        assert forall|i: int| 0 <= i < n && es.drop_last()[i].seq >= start implies m1.drop_last()[i]
            == m2.drop_last()[i] by {
            assert(es.drop_last()[i] == es[i]);
        }
        lemma_marks_equal(es.drop_last(), start, m1.drop_last(), m2.drop_last());
    }
}

/// `pred` gives one answer for each event.
pub open spec fn deterministic<F: Fn(&LoggedEvent) -> bool>(pred: F) -> bool {
    forall|e: &LoggedEvent, r1: bool, r2: bool|
        #![trigger pred.ensures((e,), r1), pred.ensures((e,), r2)]
        pred.ensures((e,), r1) && pred.ensures((e,), r2) ==> r1 == r2
}

/// For a predicate with one answer per event, the window queries agree:
/// whatever answers `count` and `filter` recorded, the count equals the
/// number of events `filter` returns, and it is positive exactly when some
/// event in the window satisfies the predicate, as `any` reports.
pub proof fn lemma_window_queries_agree<F: Fn(&LoggedEvent) -> bool>(
    log: EventLog,
    w: Window,
    pred: F,
    m1: Seq<bool>,
    m2: Seq<bool>,
)
    requires
        deterministic(pred),
        m1.len() == log.entries@.len(),
        m2.len() == log.entries@.len(),
        forall|i: int|
            0 <= i < m1.len() && log.entries@[i].seq >= log.spec_window_start(w) ==> pred.ensures(
                (&log.entries@[i],),
                #[trigger] m1[i],
            ),
        forall|i: int|
            0 <= i < m2.len() && log.entries@[i].seq >= log.spec_window_start(w) ==> pred.ensures(
                (&log.entries@[i],),
                #[trigger] m2[i],
            ),
    ensures
        count_marked(log.entries@, log.spec_window_start(w), m1) == marked_entries(
            log.entries@,
            log.spec_window_start(w),
            m2,
        ).len(),
        count_marked(log.entries@, log.spec_window_start(w), m1) > 0 <==> exists|i: int|
            0 <= i < log.entries@.len() && log.entries@[i].seq >= log.spec_window_start(w)
                && pred.ensures((&log.entries@[i],), true),
{
    let es = log.entries@;
    let start = log.spec_window_start(w);
    assert forall|i: int| 0 <= i < es.len() && es[i].seq >= start implies m1[i] == m2[i] by {
        assert(pred.ensures((&es[i],), m1[i]));
        assert(pred.ensures((&es[i],), m2[i]));
    }
    lemma_marks_equal(es, start, m1, m2);
    lemma_count_is_len(es, start, m2);
    lemma_count_is_len(es, start, m1);
    if count_marked(es, start, m1) > 0 {
        let i = choose|i: int| 0 <= i < es.len() && es[i].seq >= start && #[trigger] m1[i];
        assert(pred.ensures((&es[i],), m1[i]));
    }
    if exists|i: int| 0 <= i < es.len() && es[i].seq >= start && pred.ensures((&es[i],), true) {
        let i = choose|i: int| 0 <= i < es.len() && es[i].seq >= start && pred.ensures((&es[i],), true);
        assert(pred.ensures((&es[i],), m1[i]));
    }
}

/// Counting every event: the events logged before the window starts do not
/// count, and every event logged from its start on does. So after
/// `mark_turn_start` (or `push_checkpoint`) and `a` pushes, the window
/// holds exactly `a` events.
pub proof fn lemma_window_counts_later_events(before: Seq<LoggedEvent>, after: Seq<LoggedEvent>, start: u64)
    requires
        forall|i: int| 0 <= i < before.len() ==> (#[trigger] before[i]).seq < start,
        forall|i: int| 0 <= i < after.len() ==> (#[trigger] after[i]).seq >= start,
    ensures
        count_marked(before + after, start, all_marked(before.len() + after.len())) == after.len(),
    decreases after.len(),
{
    let es = before + after;
    let m = all_marked(before.len() + after.len());
    if after.len() == 0 {
        assert(es =~= before);
        lemma_count_before(before, start, m);
    } else {
        let a0 = after.drop_last();
        lemma_window_counts_later_events(before, a0, start);
        assert(es.drop_last() =~= before + a0);
        assert(m.drop_last() =~= all_marked(before.len() + a0.len()));
        assert(es.last() == after.last());
    }
}

/// Events numbered one after another from `from` on.
pub open spec fn numbered_from(es: Seq<LoggedEvent>, from: int) -> bool {
    forall|i: int| 0 <= i < es.len() ==> (#[trigger] es[i]).seq == from + i
}

/// The three windows after `mark_turn_start`, `a.len()` pushes,
/// `push_checkpoint(name)` and `b.len()` more pushes on a log `log0`
/// (`log` is the log afterwards, as those calls leave it): counting every
/// event, the turn's window holds `a` and `b`, the checkpoint's window
/// holds `b`, and the game's window holds every entry.
pub proof fn lemma_windows_after_turn_and_checkpoint(
    log0: EventLog,
    a: Seq<LoggedEvent>,
    b: Seq<LoggedEvent>,
    name: &'static str,
    log: EventLog,
)
    requires
        log0.wf(),
        numbered_from(a, log0.next_seq as int),
        numbered_from(b, log0.next_seq + a.len()),
        log.entries@ == log0.entries@ + a + b,
        log.turn_start_seq == log0.next_seq,
        log.checkpoints@ == log0.checkpoints@.push((name, (log0.next_seq + a.len()) as u64)),
        log0.next_seq + a.len() <= u64::MAX,
    ensures
        count_marked(log.entries@, log.spec_window_start(Window::ThisTurn), all_marked(log.entries@.len()))
            == a.len() + b.len(),
        count_marked(
            log.entries@,
            log.spec_window_start(Window::SinceCheckpoint(name)),
            all_marked(log.entries@.len()),
        ) == b.len(),
        count_marked(log.entries@, log.spec_window_start(Window::ThisGame), all_marked(log.entries@.len()))
            == log.entries@.len(),
{
    let e0 = log0.entries@;
    let n0 = log0.next_seq;
    let cp = (n0 + a.len()) as u64;
    assert(log.entries@ =~= e0 + (a + b));
    assert forall|i: int| 0 <= i < (a + b).len() implies (#[trigger] (a + b)[i]).seq >= n0 by {
        if i < a.len() {
            assert((a + b)[i] == a[i]);
        } else {
            assert((a + b)[i] == b[i - a.len()]);
        }
    }
    lemma_window_counts_later_events(e0, a + b, n0);
    assert(log.spec_window_start(Window::SinceCheckpoint(name)) == cp);
    assert(log.entries@ =~= (e0 + a) + b);
    assert forall|i: int| 0 <= i < (e0 + a).len() implies (#[trigger] (e0 + a)[i]).seq < cp by {
        if i < e0.len() {
            assert((e0 + a)[i] == e0[i]);
        } else {
            assert((e0 + a)[i] == a[i - e0.len()]);
        }
    }
    lemma_window_counts_later_events(e0 + a, b, cp);
    assert(log.entries@ =~= Seq::<LoggedEvent>::empty() + log.entries@);
    lemma_window_counts_later_events(Seq::<LoggedEvent>::empty(), log.entries@, 0);
}

proof fn lemma_count_before(es: Seq<LoggedEvent>, start: u64, m: Seq<bool>)
    requires
        forall|i: int| 0 <= i < es.len() ==> (#[trigger] es[i]).seq < start,
    ensures
        count_marked(es, start, m) == 0,
    decreases es.len(),
{
    if es.len() > 0 {
        assert forall|i: int| 0 <= i < es.len() - 1 implies (#[trigger] es.drop_last()[i]).seq < start by {
            assert(es.drop_last()[i] == es[i]);
        }
        lemma_count_before(es.drop_last(), start, m.drop_last());
        assert(es.last() == es[es.len() - 1]);
    }
}

} // verus!
