//! First-event debouncing of filesystem events, one pending entry per path.

use vstd::prelude::*;
use crate::keyed::{
    distinct_keys, key_index, lemma_key_index_found, lemma_key_index_push, lemma_key_index_remove,
};

verus! {

/// Delay, in milliseconds, between the first event for a path and its
/// rebuild.
pub const DEBOUNCE_WINDOW_MS: u64 = 50;

/// A path waiting for its rebuild, with the time (in milliseconds) at which
/// the rebuild is due.
#[derive(Debug)]
pub struct PendingEvent {
    pub path: String,
    pub deadline: u64,
}

/// What the drain loop does next.
#[derive(Debug)]
pub enum DebounceAction {
    /// Trigger one rebuild of this path now.
    Fire(String),
    /// Nothing is due yet; wait this many milliseconds.
    Sleep(u64),
    /// Nothing is pending.
    Idle,
}

pub open spec fn sat_add(a: u64, b: u64) -> u64 {
    if a + b > u64::MAX {
        u64::MAX
    } else {
        (a + b) as u64
    }
}

/// The pending table after an event for `path` at time `now`: a path that
/// is already pending keeps its deadline.
pub open spec fn after_event(m: Map<Seq<char>, u64>, path: Seq<char>, now: u64, window: u64) -> Map<Seq<char>, u64> {
    if m.contains_key(path) {
        m
    } else {
        m.insert(path, sat_add(now, window))
    }
}

/// The pending table after events for `path` at the given times.
pub open spec fn after_events(m: Map<Seq<char>, u64>, path: Seq<char>, times: Seq<u64>, window: u64) -> Map<Seq<char>, u64>
    decreases times.len(),
{
    if times.len() == 0 {
        m
    } else {
        after_event(after_events(m, path, times.drop_last(), window), path, times.last(), window)
    }
}

/// The paths of the pending entries, in order.
pub open spec fn pending_keys(rows: Seq<PendingEvent>) -> Seq<Seq<char>> {
    rows.map_values(|e: PendingEvent| e.path@)
}

pub open spec fn pending_index(rows: Seq<PendingEvent>, path: Seq<char>) -> Option<int> {
    key_index(pending_keys(rows), path)
}

pub open spec fn pending_map(rows: Seq<PendingEvent>) -> Map<Seq<char>, u64> {
    Map::new(
        |p: Seq<char>| pending_index(rows, p) is Some,
        |p: Seq<char>| rows[pending_index(rows, p).unwrap()].deadline,
    )
}

/// The table of paths waiting for a rebuild: first-event debounce, one
/// entry per path.
pub struct Debouncer {
    pub pending: Vec<PendingEvent>,
    pub window: u64,
}

impl View for Debouncer {
    type V = Map<Seq<char>, u64>;

    open spec fn view(&self) -> Map<Seq<char>, u64> {
        pending_map(self.pending@)
    }
}

impl Debouncer {
    pub open spec fn wf(&self) -> bool {
        distinct_keys(pending_keys(self.pending@))
    }

    /// An empty table whose deadlines lie `window` milliseconds after the
    /// first event of a path.
    pub fn new(window: u64) -> (r: Debouncer)
        ensures
            r.wf(),
            r.window == window,
            r@ == Map::<Seq<char>, u64>::empty(),
    {
        let r = Debouncer { pending: Vec::new(), window };
        assert(pending_keys(r.pending@) =~= Seq::<Seq<char>>::empty());
        assert(r@ =~= Map::<Seq<char>, u64>::empty());
        r
    }

    /// Records an event for `path` at time `now` (milliseconds).
    pub fn register_event(&mut self, path: String, now: u64)
        requires
            old(self).wf(),
        ensures
            final(self).wf(),
            final(self).window == old(self).window,
            final(self)@ == after_event(old(self)@, path@, now, old(self).window),
    {
        let mut i: usize = 0;
        while i < self.pending.len()
            invariant
                self.wf(),
                *self == *old(self),
                0 <= i <= self.pending@.len(),
                forall|k: int| 0 <= k < i ==> (#[trigger] self.pending@[k]).path@ != path@,
            decreases self.pending@.len() - i,
        {
            if self.pending[i].path == path {
                proof {
                    lemma_key_index_found(pending_keys(self.pending@), i as int);
                }
                assert(self@.contains_key(path@));
                return;
            }
            i = i + 1;
        }
        let deadline = if now > u64::MAX - self.window {
            u64::MAX
        } else {
            now + self.window
        };
        let ghost rows0 = self.pending@;
        let ghost s = path@;
        proof {
            let ks = pending_keys(rows0);
            assert forall|k: int| 0 <= k < ks.len() implies ks[k] != s by {
                assert(rows0[k].path@ != s);
            }
            lemma_key_index_push(ks, s);
        }
        self.pending.push(PendingEvent { path, deadline });
        proof {
            assert(pending_keys(self.pending@) =~= pending_keys(rows0).push(s));
            assert(self@ =~= old(self)@.insert(s, sat_add(now, self.window)));
        }
    }

    /// Decides the next step of the drain loop at time `now`: fire the path
    /// with the earliest deadline when that deadline has passed (removing it
    /// from the table), else sleep until it, or stay idle when nothing is
    /// pending.
    pub fn next_action(&mut self, now: u64) -> (r: DebounceAction)
        requires
            old(self).wf(),
        ensures
            final(self).wf(),
            final(self).window == old(self).window,
            match r {
                DebounceAction::Idle => old(self)@.dom().len() == 0 && final(self)@ == old(self)@,
                DebounceAction::Fire(p) => {
                    &&& old(self)@.contains_key(p@)
                    &&& old(self)@[p@] <= now
                    &&& forall|q: Seq<char>| #[trigger] old(self)@.contains_key(q) ==> old(self)@[p@] <= old(self)@[q]
                    &&& final(self)@ == old(self)@.remove(p@)
                },
                DebounceAction::Sleep(d) => {
                    &&& final(self)@ == old(self)@
                    &&& d > 0
                    &&& forall|q: Seq<char>| #[trigger] old(self)@.contains_key(q) ==> now + d <= old(self)@[q]
                    &&& exists|q: Seq<char>| #[trigger] old(self)@.contains_key(q) && now + d == old(self)@[q]
                },
            },
    {
        if self.pending.len() == 0 {
            assert(self@ =~= Map::<Seq<char>, u64>::empty());
            return DebounceAction::Idle;
        }
        let mut best: usize = 0;
        let mut i: usize = 1;
        while i < self.pending.len()
            invariant
                self.wf(),
                *self == *old(self),
                1 <= i <= self.pending@.len(),
                best < i,
                forall|k: int| 0 <= k < i ==> self.pending@[best as int].deadline <= (#[trigger] self.pending@[k]).deadline,
            decreases self.pending@.len() - i,
        {
            if self.pending[i].deadline < self.pending[best].deadline {
                best = i;
            }
            i = i + 1;
        }
        let ghost rows0 = self.pending@;
        proof {
            let bp = rows0[best as int].path@;
            lemma_key_index_found(pending_keys(rows0), best as int);
            assert(pending_index(rows0, bp) == Some(best as int));
            assert forall|q: Seq<char>| #[trigger] old(self)@.contains_key(q) implies rows0[best as int].deadline
                <= old(self)@[q] by {
                let a = pending_index(rows0, q).unwrap();
            }
        }
        let deadline = self.pending[best].deadline;
        if deadline <= now {
            let ev = self.pending.remove(best);
            proof {
                lemma_key_index_remove(pending_keys(rows0), best as int);
                assert(pending_keys(self.pending@) =~= pending_keys(rows0).remove(best as int));
                assert(self@ =~= old(self)@.remove(ev.path@));
            }
            DebounceAction::Fire(ev.path)
        } else {
            proof {
                let bp = rows0[best as int].path@;
                assert(old(self)@.contains_key(bp));
            }
            DebounceAction::Sleep(deadline - now)
        }
    }
}

/// Any number of events for one path that is not pending leave exactly one
/// pending entry for it, due one window after the first event; firing it
/// leaves the table as it was, so the burst causes exactly one rebuild.
pub proof fn lemma_debounce_collapse(m: Map<Seq<char>, u64>, path: Seq<char>, times: Seq<u64>, window: u64)
    requires
        !m.contains_key(path),
        times.len() > 0,
    ensures
        after_events(m, path, times, window) == m.insert(path, sat_add(times[0], window)),
        after_events(m, path, times, window).remove(path) == m,
    decreases times.len(),
{
    let d = sat_add(times[0], window);
    if times.len() == 1 {
        assert(times.drop_last().len() == 0);
        assert(after_events(m, path, times.drop_last(), window) == m);
        assert(after_events(m, path, times, window) == after_event(m, path, times.last(), window));
    } else {
        lemma_debounce_collapse(m, path, times.drop_last(), window);
        assert(times.drop_last()[0] == times[0]);
        let mm = after_events(m, path, times.drop_last(), window);
        assert(mm == m.insert(path, d));
        assert(mm.contains_key(path));
        assert(after_events(m, path, times, window) == after_event(mm, path, times.last(), window));
    }
    assert(m.insert(path, d).remove(path) =~= m);
}

} // verus!
