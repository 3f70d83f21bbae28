//! The key event log shown over the game: the latest input events, each
//! with the time it came, dropped when there are too many or when they are
//! too old. Times are milliseconds since a fixed origin chosen by the caller.
use vstd::prelude::*;
use std::collections::VecDeque;

verus! {

broadcast use vstd::std_specs::vecdeque::group_vec_dequeue_axioms;

/// The most entries the log keeps.
pub const MAX_ENTRIES: usize = 20;

/// How long an entry stays in the log, in milliseconds.
pub const ENTRY_LIFETIME_MS: u64 = 6000;

/// The log after an entry is added at its end: the oldest entry leaves when
/// the log has grown past [`MAX_ENTRIES`].
pub open spec fn after_record(s: Seq<(u64, String)>, e: (u64, String)) -> Seq<(u64, String)> {
    if s.len() + 1 > MAX_ENTRIES {
        s.push(e).drop_first()
    } else {
        s.push(e)
    }
}

/// Whether an entry logged at `t` is still shown at `now`: it is younger
/// than [`ENTRY_LIFETIME_MS`] (an entry from after `now` counts as young).
pub open spec fn is_recent(now: u64, t: u64) -> bool {
    t >= now || now - t < ENTRY_LIFETIME_MS
}

/// The entries of `s` still shown at `now`, in their order.
pub open spec fn recent_entries(s: Seq<(u64, String)>, now: u64) -> Seq<(u64, String)> {
    s.filter(|e: (u64, String)| is_recent(now, e.0))
}

pub struct KeyEventLog {
    entries: VecDeque<(u64, String)>,
}

impl View for KeyEventLog {
    type V = Seq<(u64, String)>;

    closed spec fn view(&self) -> Seq<(u64, String)> {
        self.entries@
    }
}

impl KeyEventLog {
    /// An empty log.
    pub fn new() -> (r: KeyEventLog)
        ensures
            r@ == Seq::<(u64, String)>::empty(),
    {
        KeyEventLog { entries: VecDeque::new() }
    }

    /// The number of entries.
    pub fn len(&self) -> (r: usize)
        ensures
            r == self@.len(),
    {
        self.entries.len()
    }

    /// Adds the entry `label` logged at `time` after the others, dropping
    /// the oldest when the log grows past [`MAX_ENTRIES`].
    pub fn record(&mut self, time: u64, label: String)
        ensures
            final(self)@ == after_record(old(self)@, (time, label)),
            // A log that was within its bound stays within it.
            old(self)@.len() <= MAX_ENTRIES ==> final(self)@.len() <= MAX_ENTRIES,
    {
        self.entries.push_back((time, label));
        if self.entries.len() > MAX_ENTRIES {
            let _ = self.entries.pop_front();
        }
        proof {
            let s = old(self)@.push((time, label));
            assert(s.subrange(1, s.len() as int) =~= s.drop_first());
        }
    }

    /// Drops the entries that are no longer shown at `now`, keeping the
    /// others in their order.
    pub fn retain_recent(&mut self, now: u64)
        ensures
            final(self)@ == recent_entries(old(self)@, now),
    {
        let mut rest: VecDeque<(u64, String)> = VecDeque::new();
        std::mem::swap(&mut rest, &mut self.entries);
        let ghost all = rest@;
        let ghost keep = |e: (u64, String)| is_recent(now, e.0);
        let mut kept: VecDeque<(u64, String)> = VecDeque::new();
        proof {
            reveal(Seq::filter);
            assert(all.take(0) =~= Seq::<(u64, String)>::empty());
            assert(all.skip(0) =~= all);
        }
        while rest.len() > 0
            invariant
                all == old(self)@,
                keep == (|e: (u64, String)| is_recent(now, e.0)),
                rest@.len() <= all.len(),
                rest@ == all.skip(all.len() - rest@.len()),
                kept@ == all.take(all.len() - rest@.len()).filter(keep),
            decreases rest@.len(),
        {
            let ghost done = all.len() - rest@.len();
            let e = rest.pop_front();
            match e {
                Some(entry) => {
                    proof {
                        assert(entry == all[done]);
                        assert(all.take(done + 1).drop_last() =~= all.take(done));
                        assert(all.take(done + 1).last() == all[done]);
                        reveal(Seq::filter);
                        assert(rest@ =~= all.skip(done + 1));
                    }
                    if entry.0 >= now || now - entry.0 < ENTRY_LIFETIME_MS {
                        kept.push_back(entry);
                    }
                },
                None => {},
            }
        }
        proof {
            assert(all.take(all.len() as int) =~= all);
        }
        self.entries = kept;
    }

    /// The entries, newest first.
    pub fn newest_first(&self) -> (r: Vec<(u64, String)>)
        ensures
            r@ == self@.reverse(),
    {
        let mut out: Vec<(u64, String)> = Vec::new();
        let n = self.entries.len();
        let mut i: usize = n;
        while i > 0
            invariant
                n == self@.len(),
                i <= n,
                out@.len() == n - i,
                forall|k: int| 0 <= k < n - i ==> out@[k] == self@[n - 1 - k],
            decreases i,
        {
            i = i - 1;
            let entry = &self.entries[i];
            out.push((entry.0, entry.1.clone()));
        }
        assert(out@ =~= self@.reverse());
        out
    }
}

} // verus!
