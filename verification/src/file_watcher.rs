//! The decision logic of the configuration watcher: which filesystem events
//! qualify a batch for a reload, the debounce state machine that batches a
//! burst of events into one reload decision, and the reload step itself —
//! merging a fresh scan into the live route table and clearing the response
//! cache so the next request re-reads from disk.

use vstd::prelude::*;
use crate::app_state::RouteTable;
use crate::cache::Cache;
use crate::request::RouteConfigModel;

verus! {

/// The kind of one filesystem notification.
#[derive(Debug, Clone, Copy, PartialEq, Eq, Structural)]
pub enum FsEventKind {
    Create,
    Modify,
    Remove,
    /// A pure access: never a reason to reload.
    Access,
    Other,
}

/// Whether one event can qualify a batch for a reload: a create, modify or
/// remove does; an access or anything else does not.
pub open spec fn is_significant(k: FsEventKind) -> bool {
    k == FsEventKind::Create || k == FsEventKind::Modify || k == FsEventKind::Remove
}

/// Whether a batch holds at least one qualifying event.
pub open spec fn any_significant(ks: Seq<FsEventKind>) -> bool {
    exists|i: int| 0 <= i < ks.len() && is_significant(#[trigger] ks[i])
}

fn is_significant_exec(k: FsEventKind) -> (r: bool)
    ensures
        r == is_significant(k),
{
    match k {
        FsEventKind::Create => true,
        FsEventKind::Modify => true,
        FsEventKind::Remove => true,
        FsEventKind::Access => false,
        FsEventKind::Other => false,
    }
}

/// Whether this batch of events qualifies for a reload.
pub fn batch_qualifies(events: &Vec<FsEventKind>) -> (r: bool)
    ensures
        r == any_significant(events@),
{
    let n: usize = events.len();
    let mut i: usize = 0;
    while i < n
        invariant
            n == events@.len(),
            i <= n,
            forall|j: int| 0 <= j < i ==> !is_significant(#[trigger] events@[j]),
        decreases n - i,
    {
        if is_significant_exec(events[i]) {
            return true;
        }
        i = i + 1;
    }
    proof {
        if any_significant(events@) {
            let j = choose|j: int| 0 <= j < events@.len() && is_significant(#[trigger] events@[j]);
            assert(!is_significant(events@[j]));
        }
    }
    false
}

/// The debounce state machine. Idle until an event arrives; each event
/// opens or extends a quiet window, and remembers whether anything
/// significant happened; once the window has elapsed, one poll hands out at
/// most one reload decision and the machine returns to idle.
pub struct Debouncer {
    window_ms: u64,
    deadline_ms: Option<u64>,
    pending_significant: bool,
}

impl Debouncer {
    /// The fixed quiet window.
    pub closed spec fn window_spec(&self) -> u64 {
        self.window_ms
    }

    /// When the current window ends, if one is open.
    pub closed spec fn deadline_spec(&self) -> Option<u64> {
        self.deadline_ms
    }

    /// Whether a significant event arrived since the last reload decision.
    pub closed spec fn pending_spec(&self) -> bool {
        self.pending_significant
    }

    /// An idle debouncer with the given quiet window.
    pub fn new(window_ms: u64) -> (d: Debouncer)
        ensures
            d.window_spec() == window_ms,
            d.deadline_spec() is None,
            !d.pending_spec(),
    {
        Debouncer { window_ms, deadline_ms: None, pending_significant: false }
    }

    /// Takes note of one event at time `now_ms`: the quiet window now ends
    /// a full window after this event (saturating at the clock's maximum),
    /// and a significant event marks the batch as qualifying.
    pub fn note_event(&mut self, kind: FsEventKind, now_ms: u64)
        ensures
            final(self).window_spec() == old(self).window_spec(),
            final(self).deadline_spec() == Some(
                if now_ms + old(self).window_spec() <= u64::MAX {
                    (now_ms + old(self).window_spec()) as u64
                } else {
                    u64::MAX
                },
            ),
            final(self).pending_spec() == (old(self).pending_spec() || is_significant(kind)),
    {
        let deadline: u64 = if now_ms <= u64::MAX - self.window_ms {
            now_ms + self.window_ms
        } else {
            u64::MAX
        };
        self.deadline_ms = Some(deadline);
        if is_significant_exec(kind) {
            self.pending_significant = true;
        }
    }

    /// Asks, at time `now_ms`, whether to reload now: yes exactly when an
    /// open window has elapsed and a significant event is pending. Once an
    /// elapsed window is polled the machine is idle again, however many
    /// events had accumulated.
    pub fn poll(&mut self, now_ms: u64) -> (reload: bool)
        ensures
            final(self).window_spec() == old(self).window_spec(),
            ({
                match old(self).deadline_spec() {
                    Some(d) => {
                        if now_ms >= d {
                            &&& reload == old(self).pending_spec()
                            &&& final(self).deadline_spec() is None
                            &&& !final(self).pending_spec()
                        } else {
                            &&& !reload
                            &&& *final(self) == *old(self)
                        }
                    },
                    None => {
                        &&& !reload
                        &&& *final(self) == *old(self)
                    },
                }
            }),
    {
        match self.deadline_ms {
            Some(d) => {
                if now_ms >= d {
                    let pending = self.pending_significant;
                    self.deadline_ms = None;
                    self.pending_significant = false;
                    pending
                } else {
                    false
                }
            },
            None => false,
        }
    }
}

/// One reload: merges the freshly scanned table into the live one — new and
/// changed patterns overwrite, while patterns whose backing file
/// disappeared stay until overwritten — and unconditionally clears the
/// response cache, so the next request for any route re-reads from disk.
pub fn apply_reload(table: &mut RouteTable, cache: &mut Cache, scanned: RouteTable)
    requires
        old(table).wf(),
        scanned.wf(),
        old(cache).wf(),
    ensures
        final(table).wf(),
        final(table).map_view() == old(table).map_view().union_prefer_right(scanned.map_view()),
        final(cache).wf(),
        final(cache).capacity_spec() == old(cache).capacity_spec(),
        final(cache).entries_view() == Seq::<(Seq<char>, RouteConfigModel)>::empty(),
{
    table.merge(scanned);
    cache.invalidate();
}

/// After a reload whose scan discovered pattern `u`, the route is
/// resolvable: the merged table maps `u` exactly as the scan does, whatever
/// the table held before — and `apply_reload` leaves the cache empty of any
/// stale entry.
pub proof fn lemma_reload_makes_route_resolvable<V>(
    before: Map<Seq<char>, V>,
    scanned: Map<Seq<char>, V>,
    u: Seq<char>,
)
    requires
        scanned.dom().contains(u),
    ensures
        before.union_prefer_right(scanned).dom().contains(u),
        before.union_prefer_right(scanned)[u] == scanned[u],
{
}

} // verus!
