//! The safepoint protocol: the rendezvous between mutator threads and
//! the collector.
//!
//! The global state is a flag (`gc_running`), a re-entry counter
//! guarded by the safepoint lock, and the count of registered mutators.
//! This module holds the protocol's decisions and their invariants; the
//! embedding runtime owns the lock, the atomics and the spin loops, and
//! drives these transitions under its lock, one at a time — which is
//! exactly the unique access `&mut self` models.
//!
//! Central invariants: at most one collection owns the flag at a
//! time, and a positive re-entry count implies the flag is held.

use vstd::prelude::*;

verus! {

/// The state a mutator thread publishes for safepoint observation.
#[derive(Clone, Copy, PartialEq, Eq, Structural, Debug)]
pub enum ThreadState {
    /// Executing mutator code that may touch heap pointers.
    Unsafe,
    /// Parked at an explicit safepoint poll.
    Safe,
    /// Blocked in a runtime service; safe to observe.
    Waiting,
    /// Terminal pre-join state.
    Parked,
}

impl ThreadState {
    /// A state in which the collector may inspect the heap: anything
    /// but actively mutating.
    pub open spec fn spec_safe_for_safepoint(self) -> bool {
        self != ThreadState::Unsafe
    }

    /// Whether the collector may observe a mutator in this state.
    pub fn safe_for_safepoint(self) -> (r: bool)
        ensures
            r == self.spec_safe_for_safepoint(),
    {
        match self {
            ThreadState::Unsafe => false,
            ThreadState::Safe => true,
            ThreadState::Waiting => true,
            ThreadState::Parked => true,
        }
    }
}

/// Whether every registered mutator is observably parked in a state
/// safe for the safepoint; the condition the collector spins on before
/// inspecting the heap.
pub fn all_safe_for_safepoint(states: &Vec<ThreadState>) -> (r: bool)
    ensures
        r == forall|i: int|
            0 <= i < states@.len() ==> (#[trigger] states@[i]).spec_safe_for_safepoint(),
{
    let n = states.len();
    let mut i: usize = 0;
    while i < n
        invariant
            n == states@.len(),
            i <= n,
            forall|k: int| 0 <= k < i ==> (#[trigger] states@[k]).spec_safe_for_safepoint(),
        decreases n - i,
    {
        if !states[i].safe_for_safepoint() {
            return false;
        }
        i += 1;
    }
    true
}

/// The global safepoint state: the collection flag, the safepoint
/// re-entry counter, and the number of registered mutators.
pub struct GlobalSafepoint {
    pub safepoint_enable_cnt: u8,
    pub gc_running: u32,
    pub n_mutators: u32,
}

/// How one `start` call relates the global state before and after: the
/// caller wins exactly when the flag was clear, a winner raises it
/// and bumps the re-entry counter, and a loser changes nothing.
pub open spec fn start_transition(pre: GlobalSafepoint, post: GlobalSafepoint, won: bool) -> bool {
    &&& won == (pre.gc_running == 0)
    &&& post.n_mutators == pre.n_mutators
    &&& won ==> post.gc_running == 1 && post.safepoint_enable_cnt == pre.safepoint_enable_cnt + 1
    &&& !won ==> post == pre
}

impl GlobalSafepoint {
    /// Well-formedness: the flag is binary, a positive re-entry count
    /// implies a running collection, and the compare-and-swap on the
    /// flag keeps the depth at one.
    pub open spec fn wf(self) -> bool {
        &&& self.gc_running <= 1
        &&& self.safepoint_enable_cnt <= 1
        &&& self.safepoint_enable_cnt > 0 ==> self.gc_running == 1
    }

    /// The initial state: no collection, no re-entries, no mutators.
    pub fn new() -> (r: Self)
        ensures
            r.wf(),
            r.gc_running == 0,
            r.safepoint_enable_cnt == 0,
            r.n_mutators == 0,
    {
        GlobalSafepoint { safepoint_enable_cnt: 0, gc_running: 0, n_mutators: 0 }
    }

    /// Raises the safepoint re-entry counter; called while a
    /// collection is running.
    fn enable(&mut self)
        requires
            old(self).wf(),
            old(self).gc_running == 1,
            old(self).safepoint_enable_cnt == 0,
        ensures
            final(self).wf(),
            final(self).safepoint_enable_cnt == old(self).safepoint_enable_cnt + 1,
            final(self).gc_running == old(self).gc_running,
            final(self).n_mutators == old(self).n_mutators,
    {
        self.safepoint_enable_cnt = self.safepoint_enable_cnt + 1;
    }

    /// Lowers the safepoint re-entry counter; called while a
    /// collection is running.
    fn disable(&mut self)
        requires
            old(self).safepoint_enable_cnt > 0,
        ensures
            final(self).safepoint_enable_cnt == old(self).safepoint_enable_cnt - 1,
            final(self).gc_running == old(self).gc_running,
            final(self).n_mutators == old(self).n_mutators,
    {
        self.safepoint_enable_cnt = self.safepoint_enable_cnt - 1;
    }

    /// The start protocol: attempts to raise the collection flag.
    /// Returns true when this caller now owns the stop-the-world, and
    /// false when another collection is already running — a successful
    /// signal, not an error; the loser is expected to wait for the
    /// winner instead.
    pub fn start(&mut self) -> (won: bool)
        requires
            old(self).wf(),
        ensures
            final(self).wf(),
            start_transition(*old(self), *final(self), won),
    {
        if self.gc_running != 0 {
            return false;
        }
        self.gc_running = 1;
        self.enable();
        true
    }

    /// The end protocol: clears the collection flag and lowers the
    /// re-entry counter.
    pub fn end(&mut self)
        requires
            old(self).wf(),
            old(self).gc_running == 1,
            old(self).safepoint_enable_cnt > 0,
        ensures
            final(self).wf(),
            final(self).gc_running == 0,
            final(self).safepoint_enable_cnt == old(self).safepoint_enable_cnt - 1,
            final(self).n_mutators == old(self).n_mutators,
    {
        self.disable();
        self.gc_running = 0;
    }

    /// Whether a collection is in progress; the condition `wait_gc`
    /// and the mutator-side poll spin on.
    pub fn gc_in_progress(&self) -> (r: bool)
        ensures
            r == (self.gc_running == 1),
    {
        self.gc_running == 1
    }

    /// Registers one mutator.
    pub fn register_mutator(&mut self)
        requires
            old(self).n_mutators < u32::MAX,
        ensures
            final(self).n_mutators == old(self).n_mutators + 1,
            final(self).gc_running == old(self).gc_running,
            final(self).safepoint_enable_cnt == old(self).safepoint_enable_cnt,
    {
        self.n_mutators = self.n_mutators + 1;
    }

    /// Unregisters one mutator.
    pub fn unregister_mutator(&mut self)
        requires
            old(self).n_mutators > 0,
        ensures
            final(self).n_mutators == old(self).n_mutators - 1,
            final(self).gc_running == old(self).gc_running,
            final(self).safepoint_enable_cnt == old(self).safepoint_enable_cnt,
    {
        self.n_mutators = self.n_mutators - 1;
    }
}

/// At most one of two consecutive `start` calls can win the flag: once
/// a collection owns it, every later attempt loses until `end` runs.
pub proof fn lemma_at_most_one_collector(
    s0: GlobalSafepoint,
    s1: GlobalSafepoint,
    s2: GlobalSafepoint,
    w1: bool,
    w2: bool,
)
    requires
        s0.wf(),
        start_transition(s0, s1, w1),
        start_transition(s1, s2, w2),
    ensures
        !(w1 && w2),
{
}

/// After the winner ends its collection, the flag is clear again and
/// a new `start` can win.
pub proof fn lemma_end_reopens_collection(s0: GlobalSafepoint, s1: GlobalSafepoint, w: bool)
    requires
        s0.wf(),
        start_transition(s0, s1, w),
        w,
    ensures
        s1.gc_running == 1,
        s1.safepoint_enable_cnt > 0,
{
}

/// The scoped stop-the-world guard: opening it performs the start
/// protocol, closing it performs the end protocol and reports the
/// state the initiating mutator should be restored to.  The embedding
/// runtime additionally spins, between opening and inspecting the
/// heap, until `all_safe_for_safepoint` holds of the mutators.
pub struct SafepointScope {
    pub old_state: ThreadState,
    pub has_mutator: bool,
}

impl SafepointScope {
    /// Opens a stop-the-world scope on behalf of a mutator whose state
    /// (already published as `Waiting` by the caller) was `old_state`.
    /// Returns None when another collection is running; the caller
    /// then restores its state and waits.
    pub fn new(safepoint: &mut GlobalSafepoint, old_state: ThreadState) -> (r: Option<Self>)
        requires
            old(safepoint).wf(),
        ensures
            final(safepoint).wf(),
            start_transition(*old(safepoint), *final(safepoint), r is Some),
            r is Some ==> r->Some_0.old_state == old_state && r->Some_0.has_mutator,
    {
        if safepoint.start() {
            Some(SafepointScope { old_state, has_mutator: true })
        } else {
            None
        }
    }

    /// Opens a stop-the-world scope from an unmanaged thread, with no
    /// mutator state to restore.  No collection may be running: the
    /// embedder guarantees no competitor, and losing the race here is
    /// treated as a fatal error.
    pub fn new_no_mutator(safepoint: &mut GlobalSafepoint) -> (r: Self)
        requires
            old(safepoint).wf(),
            old(safepoint).gc_running == 0,
        ensures
            final(safepoint).wf(),
            start_transition(*old(safepoint), *final(safepoint), true),
            !r.has_mutator,
    {
        safepoint.start();
        SafepointScope { old_state: ThreadState::Unsafe, has_mutator: false }
    }

    /// Closes the scope: performs the end protocol and hands back the
    /// state to restore on the initiating mutator, if there was one.
    pub fn close(self, safepoint: &mut GlobalSafepoint) -> (restore: Option<ThreadState>)
        requires
            old(safepoint).wf(),
            old(safepoint).gc_running == 1,
            old(safepoint).safepoint_enable_cnt > 0,
        ensures
            final(safepoint).wf(),
            final(safepoint).gc_running == 0,
            final(safepoint).safepoint_enable_cnt == old(safepoint).safepoint_enable_cnt - 1,
            final(safepoint).n_mutators == old(safepoint).n_mutators,
            restore == if self.has_mutator {
                Some(self.old_state)
            } else {
                Option::<ThreadState>::None
            },
    {
        safepoint.end();
        if self.has_mutator {
            Some(self.old_state)
        } else {
            None
        }
    }
}

} // verus!
