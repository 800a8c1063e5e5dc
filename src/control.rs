use vstd::prelude::*;

use crate::structs::{ChangeWallpapper, TimeOfDay};

verus! {

/// Longest pause of the schedule loop between two passes, in milliseconds.
pub const FALLBACK_SLEEP_MS: u32 = 60_000;

/// What one pass of the schedule loop does: apply an entry (by its index in the
/// schedule), then pause.
#[derive(Debug, Clone, Copy, PartialEq, Eq, Structural)]
pub struct LoopStep {
    pub apply: Option<usize>,
    pub sleep_ms: u32,
}

/// The pass of a loop that last applied `last`, given a lookup result `q`: apply the active
/// entry unless it is the one last applied, and pause until the next entry starts, at most
/// for the fallback interval.
pub open spec fn step_for(last: Option<usize>, q: Option<(usize, u32)>) -> LoopStep {
    match q {
        None => LoopStep { apply: None, sleep_ms: FALLBACK_SLEEP_MS },
        Some((i, w)) => LoopStep {
            apply: if last == Some(i) {
                None
            } else {
                Some(i)
            },
            sleep_ms: if w < FALLBACK_SLEEP_MS {
                w
            } else {
                FALLBACK_SLEEP_MS
            },
        },
    }
}

/// The memory of one schedule loop: the entry that it last applied with success.
#[derive(Debug, Clone, Copy, PartialEq, Eq, Structural)]
pub struct ScheduleLoop {
    pub last_applied: Option<usize>,
}

impl ScheduleLoop {
    /// A loop that has applied nothing yet, so that its first pass applies.
    pub fn new() -> (r: ScheduleLoop)
        ensures
            r.last_applied is None,
    {
        ScheduleLoop { last_applied: None }
    }

    /// The pass at time `now` on `schedule`.
    pub fn tick(&self, schedule: &ChangeWallpapper, now: TimeOfDay) -> (r: LoopStep)
        requires
            schedule.wf(),
            now.wf(),
        ensures
            exists|q: Option<(usize, u32)>|
                schedule.lookup_result(now, q) && r == #[trigger] step_for(self.last_applied, q),
    {
        let q = schedule.active_at(now);
        match q {
            None => LoopStep { apply: None, sleep_ms: FALLBACK_SLEEP_MS },
            Some((i, w)) => {
                let apply = match self.last_applied {
                    Some(l) => if l == i {
                        None
                    } else {
                        Some(i)
                    },
                    None => Some(i),
                };
                let sleep_ms = if w < FALLBACK_SLEEP_MS {
                    w
                } else {
                    FALLBACK_SLEEP_MS
                };
                let r = LoopStep { apply, sleep_ms };
                assert(r == step_for(self.last_applied, q));
                r
            },
        }
    }

    /// Records the outcome of applying `entry`: a success makes it the last applied entry; a
    /// failure leaves the memory as it was, so that a later pass tries again.
    pub fn applied(&mut self, entry: usize, ok: bool)
        ensures
            final(self).last_applied == if ok {
                Some(entry)
            } else {
                old(self).last_applied
            },
    {
        if ok {
            self.last_applied = Some(entry);
        }
    }
}

/// What the supervisor does on an event: cancel the running loop and wait for it to end,
/// then start a new loop.
#[derive(Debug, Clone, Copy, PartialEq, Eq, Structural)]
pub struct SupervisorAction {
    pub cancel: bool,
    pub start: bool,
}

/// The decision on an event: a loop that still runs is cancelled; a new one is started on
/// resume and not on entering sleep.
pub open spec fn decide(live: bool, sleeping: bool, finished: bool) -> SupervisorAction {
    SupervisorAction { cancel: live && !finished, start: !sleeping }
}

/// How many schedule loops run once `a` is carried out, where `live` says whether a loop
/// was started and not cancelled, and `finished` whether that loop has ended by itself.
pub open spec fn loops_running_after(live: bool, finished: bool, a: SupervisorAction) -> nat {
    (if live && !finished && !a.cancel {
        1nat
    } else {
        0nat
    }) + (if a.start {
        1nat
    } else {
        0nat
    })
}

/// The owner of the schedule loop's lifecycle across sleep and resume.
#[derive(Debug, Clone, Copy, PartialEq, Eq, Structural)]
pub struct Supervisor {
    /// A loop was started and has not been cancelled since.
    pub loop_live: bool,
}

impl Supervisor {
    /// A supervisor before startup: no loop.
    pub fn new() -> (r: Supervisor)
        ensures
            !r.loop_live,
    {
        Supervisor { loop_live: false }
    }

    /// At startup one loop is started, without waiting for a first event.
    pub fn on_startup(&mut self) -> (a: SupervisorAction)
        ensures
            a == decide(old(self).loop_live, false, false),
            final(self).loop_live,
    {
        self.on_event(false, false)
    }

    /// The decision on a sleep (`sleeping`) or resume (`!sleeping`) event, where
    /// `loop_finished` says whether the current loop has already ended.
    pub fn on_event(&mut self, sleeping: bool, loop_finished: bool) -> (a: SupervisorAction)
        ensures
            a == decide(old(self).loop_live, sleeping, loop_finished),
            final(self).loop_live == a.start,
    {
        let a = SupervisorAction { cancel: self.loop_live && !loop_finished, start: !sleeping };
        self.loop_live = a.start;
        a
    }
}

/// Whatever the supervisor's state and the event, at most one schedule loop runs once the
/// decision is carried out, and the supervisor's record of a live loop is exact.
pub proof fn lemma_at_most_one_loop(live: bool, sleeping: bool, finished: bool)
    ensures
        loops_running_after(live, finished, decide(live, sleeping, finished)) <= 1,
        loops_running_after(live, finished, decide(live, sleeping, finished)) == (if decide(
            live,
            sleeping,
            finished,
        ).start {
            1nat
        } else {
            0nat
        }),
{
}

/// Whether a loop is live after startup and then the events `events`, each a pair of
/// `sleeping` and whether the current loop had ended by itself.
pub open spec fn live_after(events: Seq<(bool, bool)>) -> bool
    decreases events.len(),
{
    if events.len() == 0 {
        true
    } else {
        decide(live_after(events.drop_last()), events.last().0, events.last().1).start
    }
}

/// Over any run of events after startup, however close together, never more than one
/// schedule loop runs.
pub proof fn lemma_at_most_one_loop_over_events(events: Seq<(bool, bool)>)
    ensures
        forall|i: int|
            0 <= i < events.len() ==> {
                let live = #[trigger] live_after(events.take(i));
                loops_running_after(live, events[i].1, decide(live, events[i].0, events[i].1)) <= 1
            },
{
    assert forall|i: int| 0 <= i < events.len() implies {
        let live = #[trigger] live_after(events.take(i));
        loops_running_after(live, events[i].1, decide(live, events[i].0, events[i].1)) <= 1
    } by {
        lemma_at_most_one_loop(live_after(events.take(i)), events[i].0, events[i].1);
    };
}

} // verus!
