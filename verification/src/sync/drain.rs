//! One pass over the queued mutations.
//!
//! Entries are taken one at a time: each is marked as applied, put back for a
//! later attempt or given up before the next one is claimed.

use super::backoff::{BackoffSchedule, Failure};
use std::time::Duration;
use vstd::prelude::*;

verus! {

/// What a pass does next.
#[derive(Debug, PartialEq, Eq)]
pub enum DrainStep {
    /// Claim the next entry that is due.
    Claim,
    /// Apply the claimed entry.
    Apply,
    /// Mark the entry as applied.
    MarkSucceeded,
    /// Put the entry back, due after the delay from now.
    Reschedule { delay: Duration },
    /// Give the entry up.
    MarkFailed,
    Done,
}

pub struct DrainPass {
    /// The entries marked as applied so far.
    pub succeeded: usize,
    /// The failures that the claimed entry had before.
    pub attempts: u32,
    pub step: DrainStep,
    /// The entries claimed so far.
    pub claimed: Ghost<nat>,
    /// The entries put back or given up so far.
    pub failed: Ghost<nat>,
}

impl DrainPass {
    /// An entry is claimed and not yet marked, put back or given up.
    pub open spec fn in_hand(self) -> bool {
        self.step != DrainStep::Claim && self.step != DrainStep::Done
    }

    /// What holds of a pass at every step: each claimed entry was marked, put
    /// back or given up, but for the one in hand.
    pub open spec fn wf(self) -> bool {
        self.claimed@ == self.succeeded + self.failed@ + if self.in_hand() {
            1nat
        } else {
            0nat
        }
    }

    /// Begin a pass.
    pub fn start() -> (out: Self)
        ensures
            out.wf(),
            out.succeeded == 0,
            out.step == DrainStep::Claim,
            out.claimed@ == 0,
            out.failed@ == 0,
    {
        DrainPass {
            succeeded: 0,
            attempts: 0,
            step: DrainStep::Claim,
            claimed: Ghost(0),
            failed: Ghost(0),
        }
    }

    /// An entry that failed so often before was claimed; `None` where none is
    /// due, which ends the pass.
    pub fn on_claimed(&mut self, attempts: Option<u32>)
        requires
            old(self).wf(),
            old(self).step == DrainStep::Claim,
        ensures
            final(self).wf(),
            *final(self) == match attempts {
                Some(attempts) => DrainPass {
                    attempts,
                    step: DrainStep::Apply,
                    claimed: Ghost(old(self).claimed@ + 1),
                    ..*old(self)
                },
                None => DrainPass { step: DrainStep::Done, ..*old(self) },
            },
    {
        match attempts {
            Some(attempts) => {
                self.attempts = attempts;
                self.step = DrainStep::Apply;
                self.claimed = Ghost(self.claimed@ + 1);
            },
            None => {
                self.step = DrainStep::Done;
            },
        }
    }

    /// The entry was applied, or could not be: it is then tried again while
    /// the schedule leaves an attempt.
    pub fn on_applied(&mut self, applied: bool, backoff: &BackoffSchedule)
        requires
            old(self).wf(),
            old(self).step == DrainStep::Apply,
        ensures
            final(self).wf(),
            *final(self) == (DrainPass { step: final(self).step, ..*old(self) }),
            if applied {
                final(self).step == DrainStep::MarkSucceeded
            } else if old(self).attempts + 1 >= backoff.cap() {
                final(self).step == DrainStep::MarkFailed
            } else {
                final(self).step matches DrainStep::Reschedule { delay } && backoff.is_wait(
                    (old(self).attempts + 1) as u32,
                    delay,
                )
            },
    {
        self.step = if applied {
            DrainStep::MarkSucceeded
        } else {
            match backoff.on_failure(self.attempts) {
                Failure::Retry { delay } => DrainStep::Reschedule { delay },
                Failure::DeadLetter => DrainStep::MarkFailed,
            }
        };
    }

    /// The entry was marked, put back or given up; only now is the next one
    /// claimed.
    pub fn on_recorded(&mut self)
        requires
            old(self).wf(),
            old(self).in_hand(),
            old(self).step != DrainStep::Apply,
            old(self).succeeded < usize::MAX,
        ensures
            final(self).wf(),
            *final(self) == if old(self).step == DrainStep::MarkSucceeded {
                DrainPass {
                    succeeded: (old(self).succeeded + 1) as usize,
                    step: DrainStep::Claim,
                    ..*old(self)
                }
            } else {
                DrainPass {
                    step: DrainStep::Claim,
                    failed: Ghost(old(self).failed@ + 1),
                    ..*old(self)
                }
            },
    {
        match self.step {
            DrainStep::MarkSucceeded => {
                self.succeeded += 1;
            },
            _ => {
                self.failed = Ghost(self.failed@ + 1);
            },
        }
        self.step = DrainStep::Claim;
    }
}

/// A pass that is through has resolved every entry it claimed: it counts those
/// that were applied, and the others were put back or given up.
pub proof fn law_pass_resolves_every_entry(done: DrainPass)
    requires
        done.wf(),
        done.step == DrainStep::Done,
    ensures
        done.claimed@ == done.succeeded + done.failed@,
{
}

/// An entry that was applied is marked and counted; one that failed is put back
/// while the schedule leaves an attempt, after the wait that it has for as many
/// attempts, and given up once it does not. The pass ends when nothing is due.
pub proof fn law_failed_entries_are_retried(
    claimed: &mut DrainPass,
    applied: &mut DrainPass,
    recorded: &mut DrainPass,
    attempts: Option<u32>,
    ok: bool,
    backoff: &BackoffSchedule,
)
    requires
        call_ensures(DrainPass::on_claimed, (claimed, attempts), ()),
        call_ensures(DrainPass::on_applied, (applied, ok, backoff), ()),
        call_ensures(DrainPass::on_recorded, (recorded,), ()),
        old(recorded).succeeded < usize::MAX,
    ensures
        attempts is None <==> final(claimed).step == DrainStep::Done,
        attempts is Some ==> final(claimed).step == DrainStep::Apply && final(claimed).attempts
            == attempts->0,
        final(claimed).succeeded == old(claimed).succeeded,
        ok <==> final(applied).step == DrainStep::MarkSucceeded,
        !ok && old(applied).attempts + 1 >= backoff.cap() ==> final(applied).step
            == DrainStep::MarkFailed,
        !ok && old(applied).attempts + 1 < backoff.cap() ==> {
            &&& final(applied).step is Reschedule
            &&& old(applied).attempts < backoff.waits().len()
                ==> final(applied).step->Reschedule_delay == backoff.waits()[old(applied).attempts as int]
            &&& 0 < backoff.waits().len() <= old(applied).attempts
                ==> final(applied).step->Reschedule_delay == backoff.waits().last()
        },
        final(applied).succeeded == old(applied).succeeded,
        final(recorded).step == DrainStep::Claim,
        final(recorded).succeeded == old(recorded).succeeded + if old(recorded).step
            == DrainStep::MarkSucceeded {
            1int
        } else {
            0int
        },
{
}

} // verus!
