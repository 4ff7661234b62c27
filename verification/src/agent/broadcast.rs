//! Announcing and withdrawing records at the directory targets: how each
//! send and each answer counts toward the health counters.
use vstd::prelude::*;

use crate::directory::entry::TopicEntry;
use crate::directory::health::{ControlPlaneHealth, DirectoryHealth, bump};
use crate::directory::protocol::{MAX_DIRECTORY_BATCH, ResolveResponse};
use crate::directory::store::{copy_entry, entry_views};
use crate::error::Result;

verus! {

/// `x` bumped `n` times.
pub open spec fn bumps(x: u64, n: nat) -> u64
    decreases n,
{
    if n == 0 {
        x
    } else {
        bump(bumps(x, (n - 1) as nat))
    }
}

/// What a broadcast sends.
#[derive(Debug, Clone, Copy, PartialEq, Eq, Structural)]
pub enum BroadcastKind {
    /// Signed records to install.
    Announce,
    /// Signed withdrawals to apply.
    Withdraw,
}

/// Whether `reply` is the success answer to a broadcast of `kind`.
pub open spec fn is_success(kind: BroadcastKind, reply: Result<ResolveResponse>) -> bool {
    match kind {
        BroadcastKind::Announce => reply matches Ok(ResolveResponse::Announced { .. }),
        BroadcastKind::Withdraw => reply matches Ok(ResolveResponse::Withdrawn { .. }),
    }
}

/// The number of `false` entries among `s`.
pub open spec fn count_false(s: Seq<bool>) -> nat
    decreases s.len(),
{
    if s.len() == 0 {
        0
    } else {
        count_false(s.drop_last()) + if s.last() {
            0nat
        } else {
            1nat
        }
    }
}

proof fn lemma_count_false_bound(s: Seq<bool>)
    ensures
        count_false(s) <= s.len(),
    decreases s.len(),
{
    if s.len() > 0 {
        lemma_count_false_bound(s.drop_last());
    }
}

/// A broadcast awaiting answers.
#[derive(Debug)]
pub struct Broadcast {
    /// What was sent.
    pub kind: BroadcastKind,
    /// Targets whose answer is still awaited.
    pub pending: usize,
}

impl Broadcast {
    /// A broadcast of `kind` was handed to each target, `sent[j]` telling
    /// whether target `j` took it: every target that did not counts as a
    /// failure, the others are awaited (and, for announcements, counted as
    /// pending).
    pub fn begin(kind: BroadcastKind, health: &mut ControlPlaneHealth, sent: &Vec<bool>) -> (b: Self)
        ensures
            b.kind == kind,
            b.pending + count_false(sent@) == sent@.len(),
            final(health)@ == (DirectoryHealth {
                announcement_failures: bumps(
                    old(health)@.announcement_failures,
                    count_false(sent@),
                ),
                pending_announcements: if kind == BroadcastKind::Announce {
                    b.pending as u64
                } else {
                    old(health)@.pending_announcements
                },
                ..old(health)@
            }),
    {
        let ghost h0 = health@;
        let mut pending: usize = 0;
        let mut i: usize = 0;
        while i < sent.len()
            invariant
                i <= sent@.len(),
                pending + count_false(sent@.take(i as int)) == i,
                health@ == (DirectoryHealth {
                    announcement_failures: bumps(
                        h0.announcement_failures,
                        count_false(sent@.take(i as int)),
                    ),
                    ..h0
                }),
            decreases sent@.len() - i,
        {
            assert(sent@.take(i + 1).drop_last() =~= sent@.take(i as int));
            if sent[i] {
                pending = pending + 1;
            } else {
                health.announcement_failed();
            }
            i = i + 1;
        }
        assert(sent@.take(sent@.len() as int) =~= sent@);
        if kind == BroadcastKind::Announce {
            health.set_pending_announcements(pending as u64);
        }
        Broadcast { kind, pending }
    }

    /// An awaited target answered `reply` (an error when the call failed,
    /// timed out or its reply channel closed).
    pub fn on_reply(&mut self, health: &mut ControlPlaneHealth, reply: &Result<ResolveResponse>)
        requires
            old(self).pending > 0,
        ensures
            final(self).kind == old(self).kind,
            final(self).pending == old(self).pending - 1,
            final(health)@ == (DirectoryHealth {
                successful_announcements: if is_success(old(self).kind, *reply) {
                    bump(old(health)@.successful_announcements)
                } else {
                    old(health)@.successful_announcements
                },
                announcement_failures: if is_success(old(self).kind, *reply) {
                    old(health)@.announcement_failures
                } else {
                    bump(old(health)@.announcement_failures)
                },
                pending_announcements: if old(self).kind == BroadcastKind::Announce {
                    final(self).pending as u64
                } else {
                    old(health)@.pending_announcements
                },
                ..old(health)@
            }),
    {
        let success = match (self.kind, reply) {
            (BroadcastKind::Announce, Ok(ResolveResponse::Announced { .. })) => true,
            (BroadcastKind::Withdraw, Ok(ResolveResponse::Withdrawn { .. })) => true,
            _ => false,
        };
        if success {
            health.announcement_succeeded();
        } else {
            health.announcement_failed();
        }
        self.pending = self.pending - 1;
        if self.kind == BroadcastKind::Announce {
            health.set_pending_announcements(self.pending as u64);
        }
    }

    /// The deadline passed: every target still awaited counts as a failure,
    /// and nothing is pending any more.
    pub fn finish(self, health: &mut ControlPlaneHealth)
        ensures
            final(health)@ == (DirectoryHealth {
                announcement_failures: bumps(
                    old(health)@.announcement_failures,
                    self.pending as nat,
                ),
                pending_announcements: if self.kind == BroadcastKind::Announce {
                    0
                } else {
                    old(health)@.pending_announcements
                },
                ..old(health)@
            }),
    {
        let ghost h0 = health@;
        let mut i: usize = 0;
        while i < self.pending
            invariant
                i <= self.pending,
                health@ == (DirectoryHealth {
                    announcement_failures: bumps(h0.announcement_failures, i as nat),
                    ..h0
                }),
            decreases self.pending - i,
        {
            health.announcement_failed();
            i = i + 1;
        }
        if self.kind == BroadcastKind::Announce {
            health.set_pending_announcements(0);
        }
    }
}

/// Records split into announcements of at most [`MAX_DIRECTORY_BATCH`]
/// records each, in order.
pub fn announcement_batches(entries: &Vec<TopicEntry>) -> (r: Vec<Vec<TopicEntry>>)
    ensures
        forall|j: int|
            0 <= j < r@.len() ==> 0 < (#[trigger] r@[j])@.len() <= MAX_DIRECTORY_BATCH,
        forall|j: int|
            #![trigger r@[j]]
            0 <= j < r@.len() ==> entry_views(r@[j]@) == entry_views(entries@).subrange(
                j * MAX_DIRECTORY_BATCH,
                j * MAX_DIRECTORY_BATCH + r@[j]@.len(),
            ),
        r@.len() * MAX_DIRECTORY_BATCH >= entries@.len(),
        r@.len() == 0 || (r@.len() - 1) * MAX_DIRECTORY_BATCH < entries@.len(),
{
    let ghost es = entry_views(entries@);
    let mut out: Vec<Vec<TopicEntry>> = Vec::new();
    let mut batch: Vec<TopicEntry> = Vec::new();
    let mut i: usize = 0;
    while i < entries.len()
        invariant
            i <= entries@.len(),
            es == entry_views(entries@),
            batch@.len() < MAX_DIRECTORY_BATCH,
            i == out@.len() * MAX_DIRECTORY_BATCH + batch@.len(),
            entry_views(batch@) == es.subrange(
                out@.len() * MAX_DIRECTORY_BATCH,
                out@.len() * MAX_DIRECTORY_BATCH + batch@.len(),
            ),
            forall|j: int|
                0 <= j < out@.len() ==> (#[trigger] out@[j])@.len() == MAX_DIRECTORY_BATCH,
            forall|j: int|
                #![trigger out@[j]]
                0 <= j < out@.len() ==> entry_views(out@[j]@) == es.subrange(
                    j * MAX_DIRECTORY_BATCH,
                    j * MAX_DIRECTORY_BATCH + MAX_DIRECTORY_BATCH,
                ),
        decreases entries@.len() - i,
    {
        let ghost b0 = batch@;
        batch.push(copy_entry(&entries[i]));
        let ghost base = out@.len() * MAX_DIRECTORY_BATCH;
        assert(entry_views(batch@) =~= entry_views(b0).push(es[i as int]));
        assert(es.subrange(base, base + batch@.len()) =~= es.subrange(base, base + b0.len()).push(
            es[i as int],
        ));
        if batch.len() == MAX_DIRECTORY_BATCH {
            let full = batch;
            batch = Vec::new();
            out.push(full);
            assert(entry_views(batch@) =~= Seq::<crate::directory::entry::EntryView>::empty());
            proof {
                assert forall|j: int| #![trigger out@[j]] 0 <= j < out@.len() implies entry_views(
                    out@[j]@,
                ) == es.subrange(j * MAX_DIRECTORY_BATCH, j * MAX_DIRECTORY_BATCH
                    + MAX_DIRECTORY_BATCH) by {
                    if j == out@.len() - 1 {
                        assert(j * MAX_DIRECTORY_BATCH == base);
                    }
                }
            }
        }
        i = i + 1;
    }
    if batch.len() > 0 {
        out.push(batch);
    }
    proof {
        assert forall|j: int| #![trigger out@[j]] 0 <= j < out@.len() implies entry_views(out@[j]@)
            == es.subrange(j * MAX_DIRECTORY_BATCH, j * MAX_DIRECTORY_BATCH + out@[j]@.len()) by {
        }
    }
    out
}

} // verus!
