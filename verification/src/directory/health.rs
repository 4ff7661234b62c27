//! Observable control-plane health counters.
use vstd::prelude::*;

verus! {

/// A snapshot of the directory control plane's counters.
#[derive(Debug, Clone, Copy, Default, PartialEq, Eq, Structural)]
pub struct DirectoryHealth {
    /// Announcements a directory target accepted.
    pub successful_announcements: u64,
    /// Announcements or withdrawals that failed, were rejected, or timed out.
    pub announcement_failures: u64,
    /// Resolver receive or reply failures.
    pub resolver_errors: u64,
    /// Records or requests refused as invalid.
    pub rejected_records: u64,
    /// Unix milliseconds of the last successful reconciliation.
    pub last_successful_reconciliation_ms: u64,
    /// Seeds that did not complete the last reconciliation.
    pub stale_seeds: u64,
    /// Ownership or revision conflicts observed.
    pub conflicts: u64,
    /// Announcements still awaiting an answer.
    pub pending_announcements: u64,
}

/// `n + 1`, wrapping at `u64::MAX` as an atomic `fetch_add(1)` does.
pub open spec fn bump(n: u64) -> u64 {
    if n == u64::MAX {
        0
    } else {
        (n + 1) as u64
    }
}

fn inc(n: u64) -> (r: u64)
    ensures
        r == bump(n),
{
    if n == u64::MAX {
        0
    } else {
        n + 1
    }
}

/// One call on the counters of a [`ControlPlaneHealth`].
#[derive(Debug, Clone, Copy, PartialEq, Eq, Structural)]
pub enum HealthEvent {
    /// [`ControlPlaneHealth::announcement_succeeded`].
    AnnouncementSucceeded,
    /// [`ControlPlaneHealth::announcement_failed`].
    AnnouncementFailed,
    /// [`ControlPlaneHealth::resolver_error`].
    ResolverError,
    /// [`ControlPlaneHealth::reject_record`].
    RecordRejected,
    /// [`ControlPlaneHealth::reconciled`] with a timestamp and a stale-seed count.
    Reconciled(u64, u64),
    /// [`ControlPlaneHealth::set_stale_seeds`].
    StaleSeeds(u64),
    /// [`ControlPlaneHealth::conflict`].
    Conflict,
    /// [`ControlPlaneHealth::set_pending_announcements`].
    PendingAnnouncements(u64),
}

/// Every counter at zero.
pub open spec fn zero_health() -> DirectoryHealth {
    DirectoryHealth {
        successful_announcements: 0,
        announcement_failures: 0,
        resolver_errors: 0,
        rejected_records: 0,
        last_successful_reconciliation_ms: 0,
        stale_seeds: 0,
        conflicts: 0,
        pending_announcements: 0,
    }
}

/// The counters after one call.
pub open spec fn health_step(h: DirectoryHealth, e: HealthEvent) -> DirectoryHealth {
    match e {
        HealthEvent::AnnouncementSucceeded => DirectoryHealth {
            successful_announcements: bump(h.successful_announcements),
            ..h
        },
        HealthEvent::AnnouncementFailed => DirectoryHealth {
            announcement_failures: bump(h.announcement_failures),
            ..h
        },
        HealthEvent::ResolverError => DirectoryHealth { resolver_errors: bump(h.resolver_errors), ..h },
        HealthEvent::RecordRejected => DirectoryHealth { rejected_records: bump(h.rejected_records), ..h },
        HealthEvent::Reconciled(t, s) => DirectoryHealth {
            last_successful_reconciliation_ms: t,
            stale_seeds: s,
            ..h
        },
        HealthEvent::StaleSeeds(s) => DirectoryHealth { stale_seeds: s, ..h },
        HealthEvent::Conflict => DirectoryHealth { conflicts: bump(h.conflicts), ..h },
        HealthEvent::PendingAnnouncements(p) => DirectoryHealth { pending_announcements: p, ..h },
    }
}

/// The counters after the calls `evs`, in order, starting from `h`.
pub open spec fn health_after(h: DirectoryHealth, evs: Seq<HealthEvent>) -> DirectoryHealth
    decreases evs.len(),
{
    if evs.len() == 0 {
        h
    } else {
        health_step(health_after(h, evs.drop_last()), evs.last())
    }
}

/// How many of `evs` are `e` (for the counting calls).
pub open spec fn count_of(evs: Seq<HealthEvent>, e: HealthEvent) -> nat
    decreases evs.len(),
{
    if evs.len() == 0 {
        0
    } else {
        count_of(evs.drop_last(), e) + if evs.last() == e {
            1nat
        } else {
            0nat
        }
    }
}

/// The timestamp of the last reconciliation among `evs`, 0 if none.
pub open spec fn last_reconciliation(evs: Seq<HealthEvent>) -> u64
    decreases evs.len(),
{
    if evs.len() == 0 {
        0
    } else {
        match evs.last() {
            HealthEvent::Reconciled(t, _) => t,
            _ => last_reconciliation(evs.drop_last()),
        }
    }
}

/// The stale-seed count the last reconciliation or stale-seed call set, 0 if none.
pub open spec fn last_stale_seeds(evs: Seq<HealthEvent>) -> u64
    decreases evs.len(),
{
    if evs.len() == 0 {
        0
    } else {
        match evs.last() {
            HealthEvent::Reconciled(_, s) => s,
            HealthEvent::StaleSeeds(s) => s,
            _ => last_stale_seeds(evs.drop_last()),
        }
    }
}

/// The pending count the last pending-announcements call set, 0 if none.
pub open spec fn last_pending(evs: Seq<HealthEvent>) -> u64
    decreases evs.len(),
{
    if evs.len() == 0 {
        0
    } else {
        match evs.last() {
            HealthEvent::PendingAnnouncements(p) => p,
            _ => last_pending(evs.drop_last()),
        }
    }
}

/// `n` modulo 2^64, as a counter that wraps.
pub open spec fn wrapped(n: nat) -> u64 {
    (n % 0x1_0000_0000_0000_0000) as u64
}

proof fn lemma_bump_wrapped(n: nat)
    ensures
        bump(wrapped(n)) == wrapped(n + 1),
{
    let m: int = 0x1_0000_0000_0000_0000;
    let q = n as int / m;
    let r = n as int % m;
    vstd::arithmetic::div_mod::lemma_fundamental_div_mod(n as int, m);
    if r + 1 < m {
        vstd::arithmetic::div_mod::lemma_fundamental_div_mod_converse(n as int + 1, m, q, r + 1);
    } else {
        vstd::arithmetic::div_mod::lemma_fundamental_div_mod_converse(n as int + 1, m, q + 1, 0);
    }
}

/// The counters after any calls from zero: each counting call's counter is
/// how many times it was made (wrapping at 2^64), and each set value is the
/// one the last call that sets it gave (0 where none did).
pub proof fn lemma_health_after_calls(evs: Seq<HealthEvent>)
    ensures
        health_after(zero_health(), evs) == (DirectoryHealth {
            successful_announcements: wrapped(count_of(evs, HealthEvent::AnnouncementSucceeded)),
            announcement_failures: wrapped(count_of(evs, HealthEvent::AnnouncementFailed)),
            resolver_errors: wrapped(count_of(evs, HealthEvent::ResolverError)),
            rejected_records: wrapped(count_of(evs, HealthEvent::RecordRejected)),
            last_successful_reconciliation_ms: last_reconciliation(evs),
            stale_seeds: last_stale_seeds(evs),
            conflicts: wrapped(count_of(evs, HealthEvent::Conflict)),
            pending_announcements: last_pending(evs),
        }),
    decreases evs.len(),
{
    if evs.len() > 0 {
        let rest = evs.drop_last();
        lemma_health_after_calls(rest);
        lemma_bump_wrapped(count_of(rest, HealthEvent::AnnouncementSucceeded));
        lemma_bump_wrapped(count_of(rest, HealthEvent::AnnouncementFailed));
        lemma_bump_wrapped(count_of(rest, HealthEvent::ResolverError));
        lemma_bump_wrapped(count_of(rest, HealthEvent::RecordRejected));
        lemma_bump_wrapped(count_of(rest, HealthEvent::Conflict));
    }
}

/// The control plane's running counters.
#[derive(Debug, Default)]
pub struct ControlPlaneHealth {
    counters: DirectoryHealth,
}

impl View for ControlPlaneHealth {
    type V = DirectoryHealth;

    closed spec fn view(&self) -> DirectoryHealth {
        self.counters
    }
}

impl ControlPlaneHealth {
    /// All counters at zero.
    pub fn new() -> (h: Self)
        ensures
            h@ == (DirectoryHealth {
                successful_announcements: 0,
                announcement_failures: 0,
                resolver_errors: 0,
                rejected_records: 0,
                last_successful_reconciliation_ms: 0,
                stale_seeds: 0,
                conflicts: 0,
                pending_announcements: 0,
            }),
            h@ == zero_health(),
    {
        ControlPlaneHealth {
            counters: DirectoryHealth {
                successful_announcements: 0,
                announcement_failures: 0,
                resolver_errors: 0,
                rejected_records: 0,
                last_successful_reconciliation_ms: 0,
                stale_seeds: 0,
                conflicts: 0,
                pending_announcements: 0,
            },
        }
    }

    /// Count one accepted announcement.
    pub fn announcement_succeeded(&mut self)
        ensures
            final(self)@ == (DirectoryHealth {
                successful_announcements: bump(old(self)@.successful_announcements),
                ..old(self)@
            }),
            final(self)@ == health_step(old(self)@, HealthEvent::AnnouncementSucceeded),
    {
        self.counters.successful_announcements = inc(self.counters.successful_announcements);
    }

    /// Count one failed announcement or withdrawal.
    pub fn announcement_failed(&mut self)
        ensures
            final(self)@ == (DirectoryHealth {
                announcement_failures: bump(old(self)@.announcement_failures),
                ..old(self)@
            }),
            final(self)@ == health_step(old(self)@, HealthEvent::AnnouncementFailed),
    {
        self.counters.announcement_failures = inc(self.counters.announcement_failures);
    }

    /// Count one resolver failure.
    pub fn resolver_error(&mut self)
        ensures
            final(self)@ == (DirectoryHealth {
                resolver_errors: bump(old(self)@.resolver_errors),
                ..old(self)@
            }),
            final(self)@ == health_step(old(self)@, HealthEvent::ResolverError),
    {
        self.counters.resolver_errors = inc(self.counters.resolver_errors);
    }

    /// Count one refused record or request.
    pub fn reject_record(&mut self)
        ensures
            final(self)@ == (DirectoryHealth {
                rejected_records: bump(old(self)@.rejected_records),
                ..old(self)@
            }),
            final(self)@ == health_step(old(self)@, HealthEvent::RecordRejected),
    {
        self.counters.rejected_records = inc(self.counters.rejected_records);
    }

    /// Record a successful reconciliation at `timestamp_ms` with
    /// `stale_seeds` seeds left behind.
    pub fn reconciled(&mut self, timestamp_ms: u64, stale_seeds: u64)
        ensures
            final(self)@ == (DirectoryHealth {
                last_successful_reconciliation_ms: timestamp_ms,
                stale_seeds,
                ..old(self)@
            }),
            final(self)@ == health_step(old(self)@, HealthEvent::Reconciled(timestamp_ms, stale_seeds)),
    {
        self.counters.last_successful_reconciliation_ms = timestamp_ms;
        self.counters.stale_seeds = stale_seeds;
    }

    /// Set the number of seeds that have not completed reconciliation.
    pub fn set_stale_seeds(&mut self, stale_seeds: u64)
        ensures
            final(self)@ == (DirectoryHealth { stale_seeds, ..old(self)@ }),
            final(self)@ == health_step(old(self)@, HealthEvent::StaleSeeds(stale_seeds)),
    {
        self.counters.stale_seeds = stale_seeds;
    }

    /// Count one ownership or revision conflict.
    pub fn conflict(&mut self)
        ensures
            final(self)@ == (DirectoryHealth { conflicts: bump(old(self)@.conflicts), ..old(self)@ }),
            final(self)@ == health_step(old(self)@, HealthEvent::Conflict),
    {
        self.counters.conflicts = inc(self.counters.conflicts);
    }

    /// Set the number of announcements awaiting an answer.
    pub fn set_pending_announcements(&mut self, pending: u64)
        ensures
            final(self)@ == (DirectoryHealth { pending_announcements: pending, ..old(self)@ }),
            final(self)@ == health_step(old(self)@, HealthEvent::PendingAnnouncements(pending)),
    {
        self.counters.pending_announcements = pending;
    }

    /// Snapshot every counter.
    pub fn snapshot(&self) -> (h: DirectoryHealth)
        ensures
            h == self@,
    {
        self.counters
    }
}

} // verus!
