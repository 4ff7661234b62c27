//! Control-plane timing: internal deadlines and the maintenance schedule,
//! in whole milliseconds.
use vstd::prelude::*;

verus! {

/// The deadline the control loop gives itself inside a caller-visible
/// `timeout`: it keeps back half the timeout, at most 100 ms, so a reply
/// still reaches the caller in time.
pub open spec fn internal_timeout(timeout_ms: u64) -> u64 {
    let reserve = if timeout_ms / 2 < 100 {
        timeout_ms / 2
    } else {
        100
    };
    (timeout_ms - reserve) as u64
}

/// The control loop's internal deadline inside `timeout_ms`.
pub fn internal_control_timeout_ms(timeout_ms: u64) -> (r: u64)
    ensures
        r == internal_timeout(timeout_ms),
{
    let half = timeout_ms / 2;
    let reserve = if half < 100 {
        half
    } else {
        100
    };
    timeout_ms - reserve
}

/// Maintenance runs every third of a lease, no more often than every 10 ms
/// and no less often than every 5 s.
pub open spec fn maintenance_interval(lease_ms: u64) -> u64 {
    let third = lease_ms / 3;
    if third < 10 {
        10
    } else if third > 5000 {
        5000
    } else {
        third
    }
}

/// The maintenance interval for records leased for `lease_ms`.
pub fn control_interval_ms(lease_ms: u64) -> (r: u64)
    ensures
        r == maintenance_interval(lease_ms),
{
    let third = lease_ms / 3;
    if third < 10 {
        10
    } else if third > 5000 {
        5000
    } else {
        third
    }
}

/// The longest the control loop waits for a command before it looks at its
/// shutdown signal and its maintenance schedule again.
pub const COMMAND_POLL_MS: u64 = 50;

/// What a control command asks the control loop to do.
#[derive(Debug, Clone, Copy, PartialEq, Eq, Structural)]
pub enum CommandKind {
    /// Resolve one topic through the directory targets.
    Query,
    /// Fetch every target's records now.
    Reconcile,
    /// Send signed records to the targets.
    Announce,
    /// Send signed withdrawals to the targets.
    Withdraw,
    /// Re-sign every hosted record now.
    Renew,
}

/// Whether a command does the work of a maintenance pass.
pub open spec fn is_maintenance(kind: CommandKind) -> bool {
    kind == CommandKind::Reconcile || kind == CommandKind::Renew
}

/// When the control loop next runs maintenance, on a monotonic millisecond
/// clock.
#[derive(Debug, Clone, Copy)]
pub struct MaintenanceSchedule {
    /// Milliseconds between passes.
    pub interval_ms: u64,
    /// The time of the next pass.
    pub next_ms: u64,
}

/// `now + interval`, saturating.
pub open spec fn after(now_ms: u64, interval_ms: u64) -> u64 {
    if now_ms + interval_ms > u64::MAX {
        u64::MAX
    } else {
        (now_ms + interval_ms) as u64
    }
}

impl MaintenanceSchedule {
    /// A schedule for records leased for `lease_ms`, due at once.
    pub fn new(lease_ms: u64, now_ms: u64) -> (s: Self)
        ensures
            s.interval_ms == maintenance_interval(lease_ms),
            s.next_ms == now_ms,
    {
        MaintenanceSchedule { interval_ms: control_interval_ms(lease_ms), next_ms: now_ms }
    }

    /// How long to wait for a command at `now_ms`: until the next pass, at
    /// most [`COMMAND_POLL_MS`].
    pub fn wait_ms(&self, now_ms: u64) -> (r: u64)
        ensures
            r == if self.next_ms <= now_ms {
                0
            } else if self.next_ms - now_ms < COMMAND_POLL_MS {
                (self.next_ms - now_ms) as u64
            } else {
                COMMAND_POLL_MS
            },
    {
        if self.next_ms <= now_ms {
            0
        } else if self.next_ms - now_ms < COMMAND_POLL_MS {
            self.next_ms - now_ms
        } else {
            COMMAND_POLL_MS
        }
    }

    /// Whether a maintenance pass is due at `now_ms`.
    pub fn is_due(&self, now_ms: u64) -> (r: bool)
        ensures
            r == (now_ms >= self.next_ms),
    {
        now_ms >= self.next_ms
    }

    /// A command of `kind` finished at `now_ms`: one that did a
    /// maintenance pass's work pushes the next pass a full interval out.
    pub fn command_ran(&mut self, kind: CommandKind, now_ms: u64)
        ensures
            final(self).interval_ms == old(self).interval_ms,
            final(self).next_ms == if is_maintenance(kind) {
                after(now_ms, old(self).interval_ms)
            } else {
                old(self).next_ms
            },
    {
        if kind == CommandKind::Reconcile || kind == CommandKind::Renew {
            self.next_ms = now_ms.saturating_add(self.interval_ms);
        }
    }

    /// A maintenance pass finished at `now_ms`.
    pub fn maintenance_ran(&mut self, now_ms: u64)
        ensures
            final(self).interval_ms == old(self).interval_ms,
            final(self).next_ms == after(now_ms, old(self).interval_ms),
    {
        self.next_ms = now_ms.saturating_add(self.interval_ms);
    }
}

} // verus!
