//! Reconciliation: paging through every directory target's signed snapshot
//! and learning its records. The caller sends the requests and hands back
//! each reply; these functions decide what the reply means and what to ask
//! next.
use vstd::prelude::*;

use super::mode::{DirectoryMode, remote_targets, remote_targets_of};
use super::resolver::{after_refusal, note_refusal, sync_names_at};
use crate::directory::entry::{EndpointBytes, EntryView, TopicEntry, check_view};
use crate::directory::order::key_of;
use crate::directory::health::{ControlPlaneHealth, DirectoryHealth};
use crate::directory::protocol::{MAX_DIRECTORY_BATCH, RequestView, ResolveRequest, ResolveResponse};
use crate::directory::store::{
    Directory, DirectoryView, check_views, copy_check, entry_views, pruned, register_view,
};
use crate::error::{Error, ErrorView, Result};
use crate::naming::table::{NameTable, synced_with};

verus! {

/// How often a target that refused a page is asked again from the start.
pub const RECONCILE_RETRIES: usize = 2;

/// The listing request for one page of at most [`MAX_DIRECTORY_BATCH`]
/// records: the first page of a fresh snapshot when `generation` is none.
pub open spec fn list_request(generation: Option<u64>, offset: usize) -> RequestView {
    RequestView::List { generation, offset, limit: MAX_DIRECTORY_BATCH }
}

/// The request for one snapshot page.
pub fn page_request(generation: Option<u64>, offset: usize) -> (r: ResolveRequest)
    ensures
        r@ == list_request(generation, offset),
{
    ResolveRequest::List { generation, offset, limit: MAX_DIRECTORY_BATCH }
}

/// One target's progress through its snapshot.
#[derive(Debug, Clone, Copy)]
pub struct PageState {
    /// The directory target.
    pub target: EndpointBytes,
    /// The snapshot generation its first page reported, once known.
    pub generation: Option<u64>,
    /// The offset of the page asked for.
    pub offset: usize,
    /// How often the target refused and was asked again.
    pub retries: usize,
    /// Whether an answer is still awaited.
    pub open: bool,
}

/// A target not yet heard from.
pub open spec fn fresh_page(target: EndpointBytes) -> PageState {
    PageState { target, generation: None, offset: 0, retries: 0, open: true }
}

/// A reconciliation in progress.
#[derive(Debug)]
pub struct Reconciliation {
    /// Targets other than this machine.
    pub attempted: usize,
    /// One entry per such target, in target order.
    pub pages: Vec<PageState>,
    /// Records that changed the local directory.
    pub learned: usize,
    /// Targets whose snapshot was read to the end.
    pub healthy: usize,
}

/// `a + b`, saturating at `usize::MAX`.
pub open spec fn sat_add(a: usize, b: nat) -> usize {
    if a + b > usize::MAX {
        usize::MAX
    } else {
        (a + b) as usize
    }
}

/// Records `es[i..]` registered in order at `now`: the directory and
/// counters after, and how many changed the directory. A refused record is
/// counted as a conflict or a refusal and does not stop the rest.
pub open spec fn learn_from(
    v: DirectoryView,
    h: DirectoryHealth,
    es: Seq<EntryView>,
    checks: Seq<core::result::Result<bool, Seq<char>>>,
    now: u64,
    i: int,
) -> (DirectoryView, DirectoryHealth, nat)
    decreases es.len() - i,
{
    if i < 0 || i >= es.len() {
        (v, h, 0)
    } else {
        let (v1, r) = register_view(v, es[i], now, checks[i]);
        let h1 = match r {
            Ok(_) => h,
            Err(e) => after_refusal(h, e),
        };
        let gained: nat = match r {
            Ok(true) => 1,
            _ => 0,
        };
        let rest = learn_from(v1, h1, es, checks, now, i + 1);
        (rest.0, rest.1, rest.2 + gained)
    }
}

/// The directory, counters and count after offering the first `n` records
/// of a page (with their signature checks) in turn.
pub open spec fn learned_prefix(
    v: DirectoryView,
    h: DirectoryHealth,
    es: Seq<EntryView>,
    checks: Seq<core::result::Result<bool, Seq<char>>>,
    now: u64,
    n: int,
) -> (DirectoryView, DirectoryHealth, nat) {
    learn_from(v, h, es.take(n), checks.take(n), now, 0)
}

/// Learning `es[j..]` is learning `es[j..n]`, then `es[n..]` from there.
proof fn lemma_learn_split(
    v: DirectoryView,
    h: DirectoryHealth,
    es: Seq<EntryView>,
    checks: Seq<core::result::Result<bool, Seq<char>>>,
    now: u64,
    j: int,
    n: int,
)
    requires
        0 <= j <= n <= es.len(),
        checks.len() == es.len(),
    ensures
        ({
            let m = learn_from(v, h, es.take(n), checks.take(n), now, j);
            let rest = learn_from(m.0, m.1, es, checks, now, n);
            learn_from(v, h, es, checks, now, j) == (rest.0, rest.1, m.2 + rest.2)
        }),
    decreases n - j,
{
    if j < n {
        assert(es.take(n)[j] == es[j]);
        assert(checks.take(n)[j] == checks[j]);
        let (v1, r) = register_view(v, es[j], now, checks[j]);
        let h1 = match r {
            Ok(_) => h,
            Err(e) => after_refusal(h, e),
        };
        lemma_learn_split(v1, h1, es, checks, now, j + 1, n);
    }
}

/// Records of `es[j..]` never touch a live record under key `k` that none
/// of them shares.
proof fn lemma_learn_keeps(
    v: DirectoryView,
    h: DirectoryHealth,
    es: Seq<EntryView>,
    checks: Seq<core::result::Result<bool, Seq<char>>>,
    now: u64,
    j: int,
    e: EntryView,
)
    requires
        0 <= j,
        v.entries.contains_key(key_of(e)),
        v.entries[key_of(e)] == e,
        e.body.lease_expires_at_ms > now,
        forall|x: int| j <= x < es.len() ==> key_of(#[trigger] es[x]) != key_of(e),
    ensures
        learn_from(v, h, es, checks, now, j).0.entries.contains_key(key_of(e)),
        learn_from(v, h, es, checks, now, j).0.entries[key_of(e)] == e,
    decreases es.len() - j,
{
    if j < es.len() {
        let (v1, r) = register_view(v, es[j], now, checks[j]);
        let h1 = match r {
            Ok(_) => h,
            Err(e) => after_refusal(h, e),
        };
        assert(key_of(es[j]) != key_of(e));
        assert(v1.entries.contains_key(key_of(e)) && v1.entries[key_of(e)] == e);
        lemma_learn_keeps(v1, h1, es, checks, now, j + 1, e);
    }
}

/// A refused record does not stop a page: every record of the page that
/// the directory accepts at its turn (against the directory as the earlier
/// records of the page left it), and whose topic and exchange no later
/// record of the page shares, is in the directory after the whole page.
pub proof fn lemma_page_keeps_every_accepted_record(
    v: DirectoryView,
    h: DirectoryHealth,
    es: Seq<EntryView>,
    checks: Seq<core::result::Result<bool, Seq<char>>>,
    now: u64,
    i: int,
)
    requires
        0 <= i < es.len(),
        checks.len() == es.len(),
        register_view(learned_prefix(v, h, es, checks, now, i).0, es[i], now, checks[i]).1 is Ok,
        forall|x: int| i < x < es.len() ==> key_of(#[trigger] es[x]) != key_of(es[i]),
    ensures
        learn_from(v, h, es, checks, now, 0).0.entries.contains_key(key_of(es[i])),
        learn_from(v, h, es, checks, now, 0).0.entries[key_of(es[i])] == es[i],
{
    let s = learned_prefix(v, h, es, checks, now, i);
    let (v1, r) = register_view(s.0, es[i], now, checks[i]);
    let h1 = match r {
        Ok(_) => s.1,
        Err(e) => after_refusal(s.1, e),
    };
    lemma_learn_split(v, h, es, checks, now, 0, i);
    assert(learn_from(s.0, s.1, es, checks, now, i) == (learn_from(v1, h1, es, checks, now, i + 1).0, learn_from(v1, h1, es, checks, now, i + 1).1, learn_from(v1, h1, es, checks, now, i + 1).2 + match r {
        Ok(true) => 1nat,
        _ => 0nat,
    }));
    assert(v1.entries.contains_key(key_of(es[i])) && v1.entries[key_of(es[i])] == es[i]);
    lemma_learn_keeps(v1, h1, es, checks, now, i + 1, es[i]);
}

/// Register the records of one snapshot page, in order; returns how many
/// changed the directory.
fn learn_page(
    directory: &mut Directory,
    health: &mut ControlPlaneHealth,
    entries: Vec<TopicEntry>,
    checks: Vec<core::result::Result<bool, String>>,
    now: u64,
) -> (n: usize)
    requires
        old(directory).wf(),
        checks@.len() == entries@.len(),
    ensures
        final(directory).wf(),
        n <= entries@.len(),
        ({
            let l = learn_from(
                old(directory)@,
                old(health)@,
                entry_views(entries@),
                check_views(checks@),
                now,
                0,
            );
            &&& final(directory)@ == l.0
            &&& final(health)@ == l.1
            &&& n == l.2
        }),
{
    let ghost es = entry_views(entries@);
    let ghost cs = check_views(checks@);
    let ghost total = learn_from(directory@, health@, es, cs, now, 0);
    let mut n: usize = 0;
    let mut i: usize = 0;
    while i < entries.len()
        invariant
            i <= entries@.len(),
            n <= i,
            entries@.len() == checks@.len(),
            es == entry_views(entries@),
            cs == check_views(checks@),
            directory.wf(),
            ({
                let rest = learn_from(directory@, health@, es, cs, now, i as int);
                &&& total.0 == rest.0
                &&& total.1 == rest.1
                &&& total.2 == rest.2 + n
            }),
        decreases entries@.len() - i,
    {
        assert(es[i as int] == entries@[i as int]@);
        assert(cs[i as int] == check_view(checks@[i as int]));
        let entry = crate::directory::store::copy_entry(&entries[i]);
        let check = copy_check(&checks[i]);
        match directory.register_at(entry, now, check) {
            Ok(inserted) => {
                if inserted {
                    n = n + 1;
                }
            },
            Err(error) => note_refusal(health, &error),
        }
        i = i + 1;
    }
    n
}

/// Whether some target is still awaited.
pub open spec fn any_open(pages: Seq<PageState>) -> bool {
    exists|j: int| 0 <= j < pages.len() && (#[trigger] pages[j]).open
}

/// Targets that did not finish reading their snapshot.
pub open spec fn stale_count(r: Reconciliation) -> usize {
    if r.attempted >= r.healthy {
        (r.attempted - r.healthy) as usize
    } else {
        0
    }
}

/// The message of a reconciliation in which no target finished.
pub open spec fn every_seed_failed() -> Seq<char> {
    "directory reconciliation failed for every configured seed"@
}

impl Reconciliation {
    /// Start reconciling with every resolution target other than this
    /// machine: each is to be asked for the first page of a fresh snapshot
    /// ([`page_request`] with no generation, offset 0), and every one counts
    /// as stale until its snapshot is read.
    pub fn begin(
        mode: &DirectoryMode,
        seeds: &Vec<EndpointBytes>,
        self_id: &EndpointBytes,
        health: &mut ControlPlaneHealth,
    ) -> (r: Self)
        ensures
            r.attempted == remote_targets_of(*mode, seeds@, *self_id).len(),
            r.pages@.len() == r.attempted,
            forall|j: int|
                0 <= j < r.pages@.len() ==> #[trigger] r.pages@[j] == fresh_page(
                    remote_targets_of(*mode, seeds@, *self_id)[j],
                ),
            r.learned == 0,
            r.healthy == 0,
            final(health)@ == (DirectoryHealth { stale_seeds: r.attempted as u64, ..old(health)@ }),
    {
        let targets = remote_targets(mode, seeds, self_id);
        let mut pages: Vec<PageState> = Vec::new();
        let mut i: usize = 0;
        while i < targets.len()
            invariant
                i <= targets@.len(),
                pages@.len() == i,
                forall|j: int| 0 <= j < i ==> #[trigger] pages@[j] == fresh_page(targets@[j]),
            decreases targets@.len() - i,
        {
            pages.push(
                PageState { target: targets[i], generation: None, offset: 0, retries: 0, open: true },
            );
            i = i + 1;
        }
        health.set_stale_seeds(targets.len() as u64);
        Reconciliation { attempted: targets.len(), pages, learned: 0, healthy: 0 }
    }

    /// The request to target `i` could not be sent: it is no longer
    /// awaited, and its snapshot stays unread.
    pub fn unsent(&mut self, i: usize)
        requires
            i < old(self).pages@.len(),
        ensures
            final(self).pages@ == old(self).pages@.update(
                i as int,
                PageState { open: false, ..old(self).pages@[i as int] },
            ),
            final(self).attempted == old(self).attempted,
            final(self).learned == old(self).learned,
            final(self).healthy == old(self).healthy,
    {
        let mut p = self.pages[i];
        p.open = false;
        self.pages.set(i, p);
    }

    /// Target `i` answered `reply` (an error when the call failed or its
    /// reply channel closed). A page of records is learned, the records'
    /// signature checks given in order; the answer is the request to send
    /// that target next, if any.
    pub fn on_reply(
        &mut self,
        i: usize,
        reply: Result<ResolveResponse>,
        directory: &mut Directory,
        health: &mut ControlPlaneHealth,
        signature_checks: Vec<core::result::Result<bool, String>>,
        now: u64,
    ) -> (next: Option<ResolveRequest>)
        requires
            i < old(self).pages@.len(),
            old(self).pages@[i as int].open,
            old(directory).wf(),
            reply matches Ok(ResolveResponse::ListResult { entries, .. }) ==> signature_checks@.len()
                == entries@.len(),
        ensures
            final(directory).wf(),
            final(self).attempted == old(self).attempted,
            final(self).pages@.len() == old(self).pages@.len(),
            forall|j: int|
                0 <= j < final(self).pages@.len() && j != i ==> #[trigger] final(self).pages@[j]
                    == old(self).pages@[j],
            ({
                let p = old(self).pages@[i as int];
                match reply {
                    Ok(ResolveResponse::ListResult { generation, entries, next_offset }) => {
                        let l = learn_from(
                            old(directory)@,
                            old(health)@,
                            entry_views(entries@),
                            check_views(signature_checks@),
                            now,
                            0,
                        );
                        &&& final(directory)@ == l.0
                        &&& final(health)@ == l.1
                        &&& final(self).learned == sat_add(old(self).learned, l.2)
                        &&& if next_offset is Some && next_offset->Some_0 > p.offset {
                            &&& final(self).pages@[i as int] == PageState {
                                generation: Some(generation),
                                offset: next_offset->Some_0,
                                ..p
                            }
                            &&& final(self).healthy == old(self).healthy
                            &&& next matches Some(q) && q@ == list_request(
                                Some(generation),
                                next_offset->Some_0,
                            )
                        } else {
                            &&& final(self).pages@[i as int] == PageState {
                                generation: Some(generation),
                                open: false,
                                ..p
                            }
                            &&& final(self).healthy == sat_add(old(self).healthy, 1)
                            &&& next is None
                        }
                    },
                    Ok(ResolveResponse::Rejected { .. }) if p.retries < RECONCILE_RETRIES => {
                        &&& final(directory)@ == old(directory)@
                        &&& final(health)@ == old(health)@
                        &&& final(self).learned == old(self).learned
                        &&& final(self).healthy == old(self).healthy
                        &&& final(self).pages@[i as int] == PageState {
                            generation: None,
                            offset: 0,
                            retries: (p.retries + 1) as usize,
                            ..p
                        }
                        &&& next matches Some(q) && q@ == list_request(None, 0)
                    },
                    _ => {
                        &&& final(directory)@ == old(directory)@
                        &&& final(health)@ == old(health)@
                        &&& final(self).learned == old(self).learned
                        &&& final(self).healthy == old(self).healthy
                        &&& final(self).pages@[i as int] == PageState { open: false, ..p }
                        &&& next is None
                    },
                }
            }),
    {
        let page = self.pages[i];
        let mut p = page;
        let mut next: Option<ResolveRequest> = None;
        match reply {
            Ok(ResolveResponse::ListResult { generation, entries, next_offset }) => {
                let n = learn_page(directory, health, entries, signature_checks, now);
                self.learned = self.learned.saturating_add(n);
                p.generation = Some(generation);
                let further = match next_offset {
                    Some(o) => o > page.offset,
                    None => false,
                };
                if further {
                    let o = next_offset.unwrap();
                    p.offset = o;
                    next = Some(page_request(Some(generation), o));
                } else {
                    p.open = false;
                    self.healthy = self.healthy.saturating_add(1);
                }
            },
            Ok(ResolveResponse::Rejected { .. }) => {
                if page.retries < RECONCILE_RETRIES {
                    p.retries = page.retries + 1;
                    p.generation = None;
                    p.offset = 0;
                    next = Some(page_request(None, 0));
                } else {
                    p.open = false;
                }
            },
            _ => {
                p.open = false;
            },
        }
        self.pages.set(i, p);
        next
    }

    /// Whether some target is still awaited.
    pub fn awaiting(&self) -> (r: bool)
        ensures
            r == any_open(self.pages@),
    {
        let mut i: usize = 0;
        while i < self.pages.len()
            invariant
                i <= self.pages@.len(),
                forall|j: int| 0 <= j < i ==> !(#[trigger] self.pages@[j]).open,
            decreases self.pages@.len() - i,
        {
            if self.pages[i].open {
                return true;
            }
            i = i + 1;
        }
        false
    }

    /// Conclude at `now` (the deadline passed or no target is awaited):
    /// record how many targets are stale, refresh the record-carried names,
    /// and answer how many records changed the directory, unless every
    /// target failed. `control_timeout_ms` is the caller-visible deadline
    /// a timeout reports.
    pub fn finish(
        &self,
        directory: &mut Directory,
        names: &mut NameTable,
        health: &mut ControlPlaneHealth,
        now: u64,
        control_timeout_ms: u64,
    ) -> (r: Result<usize>)
        requires
            old(directory).wf(),
            old(names).wf(),
        ensures
            final(directory).wf(),
            final(names).wf(),
            final(directory)@ == pruned(old(directory)@, now),
            synced_with(old(names)@, final(names)@, final(directory).listing()),
            if self.healthy > 0 || self.attempted == 0 {
                &&& final(health)@ == (DirectoryHealth {
                    stale_seeds: stale_count(*self) as u64,
                    last_successful_reconciliation_ms: now,
                    ..old(health)@
                })
                &&& r == Ok::<usize, Error>(self.learned)
            } else {
                &&& final(health)@ == (DirectoryHealth {
                    stale_seeds: stale_count(*self) as u64,
                    ..old(health)@
                })
                &&& r matches Err(e) && e@ == if any_open(self.pages@) {
                    ErrorView::ControlTimeout { millis: control_timeout_ms }
                } else {
                    ErrorView::ResolutionFailed(every_seed_failed())
                }
            },
    {
        let timed_out = self.awaiting();
        let stale = self.attempted.saturating_sub(self.healthy);
        health.set_stale_seeds(stale as u64);
        sync_names_at(directory, names, now);
        if self.healthy > 0 || self.attempted == 0 {
            health.reconciled(now, stale as u64);
            Ok(self.learned)
        } else if timed_out {
            Err(Error::ControlTimeout { millis: control_timeout_ms })
        } else {
            Err(
                Error::ResolutionFailed(
                    String::from_str("directory reconciliation failed for every configured seed"),
                ),
            )
        }
    }
}

} // verus!
