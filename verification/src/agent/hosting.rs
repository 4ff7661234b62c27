//! The records this agent hosts: owner revisions, hosting and withdrawing a
//! record, renewing every hosted record, and adopting topics that were
//! opened on the transport directly. Signing happens outside; these
//! functions say what to sign and what a signed result changes.
use vstd::prelude::*;

use super::broadcast::bumps;
use super::resolver::sync_names_at;
use crate::directory::entry::{
    EndpointBytes, EntryView, ExchangeKind, TopicEntry, TopicRecordSpec, TopicWithdrawal,
    check_view, lease_deadline_at,
};
use crate::directory::encoding::opt_string_view;
use crate::directory::health::{ControlPlaneHealth, DirectoryHealth, bump};
use crate::directory::order::TopicKey;
use crate::directory::protocol::RESOLUTION_TOPIC;
use crate::directory::store::{
    Directory, DirectoryView, check_views, copy_check, copy_entry, entry_views, map_get, pruned,
    register_view, withdraw_view,
};
use crate::error::{ErrorView, Result};
use crate::naming::table::{NameTable, synced_with};
use crate::naming::topic::{normalize_result, normalize_topic};
use crate::text::{bytes_eq, str_eq};

verus! {

/// What the agent re-signs for a topic it hosts.
#[derive(Debug, Clone)]
pub struct HostedRecord {
    /// Normalized topic.
    pub topic: String,
    /// Hosted exchange family.
    pub exchange: ExchangeKind,
    /// Request or payload wire hash.
    pub request_type_hash: u64,
    /// Response wire hash, when known.
    pub response_type_hash: Option<u64>,
}

/// The mathematical content of a [`HostedRecord`].
pub struct HostedView {
    pub topic: Seq<char>,
    pub exchange: ExchangeKind,
    pub request_type_hash: u64,
    pub response_type_hash: Option<u64>,
}

impl View for HostedRecord {
    type V = HostedView;

    open spec fn view(&self) -> HostedView {
        HostedView {
            topic: self.topic@,
            exchange: self.exchange,
            request_type_hash: self.request_type_hash,
            response_type_hash: self.response_type_hash,
        }
    }
}

/// The key a hosted record is held under.
pub open spec fn hosted_key(h: HostedView) -> TopicKey {
    (h.topic, h.exchange)
}

/// What a signed record says the agent hosts.
pub open spec fn hosted_of(e: EntryView) -> HostedView {
    HostedView {
        topic: e.body.topic,
        exchange: e.body.exchange,
        request_type_hash: e.body.request_type_hash,
        response_type_hash: e.body.response_type_hash,
    }
}

/// `s` without the record held under `k`.
pub open spec fn without_key(s: Seq<HostedView>, k: TopicKey) -> Seq<HostedView> {
    s.filter(|h: HostedView| hosted_key(h) != k)
}

/// `s` with `h` held under its key in place of any earlier record.
pub open spec fn with_record(s: Seq<HostedView>, h: HostedView) -> Seq<HostedView> {
    without_key(s, hosted_key(h)).push(h)
}

/// No key is held twice.
pub open spec fn distinct_keys(s: Seq<HostedView>) -> bool {
    forall|i: int, j: int|
        0 <= i < j < s.len() ==> hosted_key(#[trigger] s[i]) != hosted_key(#[trigger] s[j])
}

/// Whether some record of `s` is held under `k`.
pub open spec fn holds_key(s: Seq<HostedView>, k: TopicKey) -> bool {
    exists|j: int| 0 <= j < s.len() && hosted_key(#[trigger] s[j]) == k
}

/// The mathematical content of a [`HostingState`].
pub struct HostingView {
    /// Hosted records, one per key.
    pub hosted: Seq<HostedView>,
    /// Keys the agent withdrew on purpose and will not adopt again.
    pub withdrawn: Set<TopicKey>,
    /// The revision the next signed record or withdrawal takes.
    pub next_revision: u64,
}

/// A transport topic as the node lists it.
#[derive(Debug, Clone)]
pub struct NodeTopic {
    /// The topic name as opened.
    pub topic: String,
    /// Its exchange family.
    pub exchange: ExchangeKind,
    /// Its payload wire hash.
    pub type_hash: u64,
}

/// The records this agent hosts and the keys it withdrew.
#[derive(Debug)]
pub struct HostingState {
    hosted: Vec<HostedRecord>,
    withdrawn: Vec<(String, ExchangeKind)>,
    next_revision: u64,
}

/// The keys of a list of withdrawn keys.
pub open spec fn key_set(s: Seq<(String, ExchangeKind)>) -> Set<TopicKey> {
    Set::new(|k: TopicKey| exists|j: int| 0 <= j < s.len() && (s[j].0@, s[j].1) == k)
}

/// Hosted records by their views.
pub open spec fn hosted_views(s: Seq<HostedRecord>) -> Seq<HostedView> {
    s.map_values(|h: HostedRecord| h@)
}

impl View for HostingState {
    type V = HostingView;

    closed spec fn view(&self) -> HostingView {
        HostingView {
            hosted: hosted_views(self.hosted@),
            withdrawn: key_set(self.withdrawn@),
            next_revision: self.next_revision,
        }
    }
}

/// The record input for a topic the agent hosts: machine name, revision
/// and lease deadline as given.
pub open spec fn spec_matches(
    r: TopicRecordSpec,
    topic: Seq<char>,
    exchange: ExchangeKind,
    request_type_hash: u64,
    response_type_hash: Option<u64>,
    revision: u64,
    machine_name: Seq<char>,
    deadline: u64,
) -> bool {
    &&& r.topic@ == topic
    &&& r.exchange == exchange
    &&& r.request_type_hash == request_type_hash
    &&& r.response_type_hash == response_type_hash
    &&& r.revision == revision
    &&& opt_string_view(r.machine_name) == Some(machine_name)
    &&& r.lease_expires_at_ms == deadline
}

/// `now + lease`, saturating.
pub open spec fn deadline(now: u64, lease_ms: u64) -> u64 {
    if now + lease_ms > u64::MAX {
        u64::MAX
    } else {
        (now + lease_ms) as u64
    }
}

fn copy_record(h: &HostedRecord) -> (r: HostedRecord)
    ensures
        r@ == h@,
{
    HostedRecord {
        topic: h.topic.clone(),
        exchange: h.exchange,
        request_type_hash: h.request_type_hash,
        response_type_hash: h.response_type_hash,
    }
}

fn same_key(topic: &str, exchange: ExchangeKind, other_topic: &str, other_exchange: ExchangeKind) -> (r:
    bool)
    ensures
        r == ((topic@, exchange) == (other_topic@, other_exchange)),
{
    exchange == other_exchange && str_eq(topic, other_topic)
}

impl HostingState {
    /// Internal consistency: one hosted record per key.
    pub closed spec fn wf(&self) -> bool {
        distinct_keys(hosted_views(self.hosted@))
    }

    /// Nothing hosted or withdrawn yet; revisions start at `seed`.
    pub fn new(seed: u64) -> (s: Self)
        ensures
            s.wf(),
            s@.hosted == Seq::<HostedView>::empty(),
            s@.withdrawn == Set::<TopicKey>::empty(),
            s@.next_revision == seed,
    {
        let s = HostingState { hosted: Vec::new(), withdrawn: Vec::new(), next_revision: seed };
        assert(hosted_views(s.hosted@) =~= Seq::<HostedView>::empty());
        assert(key_set(s.withdrawn@) =~= Set::<TopicKey>::empty());
        s
    }

    /// Take the next owner revision (wrapping, as an atomic `fetch_add`).
    pub fn take_revision(&mut self) -> (r: u64)
        requires
            old(self).wf(),
        ensures
            final(self).wf(),
            r == old(self)@.next_revision,
            final(self)@ == (HostingView { next_revision: bump(r), ..old(self)@ }),
    {
        let r = self.next_revision;
        self.next_revision = if r == u64::MAX {
            0
        } else {
            r + 1
        };
        r
    }

    /// The record input for hosting `topic` now: the next revision, this
    /// machine's name, and a lease of `lease_ms` from `now`.
    pub fn record_spec(
        &mut self,
        topic: &str,
        exchange: ExchangeKind,
        request_type_hash: u64,
        response_type_hash: Option<u64>,
        machine_name: &str,
        lease_ms: u64,
        now: u64,
    ) -> (r: TopicRecordSpec)
        requires
            old(self).wf(),
        ensures
            final(self).wf(),
            final(self)@ == (HostingView {
                next_revision: bump(old(self)@.next_revision),
                ..old(self)@
            }),
            spec_matches(
                r,
                topic@,
                exchange,
                request_type_hash,
                response_type_hash,
                old(self)@.next_revision,
                machine_name@,
                deadline(now, lease_ms),
            ),
    {
        let revision = self.take_revision();
        TopicRecordSpec {
            topic: String::from_str(topic),
            exchange,
            request_type_hash,
            response_type_hash,
            revision,
            lease_expires_at_ms: lease_deadline_at(now, lease_ms),
            machine_name: Some(String::from_str(machine_name)),
        }
    }

    /// Drop the record held under `(topic, exchange)`, if any.
    fn drop_hosted(&mut self, topic: &str, exchange: ExchangeKind)
        requires
            old(self).wf(),
        ensures
            final(self).wf(),
            final(self)@ == (HostingView {
                hosted: without_key(old(self)@.hosted, (topic@, exchange)),
                ..old(self)@
            }),
    {
        let ghost s = hosted_views(self.hosted@);
        let ghost k = (topic@, exchange);
        let ghost keep = |h: HostedView| hosted_key(h) != k;
        let mut out: Vec<HostedRecord> = Vec::new();
        let mut i: usize = 0;
        proof {
            reveal(Seq::filter);
        }
        assert(s.take(0) =~= Seq::<HostedView>::empty());
        assert(hosted_views(out@) =~= s.take(0).filter(keep));
        while i < self.hosted.len()
            invariant
                i <= self.hosted@.len(),
                s == hosted_views(self.hosted@),
                keep == (|h: HostedView| hosted_key(h) != k),
                k == (topic@, exchange),
                distinct_keys(s),
                hosted_views(out@) == s.take(i as int).filter(keep),
            decreases self.hosted@.len() - i,
        {
            proof {
                reveal(Seq::filter);
                assert(s.take(i + 1).drop_last() =~= s.take(i as int));
                assert(s[i as int] == self.hosted@[i as int]@);
            }
            let ghost before = hosted_views(out@);
            if !same_key(self.hosted[i].topic.as_str(), self.hosted[i].exchange, topic, exchange) {
                out.push(copy_record(&self.hosted[i]));
                assert(hosted_views(out@) =~= before.push(s[i as int]));
            }
            i = i + 1;
        }
        assert(s.take(s.len() as int) =~= s);
        proof {
            let t = s.filter(keep);
            assert forall|a: int, b: int| 0 <= a < b < t.len() implies hosted_key(#[trigger] t[a])
                != hosted_key(#[trigger] t[b]) by {
                lemma_filter_keys_distinct(s, keep, a, b);
            }
        }
        self.hosted = out;
    }

    /// Hold `h` under its key, replacing any earlier record there.
    fn hold(&mut self, h: HostedRecord)
        requires
            old(self).wf(),
        ensures
            final(self).wf(),
            final(self)@ == (HostingView {
                hosted: with_record(old(self)@.hosted, h@),
                ..old(self)@
            }),
    {
        let ghost t0 = self@;
        self.drop_hosted(h.topic.as_str(), h.exchange);
        let ghost s = hosted_views(self.hosted@);
        self.hosted.push(h);
        proof {
            reveal(Seq::filter);
            let s2 = hosted_views(self.hosted@);
            assert(s2 =~= s.push(h@));
            let k = hosted_key(h@);
            assert forall|a: int, b: int| 0 <= a < b < s2.len() implies hosted_key(#[trigger] s2[a])
                != hosted_key(#[trigger] s2[b]) by {
                if b == s2.len() - 1 {
                    assert(s2[a] == s[a]);
                    t0.hosted.lemma_filter_pred(|x: HostedView| hosted_key(x) != k, a);
                } else {
                    assert(s2[a] == s[a] && s2[b] == s[b]);
                }
            }
        }
    }

    /// Remember that `(topic, exchange)` was withdrawn on purpose.
    fn mark_withdrawn(&mut self, topic: &str, exchange: ExchangeKind)
        requires
            old(self).wf(),
        ensures
            final(self).wf(),
            final(self)@ == (HostingView {
                withdrawn: old(self)@.withdrawn.insert((topic@, exchange)),
                ..old(self)@
            }),
    {
        let ghost w0 = self.withdrawn@;
        self.withdrawn.push((String::from_str(topic), exchange));
        proof {
            let w = self.withdrawn@;
            assert forall|k: TopicKey| #[trigger] key_set(w).contains(k) <==> key_set(w0).insert(
                (topic@, exchange),
            ).contains(k) by {
                if key_set(w).contains(k) {
                    let j = choose|j: int| 0 <= j < w.len() && (w[j].0@, w[j].1) == k;
                    if j < w0.len() {
                        assert(w0[j] == w[j]);
                    }
                }
                if key_set(w0).contains(k) {
                    let j = choose|j: int| 0 <= j < w0.len() && (w0[j].0@, w0[j].1) == k;
                    assert(w[j] == w0[j]);
                }
                if k == (topic@, exchange) {
                    assert((w[w.len() - 1].0@, w[w.len() - 1].1) == k);
                }
            }
            assert(key_set(w) =~= key_set(w0).insert((topic@, exchange)));
        }
    }

    /// Forget that `(topic, exchange)` was withdrawn.
    fn unmark_withdrawn(&mut self, topic: &str, exchange: ExchangeKind)
        requires
            old(self).wf(),
        ensures
            final(self).wf(),
            final(self)@ == (HostingView {
                withdrawn: old(self)@.withdrawn.remove((topic@, exchange)),
                ..old(self)@
            }),
    {
        let ghost w0 = self.withdrawn@;
        let mut out: Vec<(String, ExchangeKind)> = Vec::new();
        let mut i: usize = 0;
        while i < self.withdrawn.len()
            invariant
                i <= self.withdrawn@.len(),
                w0 == self.withdrawn@,
                forall|k: TopicKey| #[trigger] key_set(out@).contains(k) <==> (key_set(
                    w0.take(i as int),
                ).contains(k) && k != (topic@, exchange)),
            decreases self.withdrawn@.len() - i,
        {
            let ghost o0 = out@;
            let ghost t0 = w0.take(i as int);
            let ghost t1 = w0.take(i + 1);
            if !same_key(self.withdrawn[i].0.as_str(), self.withdrawn[i].1, topic, exchange) {
                out.push((self.withdrawn[i].0.clone(), self.withdrawn[i].1));
            }
            proof {
                assert forall|k: TopicKey| #[trigger] key_set(out@).contains(k) <==> (key_set(
                    t1,
                ).contains(k) && k != (topic@, exchange)) by {
                    if key_set(out@).contains(k) {
                        let j = choose|j: int| 0 <= j < out@.len() && (out@[j].0@, out@[j].1) == k;
                        if j < o0.len() {
                            assert(o0[j] == out@[j]);
                            assert(key_set(o0).contains(k));
                            let q = choose|q: int|
                                0 <= q < t0.len() && (t0[q].0@, t0[q].1) == k;
                            assert(t1[q] == t0[q]);
                        } else {
                            assert(t1[i as int] == w0[i as int]);
                        }
                    }
                    if key_set(t1).contains(k) && k != (topic@, exchange) {
                        let q = choose|q: int| 0 <= q < t1.len() && (t1[q].0@, t1[q].1) == k;
                        if q < i {
                            assert(t0[q] == t1[q]);
                            assert(key_set(t0).contains(k));
                            assert(key_set(o0).contains(k));
                            let j = choose|j: int| 0 <= j < o0.len() && (o0[j].0@, o0[j].1) == k;
                            assert(out@[j] == o0[j]);
                        } else {
                            assert(t1[q] == w0[i as int]);
                            assert((out@[out@.len() - 1].0@, out@[out@.len() - 1].1) == k);
                        }
                    }
                }
            }
            i = i + 1;
        }
        assert(w0.take(w0.len() as int) =~= w0);
        assert(key_set(out@) =~= key_set(w0).remove((topic@, exchange)));
        self.withdrawn = out;
    }

    /// Whether a record is hosted under `(topic, exchange)`.
    fn is_hosted(&self, topic: &str, exchange: ExchangeKind) -> (r: bool)
        ensures
            r == holds_key(self@.hosted, (topic@, exchange)),
    {
        let ghost s = hosted_views(self.hosted@);
        let mut i: usize = 0;
        while i < self.hosted.len()
            invariant
                i <= self.hosted@.len(),
                s == hosted_views(self.hosted@),
                forall|j: int| 0 <= j < i ==> hosted_key(#[trigger] s[j]) != (topic@, exchange),
            decreases self.hosted@.len() - i,
        {
            assert(s[i as int] == self.hosted@[i as int]@);
            if same_key(self.hosted[i].topic.as_str(), self.hosted[i].exchange, topic, exchange) {
                return true;
            }
            i = i + 1;
        }
        false
    }

    /// Whether `(topic, exchange)` was withdrawn on purpose.
    fn was_withdrawn(&self, topic: &str, exchange: ExchangeKind) -> (r: bool)
        ensures
            r == self@.withdrawn.contains((topic@, exchange)),
    {
        let mut i: usize = 0;
        while i < self.withdrawn.len()
            invariant
                i <= self.withdrawn@.len(),
                forall|j: int|
                    0 <= j < i ==> (#[trigger] self.withdrawn@[j].0@, self.withdrawn@[j].1) != (
                        topic@,
                        exchange,
                    ),
            decreases self.withdrawn@.len() - i,
        {
            if same_key(self.withdrawn[i].0.as_str(), self.withdrawn[i].1, topic, exchange) {
                return true;
            }
            i = i + 1;
        }
        false
    }

    /// Host the signed record `entry`, its signature check having come out
    /// as `signature_check`: the directory must accept it; then the agent
    /// renews it from now on, no longer treats its key as withdrawn, and
    /// refreshes the record-carried names. The record is then to be
    /// announced.
    pub fn host(
        &mut self,
        directory: &mut Directory,
        names: &mut NameTable,
        entry: &TopicEntry,
        signature_check: core::result::Result<bool, String>,
        now: u64,
    ) -> (r: Result<()>)
        requires
            old(self).wf(),
            old(directory).wf(),
            old(names).wf(),
        ensures
            final(self).wf(),
            final(directory).wf(),
            final(names).wf(),
            ({
                let (d, outcome) = register_view(
                    old(directory)@,
                    entry@,
                    now,
                    check_view(signature_check),
                );
                match outcome {
                    Err(x) => {
                        &&& r matches Err(e) && e@ == x
                        &&& final(directory)@ == d
                        &&& final(names)@ == old(names)@
                        &&& final(self)@ == old(self)@
                    },
                    Ok(_) => {
                        &&& r is Ok
                        &&& final(directory)@ == pruned(d, now)
                        &&& synced_with(old(names)@, final(names)@, final(directory).listing())
                        &&& final(self)@ == (HostingView {
                            hosted: with_record(old(self)@.hosted, hosted_of(entry@)),
                            withdrawn: old(self)@.withdrawn.remove(
                                (entry@.body.topic, entry@.body.exchange),
                            ),
                            ..old(self)@
                        })
                    },
                }
            }),
    {
        directory.register_at(copy_entry(entry), now, signature_check)?;
        self.unmark_withdrawn(entry.body.topic.as_str(), entry.body.exchange);
        self.hold(
            HostedRecord {
                topic: entry.body.topic.clone(),
                exchange: entry.body.exchange,
                request_type_hash: entry.body.request_type_hash,
                response_type_hash: entry.body.response_type_hash,
            },
        );
        sync_names_at(directory, names, now);
        Ok(())
    }

    /// Stop hosting the record `entry` at `now`: the agent no longer renews
    /// it and will not adopt its key again. Answers the record to withdraw
    /// (the live record of this machine under that key, which renewals may
    /// have replaced, else `entry` itself) and the revision the withdrawal
    /// takes.
    pub fn stop_hosting(
        &mut self,
        directory: &mut Directory,
        entry: &TopicEntry,
        self_id: &EndpointBytes,
        now: u64,
    ) -> (r: (TopicEntry, u64))
        requires
            old(self).wf(),
            old(directory).wf(),
        ensures
            final(self).wf(),
            final(directory).wf(),
            final(directory)@ == pruned(old(directory)@, now),
            r.0@ == match map_get(final(directory)@.entries, (entry@.body.topic, entry@.body.exchange)) {
                Some(c) => if c.body.owner == self_id@ {
                    c
                } else {
                    entry@
                },
                None => entry@,
            },
            r.1 == old(self)@.next_revision,
            final(self)@ == (HostingView {
                hosted: without_key(old(self)@.hosted, (entry@.body.topic, entry@.body.exchange)),
                withdrawn: old(self)@.withdrawn.insert((entry@.body.topic, entry@.body.exchange)),
                next_revision: bump(old(self)@.next_revision),
            }),
    {
        self.drop_hosted(entry.body.topic.as_str(), entry.body.exchange);
        self.mark_withdrawn(entry.body.topic.as_str(), entry.body.exchange);
        let current = match directory.lookup_exchange_at(
            entry.body.topic.as_str(),
            entry.body.exchange,
            now,
        ) {
            Some(live) => if bytes_eq(&live.body.owner, self_id) {
                live
            } else {
                copy_entry(entry)
            },
            None => copy_entry(entry),
        };
        let revision = self.take_revision();
        (current, revision)
    }

    /// The record inputs for renewing every hosted record at `now`, in
    /// hosting order, each taking the next revision and a lease of
    /// `lease_ms` from `now`.
    pub fn renewal_specs(&mut self, machine_name: &str, lease_ms: u64, now: u64) -> (r: Vec<
        TopicRecordSpec,
    >)
        requires
            old(self).wf(),
        ensures
            final(self).wf(),
            r@.len() == old(self)@.hosted.len(),
            forall|j: int|
                #![trigger r@[j]]
                0 <= j < r@.len() ==> spec_matches(
                    r@[j],
                    old(self)@.hosted[j].topic,
                    old(self)@.hosted[j].exchange,
                    old(self)@.hosted[j].request_type_hash,
                    old(self)@.hosted[j].response_type_hash,
                    bumps(old(self)@.next_revision, j as nat),
                    machine_name@,
                    deadline(now, lease_ms),
                ),
            final(self)@ == (HostingView {
                next_revision: bumps(old(self)@.next_revision, r@.len()),
                ..old(self)@
            }),
    {
        let ghost v0 = self@;
        let mut out: Vec<TopicRecordSpec> = Vec::new();
        let mut i: usize = 0;
        while i < self.hosted.len()
            invariant
                self.hosted@.len() == v0.hosted.len(),
                out@.len() == i,
                self.wf(),
                v0 == old(self)@,
                i <= v0.hosted.len(),
                self@ == (HostingView { next_revision: bumps(v0.next_revision, i as nat), ..v0 }),
                forall|j: int|
                    #![trigger out@[j]]
                    0 <= j < i ==> spec_matches(
                        out@[j],
                        v0.hosted[j].topic,
                        v0.hosted[j].exchange,
                        v0.hosted[j].request_type_hash,
                        v0.hosted[j].response_type_hash,
                        bumps(v0.next_revision, j as nat),
                        machine_name@,
                        deadline(now, lease_ms),
                    ),
            decreases self.hosted@.len() - i,
        {
            assert(v0.hosted[i as int] == self.hosted@[i as int]@);
            let h = copy_record(&self.hosted[i]);
            let spec = self.record_spec(
                h.topic.as_str(),
                h.exchange,
                h.request_type_hash,
                h.response_type_hash,
                machine_name,
                lease_ms,
                now,
            );
            out.push(spec);
            i = i + 1;
        }
        out
    }

    /// The record input for adopting a transport topic at `now`, unless it
    /// is the resolver's own topic, its name does not normalize, or its
    /// key is already hosted or was withdrawn on purpose. Two-type
    /// exchanges adopted this way carry no response type.
    pub fn adoption_spec(
        &mut self,
        node_topic: &NodeTopic,
        machine_name: &str,
        lease_ms: u64,
        now: u64,
    ) -> (r: Option<TopicRecordSpec>)
        requires
            old(self).wf(),
        ensures
            final(self).wf(),
            ({
                let skip = node_topic.topic@ == RESOLUTION_TOPIC@ || normalize_result(
                    node_topic.topic@,
                ) is Err || holds_key(
                    old(self)@.hosted,
                    (normalize_result(node_topic.topic@)->Ok_0, node_topic.exchange),
                ) || old(self)@.withdrawn.contains(
                    (normalize_result(node_topic.topic@)->Ok_0, node_topic.exchange),
                );
                if skip {
                    r is None && final(self)@ == old(self)@
                } else {
                    &&& r matches Some(s) && spec_matches(
                        s,
                        normalize_result(node_topic.topic@)->Ok_0,
                        node_topic.exchange,
                        node_topic.type_hash,
                        None,
                        old(self)@.next_revision,
                        machine_name@,
                        deadline(now, lease_ms),
                    )
                    &&& final(self)@ == (HostingView {
                        next_revision: bump(old(self)@.next_revision),
                        ..old(self)@
                    })
                }
            }),
    {
        if str_eq(node_topic.topic.as_str(), RESOLUTION_TOPIC) {
            return None;
        }
        let topic = match normalize_topic(node_topic.topic.as_str()) {
            Ok(t) => t,
            Err(_) => {
                return None;
            },
        };
        if self.is_hosted(topic.as_str(), node_topic.exchange) || self.was_withdrawn(
            topic.as_str(),
            node_topic.exchange,
        ) {
            return None;
        }
        Some(
            self.record_spec(
                topic.as_str(),
                node_topic.exchange,
                node_topic.type_hash,
                None,
                machine_name,
                lease_ms,
                now,
            ),
        )
    }

    /// Adopt the signed record of a transport topic (or nothing, when
    /// signing failed): the directory must accept it, and the agent then
    /// renews it. Answers the record to announce.
    pub fn adopt(
        &mut self,
        directory: &mut Directory,
        signed: Result<TopicEntry>,
        signature_check: core::result::Result<bool, String>,
        now: u64,
    ) -> (r: Option<TopicEntry>)
        requires
            old(self).wf(),
            old(directory).wf(),
        ensures
            final(self).wf(),
            final(directory).wf(),
            match signed {
                Err(_) => r is None && final(directory)@ == old(directory)@ && final(self)@ == old(
                    self,
                )@,
                Ok(e) => {
                    let (d, outcome) = register_view(
                        old(directory)@,
                        e@,
                        now,
                        check_view(signature_check),
                    );
                    &&& final(directory)@ == d
                    &&& match outcome {
                        Err(_) => r is None && final(self)@ == old(self)@,
                        Ok(_) => {
                            &&& r matches Some(a) && a@ == e@
                            &&& final(self)@ == (HostingView {
                                hosted: with_record(old(self)@.hosted, hosted_of(e@)),
                                ..old(self)@
                            })
                        },
                    }
                },
            },
    {
        let entry = match signed {
            Ok(e) => e,
            Err(_) => {
                return None;
            },
        };
        if directory.register_at(copy_entry(&entry), now, signature_check).is_err() {
            return None;
        }
        self.hold(
            HostedRecord {
                topic: entry.body.topic.clone(),
                exchange: entry.body.exchange,
                request_type_hash: entry.body.request_type_hash,
                response_type_hash: entry.body.response_type_hash,
            },
        );
        Some(entry)
    }
}

/// Filtering keeps keys distinct.
proof fn lemma_filter_keys_distinct(
    s: Seq<HostedView>,
    keep: spec_fn(HostedView) -> bool,
    a: int,
    b: int,
)
    requires
        distinct_keys(s),
        0 <= a < b < s.filter(keep).len(),
    ensures
        hosted_key(s.filter(keep)[a]) != hosted_key(s.filter(keep)[b]),
    decreases s.len(),
{
    reveal(Seq::filter);
    let d = s.drop_last();
    assert(distinct_keys(d)) by {
        assert forall|i: int, j: int| 0 <= i < j < d.len() implies hosted_key(#[trigger] d[i])
            != hosted_key(#[trigger] d[j]) by {
            assert(d[i] == s[i] && d[j] == s[j]);
        }
    }
    let t = d.filter(keep);
    if keep(s.last()) {
        if b < t.len() {
            lemma_filter_keys_distinct(d, keep, a, b);
        } else {
            assert(t.contains(t[a]));
            d.lemma_filter_contains_rev(keep, t[a]);
            let q = choose|q: int| 0 <= q < d.len() && d[q] == t[a];
            assert(s[q] == d[q]);
            assert(hosted_key(s[q]) != hosted_key(s[s.len() - 1]));
        }
    } else {
        lemma_filter_keys_distinct(d, keep, a, b);
    }
}

/// Apply this machine's signed withdrawal of one of its records (or
/// nothing, when signing failed, which counts as a failed announcement) at
/// `now`, then refresh the record-carried names. A withdrawal the local
/// directory refuses counts as a failed announcement too, but is still to
/// be sent to the directory targets; the answer is the withdrawal to send.
pub fn apply_own_withdrawal(
    directory: &mut Directory,
    names: &mut NameTable,
    health: &mut ControlPlaneHealth,
    signed: Result<TopicWithdrawal>,
    signature_check: core::result::Result<bool, String>,
    now: u64,
) -> (r: Option<TopicWithdrawal>)
    requires
        old(directory).wf(),
        old(names).wf(),
    ensures
        final(directory).wf(),
        final(names).wf(),
        match signed {
            Err(_) => {
                &&& r is None
                &&& final(directory)@ == old(directory)@
                &&& final(names)@ == old(names)@
                &&& final(health)@ == (DirectoryHealth {
                    announcement_failures: bump(old(health)@.announcement_failures),
                    ..old(health)@
                })
            },
            Ok(w) => {
                let (d, outcome) = withdraw_view(
                    old(directory)@,
                    w@,
                    now,
                    check_view(signature_check),
                );
                &&& r matches Some(sent) && sent@ == w@
                &&& final(directory)@ == pruned(d, now)
                &&& synced_with(old(names)@, final(names)@, final(directory).listing())
                &&& final(health)@ == if outcome is Err {
                    DirectoryHealth {
                        announcement_failures: bump(old(health)@.announcement_failures),
                        ..old(health)@
                    }
                } else {
                    old(health)@
                }
            },
        },
{
    let withdrawal = match signed {
        Ok(w) => w,
        Err(_) => {
            health.announcement_failed();
            return None;
        },
    };
    if directory.withdraw_at(&withdrawal, now, signature_check).is_err() {
        health.announcement_failed();
    }
    sync_names_at(directory, names, now);
    Some(withdrawal)
}

/// A signed renewal by its view.
pub open spec fn signed_view(s: Result<TopicEntry>) -> core::result::Result<EntryView, ErrorView> {
    match s {
        Ok(e) => Ok(e@),
        Err(x) => Err(x@),
    }
}

/// Renewals `s[i..]` registered in order at `now`: the directory, the
/// counters (a renewal that could not be signed counts as a failed
/// announcement; one the directory refuses is dropped), and the records
/// renewed.
pub open spec fn renew_from(
    v: DirectoryView,
    h: DirectoryHealth,
    s: Seq<core::result::Result<EntryView, ErrorView>>,
    checks: Seq<core::result::Result<bool, Seq<char>>>,
    now: u64,
    i: int,
) -> (DirectoryView, DirectoryHealth, Seq<EntryView>)
    decreases s.len() - i,
{
    if i < 0 || i >= s.len() {
        (v, h, Seq::empty())
    } else {
        match s[i] {
            Err(_) => renew_from(
                v,
                DirectoryHealth { announcement_failures: bump(h.announcement_failures), ..h },
                s,
                checks,
                now,
                i + 1,
            ),
            Ok(e) => {
                let (v1, outcome) = register_view(v, e, now, checks[i]);
                let rest = renew_from(v1, h, s, checks, now, i + 1);
                (rest.0, rest.1, if outcome is Ok {
                    seq![e] + rest.2
                } else {
                    rest.2
                })
            },
        }
    }
}

/// Register renewed records (each signed, or the signing failure), in
/// order, at `now`, then refresh the record-carried names; answers the
/// records renewed, which are then to be announced.
pub fn accept_renewals(
    directory: &mut Directory,
    names: &mut NameTable,
    health: &mut ControlPlaneHealth,
    signed: Vec<Result<TopicEntry>>,
    signature_checks: Vec<core::result::Result<bool, String>>,
    now: u64,
) -> (r: Vec<TopicEntry>)
    requires
        old(directory).wf(),
        old(names).wf(),
        signature_checks@.len() == signed@.len(),
    ensures
        final(directory).wf(),
        final(names).wf(),
        ({
            let l = renew_from(
                old(directory)@,
                old(health)@,
                signed@.map_values(|s: Result<TopicEntry>| signed_view(s)),
                check_views(signature_checks@),
                now,
                0,
            );
            &&& final(directory)@ == pruned(l.0, now)
            &&& final(health)@ == l.1
            &&& entry_views(r@) == l.2
        }),
        synced_with(old(names)@, final(names)@, final(directory).listing()),
{
    let ghost sv = signed@.map_values(|s: Result<TopicEntry>| signed_view(s));
    let ghost cs = check_views(signature_checks@);
    let ghost total = renew_from(directory@, health@, sv, cs, now, 0);
    let mut renewed: Vec<TopicEntry> = Vec::new();
    let mut i: usize = 0;
    while i < signed.len()
        invariant
            i <= signed@.len(),
            signed@.len() == signature_checks@.len(),
            sv == signed@.map_values(|s: Result<TopicEntry>| signed_view(s)),
            cs == check_views(signature_checks@),
            directory.wf(),
            ({
                let rest = renew_from(directory@, health@, sv, cs, now, i as int);
                &&& total.0 == rest.0
                &&& total.1 == rest.1
                &&& total.2 == entry_views(renewed@) + rest.2
            }),
        decreases signed@.len() - i,
    {
        assert(sv[i as int] == signed_view(signed@[i as int]));
        assert(cs[i as int] == check_view(signature_checks@[i as int]));
        let ghost r0 = entry_views(renewed@);
        match &signed[i] {
            Ok(entry) => {
                let check = copy_check(&signature_checks[i]);
                if directory.register_at(copy_entry(entry), now, check).is_ok() {
                    renewed.push(copy_entry(entry));
                    assert(entry_views(renewed@) =~= r0.push(entry@));
                    assert(r0 + (seq![entry@] + renew_from(directory@, health@, sv, cs, now, i + 1).2)
                        =~= r0.push(entry@) + renew_from(directory@, health@, sv, cs, now, i + 1).2);
                }
            },
            Err(_) => {
                health.announcement_failed();
            },
        }
        i = i + 1;
    }
    sync_names_at(directory, names, now);
    renewed
}

/// After adopting transport topics: refresh the record-carried names when
/// any record was adopted.
pub fn finish_adoption(
    directory: &mut Directory,
    names: &mut NameTable,
    adopted: &Vec<TopicEntry>,
    now: u64,
)
    requires
        old(directory).wf(),
        old(names).wf(),
    ensures
        final(directory).wf(),
        final(names).wf(),
        if adopted@.len() > 0 {
            &&& final(directory)@ == pruned(old(directory)@, now)
            &&& synced_with(old(names)@, final(names)@, final(directory).listing())
        } else {
            final(directory)@ == old(directory)@ && final(names)@ == old(names)@
        },
{
    if adopted.len() > 0 {
        sync_names_at(directory, names, now);
    }
}

} // verus!
