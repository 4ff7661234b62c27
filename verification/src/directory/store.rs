//! Verified in-memory directory: at most one live, owner-signed record per
//! topic and exchange family, kept in key order.
use vstd::prelude::*;

use super::entry::{
    DirectoryOperation, EntryView, ExchangeKind, TopicEntry, TopicRecordBody, TopicWithdrawal,
    WithdrawalView, check_view, entry_verify_result, unix_time_ms, withdrawal_targets,
    withdrawal_verify_result,
};
use super::order::{TopicKey, compare_key, key_lt, key_of, lemma_key_order, sorted_by_key};
use crate::error::{Error, ErrorView, Result};
use crate::text::{bytes_eq, chars_of};

verus! {

/// The records of a key-ordered sequence, by key.
pub open spec fn key_map(s: Seq<EntryView>) -> Map<TopicKey, EntryView>
    decreases s.len(),
{
    if s.len() == 0 {
        Map::empty()
    } else {
        key_map(s.drop_last()).insert(key_of(s.last()), s.last())
    }
}

/// Whether a record's lease is still running at `now`.
pub open spec fn is_live(e: EntryView, now: u64) -> bool {
    e.body.lease_expires_at_ms > now
}

/// The records of `m` whose lease still runs at `now`.
pub open spec fn live_map(m: Map<TopicKey, EntryView>, now: u64) -> Map<TopicKey, EntryView> {
    Map::new(|k: TopicKey| m.contains_key(k) && is_live(m[k], now), |k: TopicKey| m[k])
}

/// Whether some record of `m` has expired at `now`.
pub open spec fn has_expired(m: Map<TopicKey, EntryView>, now: u64) -> bool {
    exists|k: TopicKey| m.contains_key(k) && !is_live(#[trigger] m[k], now)
}

/// The generation after one change (wrapping, as `u64::wrapping_add(1)`).
pub open spec fn next_generation(g: u64) -> u64 {
    if g == u64::MAX {
        0
    } else {
        (g + 1) as u64
    }
}

/// The mathematical content of a [`Directory`].
pub struct DirectoryView {
    /// Live records by key.
    pub entries: Map<TopicKey, EntryView>,
    /// Counter that changes whenever the record set changes.
    pub generation: u64,
}

/// The directory after dropping the records expired at `now`.
pub open spec fn pruned(v: DirectoryView, now: u64) -> DirectoryView {
    DirectoryView {
        entries: live_map(v.entries, now),
        generation: if has_expired(v.entries, now) {
            next_generation(v.generation)
        } else {
            v.generation
        },
    }
}

/// Whether two records are the same signed record.
pub open spec fn same_record(a: EntryView, b: EntryView) -> bool {
    a == b
}

/// What installing verified record `e` into records `m` answers: whether
/// the state changes, or why the record is refused.
pub open spec fn apply_result(m: Map<TopicKey, EntryView>, e: EntryView) -> core::result::Result<
    bool,
    ErrorView,
> {
    let k = key_of(e);
    if m.contains_key(k) {
        let c = m[k];
        if c.body.owner != e.body.owner {
            Err(ErrorView::OwnershipConflict { topic: e.body.topic })
        } else if e.body.revision < c.body.revision {
            Err(ErrorView::StaleRevision { topic: e.body.topic })
        } else if e.body.revision == c.body.revision {
            if same_record(c, e) {
                Ok(false)
            } else {
                Err(ErrorView::RevisionConflict { topic: e.body.topic })
            }
        } else {
            Ok(true)
        }
    } else {
        Ok(true)
    }
}

/// The records after installing `e` into `m`.
pub open spec fn apply_map(m: Map<TopicKey, EntryView>, e: EntryView) -> Map<TopicKey, EntryView> {
    if apply_result(m, e) == Ok::<bool, ErrorView>(true) {
        m.insert(key_of(e), e)
    } else {
        m
    }
}

/// A `Result<bool>` by its error view.
pub open spec fn bool_result_view(r: Result<bool>) -> core::result::Result<bool, ErrorView> {
    match r {
        Ok(b) => Ok(b),
        Err(e) => Err(e@),
    }
}

/// A `Result<usize>` by its error view.
pub open spec fn count_result_view(r: Result<usize>) -> core::result::Result<nat, ErrorView> {
    match r {
        Ok(n) => Ok(n as nat),
        Err(e) => Err(e@),
    }
}

/// The directory and answer after registering record `e` at `now`, its
/// signature check having come out as `check`.
pub open spec fn register_view(
    v: DirectoryView,
    e: EntryView,
    now: u64,
    check: core::result::Result<bool, Seq<char>>,
) -> (DirectoryView, core::result::Result<bool, ErrorView>) {
    match entry_verify_result(e, now, check) {
        Err(err) => (v, Err(err)),
        Ok(()) => {
            let p = pruned(v, now);
            let r = apply_result(p.entries, e);
            (
                DirectoryView {
                    entries: apply_map(p.entries, e),
                    generation: if r == Ok::<bool, ErrorView>(true) {
                        next_generation(p.generation)
                    } else {
                        p.generation
                    },
                },
                r,
            )
        },
    }
}

/// The first verification failure among `es[i..]`, in order.
pub open spec fn verify_failure_from(
    es: Seq<EntryView>,
    now: u64,
    checks: Seq<core::result::Result<bool, Seq<char>>>,
    i: int,
) -> Option<ErrorView>
    decreases es.len() - i,
{
    if i < 0 || i >= es.len() {
        None
    } else {
        match entry_verify_result(es[i], now, checks[i]) {
            Err(e) => Some(e),
            Ok(()) => verify_failure_from(es, now, checks, i + 1),
        }
    }
}

/// Installing `es[i..]` in order into `m`: the resulting records and the
/// number of changes, or the first refusal (which leaves `m` as it was).
pub open spec fn apply_all_from(m: Map<TopicKey, EntryView>, es: Seq<EntryView>, i: int) -> (
    Map<TopicKey, EntryView>,
    core::result::Result<nat, ErrorView>,
)
    decreases es.len() - i,
{
    if i < 0 || i >= es.len() {
        (m, Ok(0))
    } else {
        match apply_result(m, es[i]) {
            Err(e) => (m, Err(e)),
            Ok(changed) => {
                let rest = apply_all_from(apply_map(m, es[i]), es, i + 1);
                (
                    rest.0,
                    match rest.1 {
                        Ok(c) => Ok(c + if changed {
                            1nat
                        } else {
                            0nat
                        }),
                        Err(e) => Err(e),
                    },
                )
            },
        }
    }
}

/// The directory and answer after registering the batch `es` atomically.
pub open spec fn register_many_view(
    v: DirectoryView,
    es: Seq<EntryView>,
    now: u64,
    checks: Seq<core::result::Result<bool, Seq<char>>>,
) -> (DirectoryView, core::result::Result<nat, ErrorView>) {
    match verify_failure_from(es, now, checks, 0) {
        Some(err) => (v, Err(err)),
        None => {
            let p = pruned(v, now);
            let all = apply_all_from(p.entries, es, 0);
            match all.1 {
                Err(err) => (p, Err(err)),
                Ok(count) => if count > 0 {
                    (DirectoryView { entries: all.0, generation: next_generation(p.generation) }, Ok(count))
                } else {
                    (p, Ok(0))
                },
            }
        },
    }
}

/// The directory and answer after applying withdrawal `w` at `now`.
pub open spec fn withdraw_view(
    v: DirectoryView,
    w: WithdrawalView,
    now: u64,
    check: core::result::Result<bool, Seq<char>>,
) -> (DirectoryView, core::result::Result<bool, ErrorView>) {
    match withdrawal_verify_result(w, check) {
        Err(err) => (v, Err(err)),
        Ok(()) => {
            let p = pruned(v, now);
            let k = (w.body.topic, w.body.exchange);
            if !p.entries.contains_key(k) {
                (p, Ok(false))
            } else {
                let c = p.entries[k];
                if c.body.owner != w.body.owner {
                    (p, Err(ErrorView::OwnershipConflict { topic: w.body.topic }))
                } else if !withdrawal_targets(w, c) || w.body.revision <= c.body.revision {
                    (p, Err(ErrorView::StaleRevision { topic: w.body.topic }))
                } else {
                    (
                        DirectoryView {
                            entries: p.entries.remove(k),
                            generation: next_generation(p.generation),
                        },
                        Ok(true),
                    )
                }
            }
        },
    }
}

/// The views of a vector of records.
pub open spec fn entry_views(v: Seq<TopicEntry>) -> Seq<EntryView> {
    v.map_values(|e: TopicEntry| e@)
}

/// Whether `listing` is the key-ordered sequence of the records `m`.
pub open spec fn is_listing_of(listing: Seq<EntryView>, m: Map<TopicKey, EntryView>) -> bool {
    sorted_by_key(listing) && key_map(listing) == m
}

/// Where a page of `len` records starting at `offset` with at most `limit`
/// records ends.
pub open spec fn page_end(offset: usize, limit: usize, len: nat) -> int {
    let end = if offset + limit > usize::MAX {
        usize::MAX as int
    } else {
        offset + limit
    };
    if end < len {
        end
    } else {
        len as int
    }
}

/// The records of a page of `listing`.
pub open spec fn page_of(listing: Seq<EntryView>, offset: usize, limit: usize) -> Seq<EntryView> {
    let end = page_end(offset, limit, listing.len());
    if offset <= end {
        listing.subrange(offset as int, end)
    } else {
        Seq::empty()
    }
}

/// The offset of the page after a page of `listing`, if any.
pub open spec fn next_page_offset(listing: Seq<EntryView>, offset: usize, limit: usize) -> Option<
    usize,
> {
    let end = page_end(offset, limit, listing.len());
    if end < listing.len() {
        Some(end as usize)
    } else {
        None
    }
}

/// The live record of `m` for `topic` with the least exchange rank.
pub open spec fn first_for_topic(m: Map<TopicKey, EntryView>, topic: Seq<char>, e: EntryView) -> bool {
    &&& m.contains_key(key_of(e))
    &&& e.body.topic == topic
    &&& m[key_of(e)] == e
    &&& forall|x: ExchangeKind| #[trigger]
        m.contains_key((topic, x)) ==> super::entry::exchange_index(e.body.exchange)
            <= super::entry::exchange_index(x)
}

proof fn lemma_key_map(s: Seq<EntryView>)
    requires
        sorted_by_key(s),
    ensures
        forall|i: int| #![trigger s[i]]
            0 <= i < s.len() ==> key_map(s).contains_key(key_of(s[i])) && key_map(s)[key_of(s[i])]
                == s[i],
        forall|k: TopicKey| #[trigger]
            key_map(s).contains_key(k) ==> exists|i: int| 0 <= i < s.len() && key_of(s[i]) == k,
    decreases s.len(),
{
    lemma_key_order();
    if s.len() > 0 {
        let d = s.drop_last();
        assert(sorted_by_key(d));
        lemma_key_map(d);
        assert forall|i: int| #![trigger s[i]] 0 <= i < s.len() implies key_map(s).contains_key(
            key_of(s[i]),
        ) && key_map(s)[key_of(s[i])] == s[i] by {
            if i < s.len() - 1 {
                assert(d[i] == s[i]);
                assert(key_lt(key_of(s[i]), key_of(s.last())));
            }
        }
        assert forall|k: TopicKey| #[trigger] key_map(s).contains_key(k) implies exists|i: int|
            0 <= i < s.len() && key_of(s[i]) == k by {
            if k == key_of(s.last()) {
                assert(key_of(s[s.len() - 1]) == k);
            } else {
                assert(key_map(d).contains_key(k));
                let i = choose|i: int| 0 <= i < d.len() && key_of(d[i]) == k;
                assert(d[i] == s[i]);
            }
        }
    }
}

/// A key-ordered sequence is the listing of every map with exactly its records.
proof fn lemma_key_map_of(s: Seq<EntryView>, m: Map<TopicKey, EntryView>)
    requires
        sorted_by_key(s),
        forall|i: int| #![trigger s[i]]
            0 <= i < s.len() ==> m.contains_key(key_of(s[i])) && m[key_of(s[i])] == s[i],
        forall|k: TopicKey| #[trigger]
            m.contains_key(k) ==> exists|i: int| 0 <= i < s.len() && key_of(s[i]) == k,
    ensures
        key_map(s) == m,
{
    lemma_key_map(s);
    assert forall|k: TopicKey| #[trigger] key_map(s).contains_key(k) <==> m.contains_key(k) by {
        if key_map(s).contains_key(k) {
            let i = choose|i: int| 0 <= i < s.len() && key_of(s[i]) == k;
            assert(s[i] == s[i]);
        }
        if m.contains_key(k) {
            let i = choose|i: int| 0 <= i < s.len() && key_of(s[i]) == k;
            assert(s[i] == s[i]);
        }
    }
    assert forall|k: TopicKey| #[trigger] key_map(s).contains_key(k) implies key_map(s)[k] == m[k] by {
        let i = choose|i: int| 0 <= i < s.len() && key_of(s[i]) == k;
        assert(s[i] == s[i]);
    }
    assert(key_map(s) =~= m);
}

/// A copy of a byte vector.
pub fn copy_bytes(v: &Vec<u8>) -> (r: Vec<u8>)
    ensures
        r@ == v@,
{
    let r = v.clone();
    assert(r@ =~= v@);
    r
}

/// A copy of a record.
pub fn copy_entry(e: &TopicEntry) -> (r: TopicEntry)
    ensures
        r@ == e@,
{
    TopicEntry {
        body: TopicRecordBody {
            protocol_version: e.body.protocol_version,
            operation: e.body.operation,
            topic: e.body.topic.clone(),
            exchange: e.body.exchange,
            request_type_hash: e.body.request_type_hash,
            response_type_hash: e.body.response_type_hash,
            owner: e.body.owner,
            revision: e.body.revision,
            lease_expires_at_ms: e.body.lease_expires_at_ms,
            machine_name: match &e.body.machine_name {
                Some(s) => Some(s.clone()),
                None => None,
            },
        },
        signature: copy_bytes(&e.signature),
    }
}

fn opt_u64_eq(a: Option<u64>, b: Option<u64>) -> (r: bool)
    ensures
        r == (a == b),
{
    match (a, b) {
        (None, None) => true,
        (Some(x), Some(y)) => x == y,
        _ => false,
    }
}

fn opt_string_eq(a: &Option<String>, b: &Option<String>) -> (r: bool)
    ensures
        r == (super::encoding::opt_string_view(*a) == super::encoding::opt_string_view(*b)),
{
    match (a, b) {
        (None, None) => true,
        (Some(x), Some(y)) => *x == *y,
        _ => false,
    }
}

/// Whether two records are the same signed record.
pub fn entry_same(a: &TopicEntry, b: &TopicEntry) -> (r: bool)
    ensures
        r == same_record(a@, b@),
{
    let same_op = match (a.body.operation, b.body.operation) {
        (DirectoryOperation::Announce, DirectoryOperation::Announce) => true,
        (DirectoryOperation::Withdraw, DirectoryOperation::Withdraw) => true,
        _ => false,
    };
    a.body.protocol_version == b.body.protocol_version && same_op && a.body.topic == b.body.topic
        && a.body.exchange == b.body.exchange && a.body.request_type_hash
        == b.body.request_type_hash && opt_u64_eq(
        a.body.response_type_hash,
        b.body.response_type_hash,
    ) && bytes_eq(&a.body.owner, &b.body.owner) && a.body.revision == b.body.revision
        && a.body.lease_expires_at_ms == b.body.lease_expires_at_ms && opt_string_eq(
        &a.body.machine_name,
        &b.body.machine_name,
    ) && bytes_eq(a.signature.as_slice(), b.signature.as_slice())
}

/// Position of `(topic, exchange)` in a key-ordered vector: the index of its
/// record when present, else where it would be inserted.
fn locate(entries: &Vec<TopicEntry>, topic: &Vec<char>, exchange: ExchangeKind) -> (r: (
    usize,
    bool,
))
    requires
        sorted_by_key(entry_views(entries@)),
    ensures
        r.0 <= entries@.len(),
        r.1 ==> r.0 < entries@.len() && key_of(entries@[r.0 as int]@) == (topic@, exchange),
        forall|j: int| 0 <= j < r.0 ==> key_lt(key_of(#[trigger] entries@[j]@), (topic@, exchange)),
        forall|j: int|
            r.0 <= j < entries@.len() && !(r.1 && j == r.0) ==> key_lt(
                (topic@, exchange),
                key_of(#[trigger] entries@[j]@),
            ),
        r.1 == key_map(entry_views(entries@)).contains_key((topic@, exchange)),
{
    let ghost s = entry_views(entries@);
    let ghost k = (topic@, exchange);
    proof {
        lemma_key_order();
    }
    let mut i: usize = 0;
    while i < entries.len()
        invariant
            i <= entries@.len(),
            s == entry_views(entries@),
            k == (topic@, exchange),
            sorted_by_key(s),
            forall|j: int| 0 <= j < i ==> key_lt(key_of(#[trigger] entries@[j]@), k),
        decreases entries@.len() - i,
    {
        let c = compare_key(&entries[i], topic, exchange);
        if c >= 0 {
            let found = c == 0;
            proof {
                lemma_key_order();
                assert(s[i as int] == entries@[i as int]@);
                assert forall|j: int|
                    i <= j < entries@.len() && !(found && j == i) implies key_lt(
                    k,
                    key_of(#[trigger] entries@[j]@),
                ) by {
                    assert(s[j] == entries@[j]@);
                    if j > i {
                        assert(key_lt(key_of(s[i as int]), key_of(s[j])));
                    }
                }
                lemma_key_map(s);
                if !found {
                    if key_map(s).contains_key(k) {
                        let j = choose|j: int| 0 <= j < s.len() && key_of(s[j]) == k;
                        assert(s[j] == entries@[j]@);
                    }
                } else {
                    assert(key_map(s).contains_key(key_of(s[i as int])));
                }
            }
            return (i, found);
        }
        i = i + 1;
    }
    proof {
        lemma_key_map(s);
        if key_map(s).contains_key(k) {
            let j = choose|j: int| 0 <= j < s.len() && key_of(s[j]) == k;
            assert(s[j] == entries@[j]@);
        }
    }
    (i, false)
}

/// Install record `entry` into a key-ordered vector, as [`apply_result`]
/// and [`apply_map`] describe.
fn apply_entry(entries: &mut Vec<TopicEntry>, entry: TopicEntry) -> (r: Result<bool>)
    requires
        sorted_by_key(entry_views(old(entries)@)),
    ensures
        sorted_by_key(entry_views(final(entries)@)),
        key_map(entry_views(final(entries)@)) == apply_map(
            key_map(entry_views(old(entries)@)),
            entry@,
        ),
        bool_result_view(r) == apply_result(key_map(entry_views(old(entries)@)), entry@),
        r is Err || r == Ok::<bool, Error>(false) ==> final(entries)@ == old(entries)@,
{
    let ghost s = entry_views(entries@);
    let ghost m = key_map(s);
    let ghost e = entry@;
    let topic = chars_of(entry.body.topic.as_str());
    let (i, found) = locate(entries, &topic, entry.body.exchange);
    proof {
        lemma_key_map(s);
        lemma_key_order();
    }
    if found {
        let current = &entries[i];
        proof {
            assert(s[i as int] == current@);
            assert(m[key_of(e)] == current@);
        }
        if !bytes_eq(&current.body.owner, &entry.body.owner) {
            return Err(Error::OwnershipConflict { topic: entry.body.topic.clone() });
        }
        if entry.body.revision < current.body.revision {
            return Err(Error::StaleRevision { topic: entry.body.topic.clone() });
        }
        if entry.body.revision == current.body.revision {
            if entry_same(current, &entry) {
                return Ok(false);
            }
            return Err(Error::RevisionConflict { topic: entry.body.topic.clone() });
        }
        entries.set(i, entry);
        proof {
            let s2 = entry_views(entries@);
            assert(s2 =~= s.update(i as int, e));
            assert forall|a: int, b: int| 0 <= a < b < s2.len() implies key_lt(
                key_of(s2[a]),
                key_of(s2[b]),
            ) by {
                assert(key_of(s2[a]) == key_of(s[a]));
                assert(key_of(s2[b]) == key_of(s[b]));
            }
            let m2 = m.insert(key_of(e), e);
            assert forall|j: int| #![trigger s2[j]] 0 <= j < s2.len() implies m2.contains_key(
                key_of(s2[j]),
            ) && m2[key_of(s2[j])] == s2[j] by {
                if j != i {
                    assert(key_lt(key_of(s[j]), key_of(e)) || key_lt(key_of(e), key_of(s[j])));
                }
            }
            assert forall|kk: TopicKey| #[trigger] m2.contains_key(kk) implies exists|j: int|
                0 <= j < s2.len() && key_of(s2[j]) == kk by {
                if kk == key_of(e) {
                    assert(key_of(s2[i as int]) == kk);
                } else {
                    let j = choose|j: int| 0 <= j < s.len() && key_of(s[j]) == kk;
                    assert(key_of(s2[j]) == kk);
                }
            }
            lemma_key_map_of(s2, m2);
        }
        return Ok(true);
    }
    entries.insert(i, entry);
    proof {
        let s2 = entry_views(entries@);
        assert(s2 =~= s.insert(i as int, e));
        assert forall|a: int, b: int| 0 <= a < b < s2.len() implies key_lt(
            key_of(s2[a]),
            key_of(s2[b]),
        ) by {
            if b < i {
                assert(s2[a] == s[a] && s2[b] == s[b]);
            } else if b == i {
                assert(s2[a] == s[a]);
            } else if a < i {
                assert(s2[a] == s[a] && s2[b] == s[b - 1]);
            } else if a == i {
                assert(s2[b] == s[b - 1]);
            } else {
                assert(s2[a] == s[a - 1] && s2[b] == s[b - 1]);
            }
        }
        let m2 = m.insert(key_of(e), e);
        assert forall|j: int| #![trigger s2[j]] 0 <= j < s2.len() implies m2.contains_key(
            key_of(s2[j]),
        ) && m2[key_of(s2[j])] == s2[j] by {
            if j < i {
                assert(s2[j] == s[j]);
                assert(key_lt(key_of(s[j]), key_of(e)));
            } else if j > i {
                assert(s2[j] == s[j - 1]);
                assert(key_lt(key_of(e), key_of(s[j - 1])));
            }
        }
        assert forall|kk: TopicKey| #[trigger] m2.contains_key(kk) implies exists|j: int|
            0 <= j < s2.len() && key_of(s2[j]) == kk by {
            if kk == key_of(e) {
                assert(key_of(s2[i as int]) == kk);
            } else {
                let j = choose|j: int| 0 <= j < s.len() && key_of(s[j]) == kk;
                if j < i {
                    assert(key_of(s2[j]) == kk);
                } else {
                    assert(key_of(s2[j + 1]) == kk);
                }
            }
        }
        lemma_key_map_of(s2, m2);
    }
    Ok(true)
}


/// The live records of a key-ordered sequence, in order.
pub open spec fn live_seq(s: Seq<EntryView>, now: u64) -> Seq<EntryView>
    decreases s.len(),
{
    if s.len() == 0 {
        s
    } else {
        let p = live_seq(s.drop_last(), now);
        if is_live(s.last(), now) {
            p.push(s.last())
        } else {
            p
        }
    }
}

#[verifier::spinoff_prover]
#[verifier::rlimit(40)]
proof fn lemma_live_seq(s: Seq<EntryView>, now: u64)
    requires
        sorted_by_key(s),
    ensures
        sorted_by_key(live_seq(s, now)),
        forall|j: int| #![trigger live_seq(s, now)[j]]
            0 <= j < live_seq(s, now).len() ==> exists|q: int|
                0 <= q < s.len() && s[q] == live_seq(s, now)[j] && is_live(s[q], now),
        key_map(live_seq(s, now)) == live_map(key_map(s), now),
        live_seq(s, now).len() <= s.len(),
        (forall|q: int| 0 <= q < s.len() ==> is_live(#[trigger] s[q], now)) ==> live_seq(s, now)
            == s,
        (exists|q: int| 0 <= q < s.len() && !is_live(#[trigger] s[q], now)) ==> live_seq(
            s,
            now,
        ).len() < s.len(),
    decreases s.len(),
{
    lemma_key_order();
    if s.len() == 0 {
        assert(key_map(s) =~= Map::<TopicKey, EntryView>::empty());
        assert(live_map(key_map(s), now) =~= Map::<TopicKey, EntryView>::empty());
    } else {
        let d = s.drop_last();
        let x = s.last();
        let k = key_of(x);
        assert(sorted_by_key(d));
        lemma_live_seq(d, now);
        lemma_key_map(d);
        let p = live_seq(d, now);
        assert(!key_map(d).contains_key(k)) by {
            if key_map(d).contains_key(k) {
                let q = choose|q: int| 0 <= q < d.len() && key_of(d[q]) == k;
                assert(key_lt(key_of(s[q]), key_of(s[s.len() - 1])));
            }
        }
        if is_live(x, now) {
            let ls = p.push(x);
            assert(ls.drop_last() =~= p);
            assert forall|a: int, b: int| 0 <= a < b < ls.len() implies key_lt(
                key_of(ls[a]),
                key_of(ls[b]),
            ) by {
                if b == ls.len() - 1 {
                    assert(ls[a] == p[a]);
                    let q = choose|q: int| 0 <= q < d.len() && d[q] == p[a] && is_live(d[q], now);
                    assert(key_lt(key_of(s[q]), key_of(s[s.len() - 1])));
                } else {
                    assert(ls[a] == p[a] && ls[b] == p[b]);
                }
            }
            assert forall|j: int| #![trigger ls[j]] 0 <= j < ls.len() implies exists|q: int|
                0 <= q < s.len() && s[q] == ls[j] && is_live(s[q], now) by {
                if j == ls.len() - 1 {
                    assert(s[s.len() - 1] == ls[j]);
                } else {
                    assert(ls[j] == p[j]);
                    let q = choose|q: int| 0 <= q < d.len() && d[q] == p[j] && is_live(d[q], now);
                    assert(s[q] == d[q]);
                }
            }
            assert(live_map(key_map(s), now) =~= live_map(key_map(d), now).insert(k, x));
            if forall|q: int| 0 <= q < s.len() ==> is_live(#[trigger] s[q], now) {
                assert forall|q: int| 0 <= q < d.len() implies is_live(#[trigger] d[q], now) by {
                    assert(s[q] == d[q]);
                }
                assert(s =~= d.push(x));
            }
            if exists|q: int| 0 <= q < s.len() && !is_live(#[trigger] s[q], now) {
                let q = choose|q: int| 0 <= q < s.len() && !is_live(#[trigger] s[q], now);
                assert(q < d.len());
                assert(!is_live(d[q], now));
            }
        } else {
            assert forall|j: int| #![trigger p[j]] 0 <= j < p.len() implies exists|q: int|
                0 <= q < s.len() && s[q] == p[j] && is_live(s[q], now) by {
                let q = choose|q: int| 0 <= q < d.len() && d[q] == p[j] && is_live(d[q], now);
                assert(s[q] == d[q]);
            }
            assert(live_map(key_map(s), now) =~= live_map(key_map(d), now));
            assert(!is_live(s[s.len() - 1], now));
        }
    }
}

/// The live records of a key-ordered vector, and whether any had expired.
fn prune_vec(entries: &Vec<TopicEntry>, now: u64) -> (r: (Vec<TopicEntry>, bool))
    requires
        sorted_by_key(entry_views(entries@)),
    ensures
        sorted_by_key(entry_views(r.0@)),
        key_map(entry_views(r.0@)) == live_map(key_map(entry_views(entries@)), now),
        r.1 == has_expired(key_map(entry_views(entries@)), now),
        !r.1 ==> entry_views(r.0@) == entry_views(entries@),
{
    let ghost s = entry_views(entries@);
    let mut kept: Vec<TopicEntry> = Vec::new();
    let mut all_live = true;
    let n = entries.len();
    let mut i: usize = 0;
    while i < n
        invariant
            n == entries@.len(),
            i <= n,
            s == entry_views(entries@),
            entry_views(kept@) == live_seq(s.take(i as int), now),
            all_live == (forall|q: int| 0 <= q < i ==> is_live(#[trigger] s[q], now)),
        decreases n - i,
    {
        let e = &entries[i];
        assert(s[i as int] == e@);
        assert(s.take(i + 1).drop_last() =~= s.take(i as int));
        if e.body.lease_expires_at_ms > now {
            kept.push(copy_entry(e));
            assert(entry_views(kept@) =~= live_seq(s.take(i as int), now).push(e@));
        } else {
            all_live = false;
        }
        i = i + 1;
    }
    proof {
        assert(s.take(n as int) =~= s);
        lemma_live_seq(s, now);
        lemma_key_map(s);
        if all_live {
            if has_expired(key_map(s), now) {
                let k = choose|k: TopicKey| key_map(s).contains_key(k) && !is_live(
                    #[trigger] key_map(s)[k],
                    now,
                );
                let q = choose|q: int| 0 <= q < s.len() && key_of(s[q]) == k;
                assert(s[q] == s[q]);
            }
        } else {
            let q = choose|q: int| 0 <= q < n && !is_live(#[trigger] s[q], now);
            assert(key_map(s).contains_key(key_of(s[q])));
            assert(!is_live(key_map(s)[key_of(s[q])], now));
        }
    }
    (kept, !all_live)
}

/// A copy of every record of a vector.
fn copy_entries(entries: &Vec<TopicEntry>) -> (r: Vec<TopicEntry>)
    ensures
        entry_views(r@) == entry_views(entries@),
{
    let mut out: Vec<TopicEntry> = Vec::new();
    let mut i: usize = 0;
    while i < entries.len()
        invariant
            i <= entries@.len(),
            out@.len() == i,
            entry_views(out@) == entry_views(entries@).take(i as int),
        decreases entries@.len() - i,
    {
        let c = copy_entry(&entries[i]);
        out.push(c);
        assert(entry_views(out@)[i as int] == entries@[i as int]@);
        assert(entry_views(out@) =~= entry_views(entries@).take(i + 1));
        i = i + 1;
    }
    assert(entry_views(entries@).take(i as int) =~= entry_views(entries@));
    out
}

/// A copy of a signature-check outcome.
pub fn copy_check(c: &core::result::Result<bool, String>) -> (r: core::result::Result<bool, String>)
    ensures
        check_view(r) == check_view(*c),
{
    match c {
        Ok(b) => Ok(*b),
        Err(s) => Err(s.clone()),
    }
}

/// The outcomes of a batch of signature checks.
pub open spec fn check_views(cs: Seq<core::result::Result<bool, String>>) -> Seq<
    core::result::Result<bool, Seq<char>>,
> {
    cs.map_values(|c: core::result::Result<bool, String>| check_view(c))
}

/// The views of an optional record.
pub open spec fn opt_entry_view(o: Option<TopicEntry>) -> Option<EntryView> {
    match o {
        None => None,
        Some(e) => Some(e@),
    }
}

/// The record of `m` under key `k`, if any.
pub open spec fn map_get(m: Map<TopicKey, EntryView>, k: TopicKey) -> Option<EntryView> {
    if m.contains_key(k) {
        Some(m[k])
    } else {
        None
    }
}

/// Concurrent-free verified directory with leased, owner-scoped records.
///
/// Its records are kept in key order, so at most one record exists per
/// topic and exchange family; every operation first drops the records whose
/// lease has run out.
#[derive(Debug)]
pub struct Directory {
    entries: Vec<TopicEntry>,
    generation: u64,
}

impl View for Directory {
    type V = DirectoryView;

    closed spec fn view(&self) -> DirectoryView {
        DirectoryView { entries: key_map(entry_views(self.entries@)), generation: self.generation }
    }
}

impl Directory {
    /// The directory's internal invariant: its records are in strict key order.
    pub closed spec fn wf(&self) -> bool {
        sorted_by_key(entry_views(self.entries@))
    }

    /// The records in the directory's deterministic order.
    pub closed spec fn listing(&self) -> Seq<EntryView> {
        entry_views(self.entries@)
    }

    /// Create an empty directory.
    pub fn new() -> (d: Directory)
        ensures
            d.wf(),
            d@.entries == Map::<TopicKey, EntryView>::empty(),
            d@.generation == 0,
    {
        let d = Directory { entries: Vec::new(), generation: 0 };
        assert(entry_views(d.entries@) =~= Seq::<EntryView>::empty());
        d
    }

    /// Drop the records expired at `now`.
    pub fn prune_expired_at(&mut self, now: u64)
        requires
            old(self).wf(),
        ensures
            final(self).wf(),
            final(self)@ == pruned(old(self)@, now),
            is_listing_of(final(self).listing(), final(self)@.entries),
            !has_expired(old(self)@.entries, now) ==> final(self).listing() == old(self).listing(),
    {
        let (kept, expired) = prune_vec(&self.entries, now);
        self.entries = kept;
        if expired {
            self.generation = if self.generation == u64::MAX {
                0
            } else {
                self.generation + 1
            };
        }
    }

    /// Verify record `entry` (its signature check having come out as
    /// `signature_check`) at `now` and install it, returning whether state changed.
    pub fn register_at(
        &mut self,
        entry: TopicEntry,
        now: u64,
        signature_check: core::result::Result<bool, String>,
    ) -> (r: Result<bool>)
        requires
            old(self).wf(),
        ensures
            final(self).wf(),
            (final(self)@, bool_result_view(r)) == register_view(
                old(self)@,
                entry@,
                now,
                check_view(signature_check),
            ),
    {
        entry.verify(now, signature_check)?;
        self.prune_expired_at(now);
        let mut entries = copy_entries(&self.entries);
        let changed = apply_entry(&mut entries, entry)?;
        if changed {
            self.entries = entries;
            self.generation = if self.generation == u64::MAX {
                0
            } else {
                self.generation + 1
            };
        }
        Ok(changed)
    }

    /// Verify and install one record at the current time.
    pub fn register(&mut self, entry: TopicEntry, signature_check: core::result::Result<bool, String>) -> (r:
        Result<bool>)
        requires
            old(self).wf(),
        ensures
            final(self).wf(),
            exists|now: u64| #[trigger]
                register_view(old(self)@, entry@, now, check_view(signature_check)) == (
                    final(self)@,
                    bool_result_view(r),
                ),
    {
        let now = unix_time_ms();
        self.register_at(entry, now, signature_check)
    }

    /// Verify every record of a batch, then install them all or none.
    pub fn register_many_at(
        &mut self,
        entries: Vec<TopicEntry>,
        now: u64,
        signature_checks: Vec<core::result::Result<bool, String>>,
    ) -> (r: Result<usize>)
        requires
            old(self).wf(),
            signature_checks@.len() == entries@.len(),
        ensures
            final(self).wf(),
            (final(self)@, count_result_view(r)) == register_many_view(
                old(self)@,
                entry_views(entries@),
                now,
                check_views(signature_checks@),
            ),
    {
        let ghost es = entry_views(entries@);
        let ghost cs = check_views(signature_checks@);
        let n = entries.len();
        let mut i: usize = 0;
        while i < n
            invariant
                n == entries@.len(),
                n == signature_checks@.len(),
                i <= n,
                self.wf(),
                self@ == old(self)@,
                es == entry_views(entries@),
                cs == check_views(signature_checks@),
                verify_failure_from(es, now, cs, 0) == verify_failure_from(es, now, cs, i as int),
            decreases n - i,
        {
            let check = copy_check(&signature_checks[i]);
            assert(es[i as int] == entries@[i as int]@);
            assert(cs[i as int] == check_view(signature_checks@[i as int]));
            entries[i].verify(now, check)?;
            i = i + 1;
        }
        assert(verify_failure_from(es, now, cs, n as int) == None::<ErrorView>);
        self.prune_expired_at(now);
        let ghost p = self@;
        let mut candidate = copy_entries(&self.entries);
        let mut count: usize = 0;
        let mut j: usize = 0;
        while j < n
            invariant
                n == entries@.len(),
                j <= n,
                count <= j,
                es == entry_views(entries@),
                self.wf(),
                self@ == p,
                p == pruned(old(self)@, now),
                verify_failure_from(es, now, check_views(signature_checks@), 0) is None,
                sorted_by_key(entry_views(candidate@)),
                count == 0 ==> entry_views(candidate@) == entry_views(self.entries@),
                ({
                    let total = apply_all_from(p.entries, es, 0);
                    let rest = apply_all_from(key_map(entry_views(candidate@)), es, j as int);
                    &&& total.0 == rest.0
                    &&& match rest.1 {
                        Ok(c) => total.1 == Ok::<nat, ErrorView>(c + count as nat),
                        Err(e) => total.1 == Err::<nat, ErrorView>(e),
                    }
                }),
            decreases n - j,
        {
            let e = copy_entry(&entries[j]);
            assert(es[j as int] == e@);
            let changed = apply_entry(&mut candidate, e)?;
            if changed {
                count = count + 1;
            }
            j = j + 1;
        }
        if count > 0 {
            self.entries = candidate;
            self.generation = if self.generation == u64::MAX {
                0
            } else {
                self.generation + 1
            };
        }
        Ok(count)
    }

    /// Verify and install a batch of records at the current time.
    pub fn register_many(
        &mut self,
        entries: Vec<TopicEntry>,
        signature_checks: Vec<core::result::Result<bool, String>>,
    ) -> (r: Result<usize>)
        requires
            old(self).wf(),
            signature_checks@.len() == entries@.len(),
        ensures
            final(self).wf(),
            exists|now: u64| #[trigger]
                register_many_view(
                    old(self)@,
                    entry_views(entries@),
                    now,
                    check_views(signature_checks@),
                ) == (final(self)@, count_result_view(r)),
    {
        let now = unix_time_ms();
        self.register_many_at(entries, now, signature_checks)
    }

    /// Look up the live record for normalized `topic` and `exchange` at `now`.
    pub fn lookup_exchange_at(&mut self, topic: &str, exchange: ExchangeKind, now: u64) -> (r: Option<
        TopicEntry,
    >)
        requires
            old(self).wf(),
        ensures
            final(self).wf(),
            final(self)@ == pruned(old(self)@, now),
            opt_entry_view(r) == map_get(final(self)@.entries, (topic@, exchange)),
    {
        self.prune_expired_at(now);
        let chars = chars_of(topic);
        let (i, found) = locate(&self.entries, &chars, exchange);
        if found {
            proof {
                lemma_key_map(entry_views(self.entries@));
                assert(entry_views(self.entries@)[i as int] == self.entries@[i as int]@);
            }
            Some(copy_entry(&self.entries[i]))
        } else {
            None
        }
    }

    /// Look up one live record by normalized topic and exchange family.
    pub fn lookup_exchange(&mut self, topic: &str, exchange: ExchangeKind) -> (r: Option<TopicEntry>)
        requires
            old(self).wf(),
        ensures
            final(self).wf(),
            exists|now: u64| #[trigger] pruned(old(self)@, now) == final(self)@,
            opt_entry_view(r) == map_get(final(self)@.entries, (topic@, exchange)),
    {
        let now = unix_time_ms();
        self.lookup_exchange_at(topic, exchange, now)
    }

    /// Look up a live record for normalized `topic` at `now`: the one with
    /// the least exchange rank when the topic hosts several families.
    pub fn lookup_at(&mut self, topic: &str, now: u64) -> (r: Option<TopicEntry>)
        requires
            old(self).wf(),
        ensures
            final(self).wf(),
            final(self)@ == pruned(old(self)@, now),
            r is None <==> !exists|x: ExchangeKind| #[trigger]
                final(self)@.entries.contains_key((topic@, x)),
            r matches Some(e) ==> first_for_topic(final(self)@.entries, topic@, e@),
    {
        self.prune_expired_at(now);
        let ghost s = entry_views(self.entries@);
        let want = chars_of(topic);
        let mut i: usize = 0;
        while i < self.entries.len()
            invariant
                i <= self.entries@.len(),
                self.wf(),
                self@ == pruned(old(self)@, now),
                is_listing_of(self.listing(), self@.entries),
                s == entry_views(self.entries@),
                want@ == topic@,
                sorted_by_key(s),
                forall|j: int| 0 <= j < i ==> (#[trigger] s[j]).body.topic != topic@,
            decreases self.entries@.len() - i,
        {
            let own = chars_of(self.entries[i].body.topic.as_str());
            assert(s[i as int] == self.entries@[i as int]@);
            if crate::text::chars_eq(&own, &want) {
                proof {
                    lemma_key_order();
                    lemma_key_map(s);
                    let e = s[i as int];
                    assert(e == self.entries@[i as int]@);
                    assert forall|x: ExchangeKind| #[trigger]
                        key_map(s).contains_key((topic@, x)) implies super::entry::exchange_index(
                        e.body.exchange,
                    ) <= super::entry::exchange_index(x) by {
                        let j = choose|j: int| 0 <= j < s.len() && key_of(s[j]) == (topic@, x);
                        if j != i {
                            assert(j > i);
                            assert(key_lt(key_of(s[i as int]), key_of(s[j])));
                            super::order::lemma_char_seq_lt_irreflexive(topic@);
                        }
                    }
                }
                return Some(copy_entry(&self.entries[i]));
            }
            i = i + 1;
        }
        proof {
            lemma_key_map(s);
            if exists|x: ExchangeKind| #[trigger] key_map(s).contains_key((topic@, x)) {
                let x = choose|x: ExchangeKind| #[trigger] key_map(s).contains_key((topic@, x));
                let j = choose|j: int| 0 <= j < s.len() && key_of(s[j]) == (topic@, x);
                assert(s[j].body.topic == topic@);
            }
        }
        None
    }

    /// Look up any live record for a normalized topic.
    pub fn lookup(&mut self, topic: &str) -> (r: Option<TopicEntry>)
        requires
            old(self).wf(),
        ensures
            final(self).wf(),
            exists|now: u64| #[trigger] pruned(old(self)@, now) == final(self)@,
            r is None <==> !exists|x: ExchangeKind| #[trigger]
                final(self)@.entries.contains_key((topic@, x)),
            r matches Some(e) ==> first_for_topic(final(self)@.entries, topic@, e@),
    {
        let now = unix_time_ms();
        self.lookup_at(topic, now)
    }

    /// All live records at `now`, in deterministic key order.
    pub fn all_entries_at(&mut self, now: u64) -> (r: Vec<TopicEntry>)
        requires
            old(self).wf(),
        ensures
            final(self).wf(),
            final(self)@ == pruned(old(self)@, now),
            entry_views(r@) == final(self).listing(),
            is_listing_of(entry_views(r@), final(self)@.entries),
            !has_expired(old(self)@.entries, now) ==> final(self).listing() == old(self).listing(),
    {
        self.prune_expired_at(now);
        copy_entries(&self.entries)
    }

    /// Return all live entries in deterministic order.
    pub fn all_entries(&mut self) -> (r: Vec<TopicEntry>)
        requires
            old(self).wf(),
        ensures
            final(self).wf(),
            exists|now: u64| #[trigger] pruned(old(self)@, now) == final(self)@,
            entry_views(r@) == final(self).listing(),
            is_listing_of(entry_views(r@), final(self)@.entries),
    {
        let now = unix_time_ms();
        self.all_entries_at(now)
    }

    /// One page of the live listing at `now`: records `offset..offset+limit`
    /// of the current generation, with the offset of the next page. Fails
    /// when `expected_generation` names a generation other than the current one.
    pub fn snapshot_page_at(
        &mut self,
        expected_generation: Option<u64>,
        offset: usize,
        limit: usize,
        now: u64,
    ) -> (r: Result<(u64, Vec<TopicEntry>, Option<usize>)>)
        requires
            old(self).wf(),
        ensures
            final(self).wf(),
            final(self)@ == pruned(old(self)@, now),
            is_listing_of(final(self).listing(), final(self)@.entries),
            match expected_generation {
                Some(g) => g != final(self)@.generation,
                None => false,
            } <==> r is Err,
            r matches Err(e) ==> e@ == (ErrorView::SnapshotChanged {
                expected: expected_generation->Some_0,
                actual: final(self)@.generation,
            }),
            r matches Ok(page) ==> page.0 == final(self)@.generation && entry_views(page.1@)
                == page_of(final(self).listing(), offset, limit) && page.2 == next_page_offset(
                final(self).listing(),
                offset,
                limit,
            ),
            ({
                let len = final(self).listing().len();
                offset + limit <= usize::MAX && offset <= len ==> (r matches Ok(page) ==> {
                    &&& entry_views(page.1@) == final(self).listing().subrange(
                        offset as int,
                        if offset + limit < len {
                            offset + limit
                        } else {
                            len as int
                        },
                    )
                    &&& page.2 == if offset + limit < len {
                        Some((offset + limit) as usize)
                    } else {
                        None
                    }
                })
            }),
    {
        self.prune_expired_at(now);
        if let Some(expected) = expected_generation {
            if expected != self.generation {
                return Err(Error::SnapshotChanged { expected, actual: self.generation });
            }
        }
        let len = self.entries.len();
        let sum = offset.saturating_add(limit);
        let end = if sum < len {
            sum
        } else {
            len
        };
        let mut page: Vec<TopicEntry> = Vec::new();
        if offset <= end {
            let mut i: usize = offset;
            while i < end
                invariant
                    offset <= i <= end <= self.entries@.len(),
                    entry_views(page@) == entry_views(self.entries@).subrange(
                        offset as int,
                        i as int,
                    ),
                    page@.len() == i - offset,
                decreases end - i,
            {
                let c = copy_entry(&self.entries[i]);
                page.push(c);
                assert(entry_views(page@) =~= entry_views(self.entries@).subrange(
                    offset as int,
                    i + 1,
                ));
                i = i + 1;
            }
        } else {
            assert(entry_views(page@) =~= Seq::<EntryView>::empty());
        }
        let next = if end < len {
            Some(end)
        } else {
            None
        };
        Ok((self.generation, page, next))
    }

    /// One page of the live listing at the current time.
    pub fn snapshot_page(&mut self, expected_generation: Option<u64>, offset: usize, limit: usize) -> (r:
        Result<(u64, Vec<TopicEntry>, Option<usize>)>)
        requires
            old(self).wf(),
        ensures
            final(self).wf(),
            exists|now: u64| #[trigger] pruned(old(self)@, now) == final(self)@,
            is_listing_of(final(self).listing(), final(self)@.entries),
            match expected_generation {
                Some(g) => g != final(self)@.generation,
                None => false,
            } <==> r is Err,
            r matches Err(e) ==> e@ == (ErrorView::SnapshotChanged {
                expected: expected_generation->Some_0,
                actual: final(self)@.generation,
            }),
            r matches Ok(page) ==> page.0 == final(self)@.generation && entry_views(page.1@)
                == page_of(final(self).listing(), offset, limit) && page.2 == next_page_offset(
                final(self).listing(),
                offset,
                limit,
            ),
            ({
                let len = final(self).listing().len();
                offset + limit <= usize::MAX && offset <= len ==> (r matches Ok(page) ==> {
                    &&& entry_views(page.1@) == final(self).listing().subrange(
                        offset as int,
                        if offset + limit < len {
                            offset + limit
                        } else {
                            len as int
                        },
                    )
                    &&& page.2 == if offset + limit < len {
                        Some((offset + limit) as usize)
                    } else {
                        None
                    }
                })
            }),
    {
        let now = unix_time_ms();
        self.snapshot_page_at(expected_generation, offset, limit, now)
    }

    /// Verify withdrawal `w` (its signature check having come out as
    /// `signature_check`) and apply it at `now`: it removes only the exact
    /// current record of its owner, at a newer revision.
    pub fn withdraw_at(
        &mut self,
        w: &TopicWithdrawal,
        now: u64,
        signature_check: core::result::Result<bool, String>,
    ) -> (r: Result<bool>)
        requires
            old(self).wf(),
        ensures
            final(self).wf(),
            (final(self)@, bool_result_view(r)) == withdraw_view(
                old(self)@,
                w@,
                now,
                check_view(signature_check),
            ),
    {
        w.verify(signature_check)?;
        self.prune_expired_at(now);
        let topic = chars_of(w.body.topic.as_str());
        let (i, found) = locate(&self.entries, &topic, w.body.exchange);
        let ghost s = entry_views(self.entries@);
        let ghost k = (w.body.topic@, w.body.exchange);
        if !found {
            return Ok(false);
        }
        proof {
            lemma_key_map(s);
            assert(s[i as int] == self.entries@[i as int]@);
        }
        let current = &self.entries[i];
        if !bytes_eq(&current.body.owner, &w.body.owner) {
            return Err(Error::OwnershipConflict { topic: w.body.topic.clone() });
        }
        if !w.targets(current) || w.body.revision <= current.body.revision {
            return Err(Error::StaleRevision { topic: w.body.topic.clone() });
        }
        let mut entries = copy_entries(&self.entries);
        entries.remove(i);
        proof {
            let s2 = entry_views(entries@);
            assert(s2 =~= s.remove(i as int));
            lemma_key_order();
            assert forall|a: int, b: int| 0 <= a < b < s2.len() implies key_lt(
                key_of(s2[a]),
                key_of(s2[b]),
            ) by {
                if b < i {
                    assert(s2[a] == s[a] && s2[b] == s[b]);
                } else if a < i {
                    assert(s2[a] == s[a] && s2[b] == s[b + 1]);
                } else {
                    assert(s2[a] == s[a + 1] && s2[b] == s[b + 1]);
                }
            }
            let m2 = key_map(s).remove(k);
            assert forall|j: int| #![trigger s2[j]] 0 <= j < s2.len() implies m2.contains_key(
                key_of(s2[j]),
            ) && m2[key_of(s2[j])] == s2[j] by {
                if j < i {
                    assert(s2[j] == s[j]);
                    assert(key_lt(key_of(s[j]), key_of(s[i as int])));
                } else {
                    assert(s2[j] == s[j + 1]);
                    assert(key_lt(key_of(s[i as int]), key_of(s[j + 1])));
                }
            }
            assert forall|kk: TopicKey| #[trigger] m2.contains_key(kk) implies exists|j: int|
                0 <= j < s2.len() && key_of(s2[j]) == kk by {
                let j = choose|j: int| 0 <= j < s.len() && key_of(s[j]) == kk;
                if j < i {
                    assert(key_of(s2[j]) == kk);
                } else {
                    assert(j != i);
                    assert(key_of(s2[j - 1]) == kk);
                }
            }
            lemma_key_map_of(s2, m2);
        }
        self.entries = entries;
        self.generation = if self.generation == u64::MAX {
            0
        } else {
            self.generation + 1
        };
        Ok(true)
    }

    /// Verify and apply a withdrawal at the current time.
    pub fn withdraw(&mut self, w: &TopicWithdrawal, signature_check: core::result::Result<bool, String>) -> (r:
        Result<bool>)
        requires
            old(self).wf(),
        ensures
            final(self).wf(),
            exists|now: u64| #[trigger]
                withdraw_view(old(self)@, w@, now, check_view(signature_check)) == (
                    final(self)@,
                    bool_result_view(r),
                ),
    {
        let now = unix_time_ms();
        self.withdraw_at(w, now, signature_check)
    }

    /// Remove a local record without a signed remote withdrawal.
    pub fn remove(&mut self, topic: &str, exchange: ExchangeKind) -> (r: Option<TopicEntry>)
        requires
            old(self).wf(),
        ensures
            final(self).wf(),
            opt_entry_view(r) == map_get(old(self)@.entries, (topic@, exchange)),
            final(self)@.entries == old(self)@.entries.remove((topic@, exchange)),
            final(self)@.generation == if r is Some {
                next_generation(old(self)@.generation)
            } else {
                old(self)@.generation
            },
    {
        let chars = chars_of(topic);
        let (i, found) = locate(&self.entries, &chars, exchange);
        let ghost s = entry_views(self.entries@);
        let ghost k = (topic@, exchange);
        proof {
            lemma_key_map(s);
        }
        if !found {
            assert(key_map(s).remove(k) =~= key_map(s));
            return None;
        }
        assert(s[i as int] == self.entries@[i as int]@);
        let mut entries = copy_entries(&self.entries);
        let removed = entries.remove(i);
        proof {
            let s2 = entry_views(entries@);
            assert(s2 =~= s.remove(i as int));
            lemma_key_order();
            assert forall|a: int, b: int| 0 <= a < b < s2.len() implies key_lt(
                key_of(s2[a]),
                key_of(s2[b]),
            ) by {
                if b < i {
                    assert(s2[a] == s[a] && s2[b] == s[b]);
                } else if a < i {
                    assert(s2[a] == s[a] && s2[b] == s[b + 1]);
                } else {
                    assert(s2[a] == s[a + 1] && s2[b] == s[b + 1]);
                }
            }
            let m2 = key_map(s).remove(k);
            assert forall|j: int| #![trigger s2[j]] 0 <= j < s2.len() implies m2.contains_key(
                key_of(s2[j]),
            ) && m2[key_of(s2[j])] == s2[j] by {
                if j < i {
                    assert(s2[j] == s[j]);
                    assert(key_lt(key_of(s[j]), key_of(s[i as int])));
                } else {
                    assert(s2[j] == s[j + 1]);
                    assert(key_lt(key_of(s[i as int]), key_of(s[j + 1])));
                }
            }
            assert forall|kk: TopicKey| #[trigger] m2.contains_key(kk) implies exists|j: int|
                0 <= j < s2.len() && key_of(s2[j]) == kk by {
                let j = choose|j: int| 0 <= j < s.len() && key_of(s[j]) == kk;
                if j < i {
                    assert(key_of(s2[j]) == kk);
                } else {
                    assert(j != i);
                    assert(key_of(s2[j - 1]) == kk);
                }
            }
            lemma_key_map_of(s2, m2);
        }
        self.entries = entries;
        self.generation = if self.generation == u64::MAX {
            0
        } else {
            self.generation + 1
        };
        Some(removed)
    }
}

} // verus!

verus! {

/// A listing of the directory after pruning at `now` (what `all_entries`
/// gives) holds exactly the records of the directory whose lease outlives
/// `now`, in strictly ascending key order (topic, then exchange rank), so
/// at most one record per topic and exchange.
pub proof fn lemma_listing_holds_live_records(l: Seq<EntryView>, v: DirectoryView, now: u64)
    requires
        is_listing_of(l, pruned(v, now).entries),
    ensures
        forall|i: int, j: int| 0 <= i < j < l.len() ==> key_lt(key_of(#[trigger] l[i]), key_of(#[trigger] l[j])),
        forall|i: int|
            0 <= i < l.len() ==> v.entries.contains_key(key_of(#[trigger] l[i])) && v.entries[key_of(
                l[i],
            )] == l[i] && is_live(l[i], now),
        forall|k: TopicKey|
            v.entries.contains_key(k) && is_live(#[trigger] v.entries[k], now) ==> exists|i: int|
                0 <= i < l.len() && l[i] == v.entries[k],
{
    lemma_key_map(l);
    let m = pruned(v, now).entries;
    assert forall|i: int| 0 <= i < l.len() implies v.entries.contains_key(key_of(#[trigger] l[i]))
        && v.entries[key_of(l[i])] == l[i] && is_live(l[i], now) by {
        assert(m.contains_key(key_of(l[i])) && m[key_of(l[i])] == l[i]);
    }
    assert forall|k: TopicKey| v.entries.contains_key(k) && is_live(#[trigger] v.entries[k], now) implies exists|i: int|
        0 <= i < l.len() && l[i] == v.entries[k] by {
        assert(m.contains_key(k));
        let i = choose|i: int| 0 <= i < l.len() && key_of(l[i]) == k;
        assert(l[i] == l[i]);
    }
}

/// A withdrawal succeeds only against the exact current record it was
/// signed for: the live record under its topic and exchange has the
/// withdrawal's owner, the revision the withdrawal targets and the very
/// signature it targets, and only that record goes. A withdrawal whose
/// target revision or target signature differs from the live record's is
/// refused as stale and leaves every record in place.
pub proof fn lemma_withdrawal_removes_only_its_exact_target(
    v: DirectoryView,
    w: WithdrawalView,
    now: u64,
    check: core::result::Result<bool, Seq<char>>,
)
    ensures
        ({
            let (d, r) = withdraw_view(v, w, now, check);
            let p = pruned(v, now).entries;
            let k = (w.body.topic, w.body.exchange);
            &&& r == Ok::<bool, ErrorView>(true) ==> (p.contains_key(k) && p[k].body.owner
                == w.body.owner && p[k].body.revision == w.body.target_revision && p[k].signature
                == w.body.target_signature && p[k].body.revision < w.body.revision && d.entries
                == p.remove(k))
            &&& (p.contains_key(k) && p[k].body.owner == w.body.owner && (p[k].body.revision
                != w.body.target_revision || p[k].signature != w.body.target_signature))
                ==> r != Ok::<bool, ErrorView>(true) && d.entries.contains_key(k) && d.entries[k]
                == p[k]
        }),
{
}

/// A page of a listing when `offset + limit` fits in `usize` and `offset`
/// lies within the listing: records `offset..min(offset + limit, len)`, and
/// a next page at `offset + limit` exactly when records remain after it.
pub proof fn lemma_page_bounds(listing: Seq<EntryView>, offset: usize, limit: usize)
    requires
        offset + limit <= usize::MAX,
        offset <= listing.len(),
    ensures
        page_of(listing, offset, limit) == listing.subrange(
            offset as int,
            if offset + limit < listing.len() {
                offset + limit
            } else {
                listing.len() as int
            },
        ),
        next_page_offset(listing, offset, limit) == if offset + limit < listing.len() {
            Some((offset + limit) as usize)
        } else {
            None
        },
{
}

/// Every operation leaves only records whose lease outlives the time it ran at.
pub proof fn lemma_operations_keep_only_live_records(
    v: DirectoryView,
    e: EntryView,
    w: WithdrawalView,
    now: u64,
    check: core::result::Result<bool, Seq<char>>,
)
    ensures
        forall|k: TopicKey| #[trigger]
            pruned(v, now).entries.contains_key(k) ==> is_live(pruned(v, now).entries[k], now),
        entry_verify_result(e, now, check) is Ok ==> forall|k: TopicKey| #[trigger]
            register_view(v, e, now, check).0.entries.contains_key(k) ==> is_live(
                register_view(v, e, now, check).0.entries[k],
                now,
            ),
        withdrawal_verify_result(w, check) is Ok ==> forall|k: TopicKey| #[trigger]
            withdraw_view(v, w, now, check).0.entries.contains_key(k) ==> is_live(
                withdraw_view(v, w, now, check).0.entries[k],
                now,
            ),
{
}

/// Pruning twice at the same time prunes nothing more.
pub proof fn lemma_pruned_idempotent(v: DirectoryView, now: u64)
    ensures
        !has_expired(pruned(v, now).entries, now),
        pruned(pruned(v, now), now) == pruned(v, now),
{
    let p = pruned(v, now);
    assert(live_map(p.entries, now) =~= p.entries);
}

/// A newer revision signed by the same owner replaces the live record.
pub proof fn lemma_newer_revision_replaces(
    v: DirectoryView,
    e: EntryView,
    now: u64,
    check: core::result::Result<bool, Seq<char>>,
)
    requires
        entry_verify_result(e, now, check) is Ok,
        pruned(v, now).entries.contains_key(key_of(e)),
        pruned(v, now).entries[key_of(e)].body.owner == e.body.owner,
        pruned(v, now).entries[key_of(e)].body.revision < e.body.revision,
    ensures
        register_view(v, e, now, check).1 == Ok::<bool, ErrorView>(true),
        register_view(v, e, now, check).0.entries == pruned(v, now).entries.insert(key_of(e), e),
{
}

/// An older revision never rolls a live record back, and leaves the
/// directory as pruning left it.
pub proof fn lemma_older_revision_is_stale(
    v: DirectoryView,
    e: EntryView,
    now: u64,
    check: core::result::Result<bool, Seq<char>>,
)
    requires
        entry_verify_result(e, now, check) is Ok,
        pruned(v, now).entries.contains_key(key_of(e)),
        pruned(v, now).entries[key_of(e)].body.owner == e.body.owner,
        e.body.revision < pruned(v, now).entries[key_of(e)].body.revision,
    ensures
        register_view(v, e, now, check).1 == Err::<bool, ErrorView>(
            ErrorView::StaleRevision { topic: e.body.topic },
        ),
        register_view(v, e, now, check).0 == pruned(v, now),
{
}

/// At an equal revision only the identical signed record is accepted, and
/// accepting it again changes nothing; any other record is a revision conflict.
pub proof fn lemma_equal_revision_requires_identical_record(
    v: DirectoryView,
    e: EntryView,
    now: u64,
    check: core::result::Result<bool, Seq<char>>,
)
    requires
        entry_verify_result(e, now, check) is Ok,
        pruned(v, now).entries.contains_key(key_of(e)),
        pruned(v, now).entries[key_of(e)].body.owner == e.body.owner,
        e.body.revision == pruned(v, now).entries[key_of(e)].body.revision,
    ensures
        register_view(v, e, now, check).0 == pruned(v, now),
        register_view(v, e, now, check).1 == if pruned(v, now).entries[key_of(e)] == e {
            Ok::<bool, ErrorView>(false)
        } else {
            Err::<bool, ErrorView>(ErrorView::RevisionConflict { topic: e.body.topic })
        },
{
}

/// Registering the same verified record twice: the second registration is
/// idempotent.
pub proof fn lemma_register_is_idempotent(
    v: DirectoryView,
    e: EntryView,
    now: u64,
    check: core::result::Result<bool, Seq<char>>,
)
    requires
        entry_verify_result(e, now, check) is Ok,
        register_view(v, e, now, check).1 is Ok,
    ensures
        register_view(register_view(v, e, now, check).0, e, now, check) == (
            register_view(v, e, now, check).0,
            Ok::<bool, ErrorView>(false),
        ),
{
    let first = register_view(v, e, now, check).0;
    let p = pruned(first, now);
    assert forall|k: TopicKey| #[trigger] first.entries.contains_key(k) implies is_live(
        first.entries[k],
        now,
    ) by {
        lemma_operations_keep_only_live_records(v, e, arbitrary(), now, check);
    }
    assert(!has_expired(first.entries, now));
    assert(live_map(first.entries, now) =~= first.entries);
    assert(p == first);
    assert(first.entries.contains_key(key_of(e)));
    let c = pruned(v, now).entries;
    if c.contains_key(key_of(e)) && c[key_of(e)] == e && c[key_of(e)].body.revision
        == e.body.revision {
        assert(first.entries == c);
    }
}

/// A live record of one owner is never replaced by another owner's record.
pub proof fn lemma_other_owner_cannot_replace(
    v: DirectoryView,
    e: EntryView,
    now: u64,
    check: core::result::Result<bool, Seq<char>>,
)
    requires
        pruned(v, now).entries.contains_key(key_of(e)),
        pruned(v, now).entries[key_of(e)].body.owner != e.body.owner,
    ensures
        register_view(v, e, now, check).1 is Err,
        register_view(v, e, now, check).0.entries.contains_key(key_of(e)) ==> register_view(
            v,
            e,
            now,
            check,
        ).0.entries[key_of(e)] == pruned(v, now).entries[key_of(e)],
{
}

/// A rejected batch changes nothing beyond dropping expired records.
pub proof fn lemma_rejected_batch_does_not_mutate(
    v: DirectoryView,
    es: Seq<EntryView>,
    now: u64,
    checks: Seq<core::result::Result<bool, Seq<char>>>,
)
    requires
        register_many_view(v, es, now, checks).1 is Err,
    ensures
        register_many_view(v, es, now, checks).0 == v || register_many_view(v, es, now, checks).0
            == pruned(v, now),
{
}

/// A withdrawal that succeeds removed exactly the record it was signed
/// for, owned by its signer, at an older revision; nothing else changes.
pub proof fn lemma_withdrawal_removes_only_its_target(
    v: DirectoryView,
    w: WithdrawalView,
    now: u64,
    check: core::result::Result<bool, Seq<char>>,
)
    requires
        withdraw_view(v, w, now, check).1 == Ok::<bool, ErrorView>(true),
    ensures
        ({
            let p = pruned(v, now);
            let k = (w.body.topic, w.body.exchange);
            &&& p.entries.contains_key(k)
            &&& p.entries[k].body.owner == w.body.owner
            &&& withdrawal_targets(w, p.entries[k])
            &&& p.entries[k].body.revision < w.body.revision
            &&& withdraw_view(v, w, now, check).0.entries == p.entries.remove(k)
        }),
{
}

/// Whenever an operation changes the record set, the generation changes
/// too, so a paging client always notices.
pub proof fn lemma_changes_advance_generation(
    v: DirectoryView,
    e: EntryView,
    w: WithdrawalView,
    now: u64,
    check: core::result::Result<bool, Seq<char>>,
)
    ensures
        pruned(v, now).entries != v.entries ==> pruned(v, now).generation != v.generation,
        register_view(v, e, now, check).0.entries != pruned(v, now).entries && entry_verify_result(
            e,
            now,
            check,
        ) is Ok ==> register_view(v, e, now, check).0.generation != pruned(v, now).generation,
        withdraw_view(v, w, now, check).0.entries != pruned(v, now).entries
            && withdrawal_verify_result(w, check) is Ok ==> withdraw_view(
            v,
            w,
            now,
            check,
        ).0.generation != pruned(v, now).generation,
{
    if pruned(v, now).entries != v.entries {
        if !has_expired(v.entries, now) {
            assert(live_map(v.entries, now) =~= v.entries);
        }
    }
}

} // verus!
