//! The directory resolver: the answer to one control request, and what
//! answering it does to the local directory and health counters.
use vstd::prelude::*;

use crate::directory::entry::{
    EntryView, ExchangeKind, WithdrawalView, check_view, exchange_check, unix_time_ms,
};
use crate::directory::health::{ControlPlaneHealth, DirectoryHealth, bump};
use crate::directory::protocol::{
    MAX_DIRECTORY_BATCH, RequestView, ResolveRequest, ResolveResponse, ResponseView,
    withdrawal_views,
};
use crate::directory::store::{
    Directory, DirectoryView, check_views, copy_check, count_result_view, entry_views, map_get,
    has_expired, lemma_pruned_idempotent, next_page_offset, page_of, pruned, register_many_view,
    withdraw_view,
};
use crate::error::{Error, ErrorView, Result, error_message};
use crate::naming::table::{NameTable, synced_with};

verus! {

/// Prune the directory at `now` and refresh the record-carried names from
/// its live records.
pub fn sync_names_at(directory: &mut Directory, names: &mut NameTable, now: u64)
    requires
        old(directory).wf(),
        old(names).wf(),
    ensures
        final(directory).wf(),
        final(names).wf(),
        final(directory)@ == pruned(old(directory)@, now),
        !has_expired(old(directory)@.entries, now) ==> final(directory).listing() == old(
            directory,
        ).listing(),
        synced_with(old(names)@, final(names)@, final(directory).listing()),
{
    let live = directory.all_entries_at(now);
    names.sync_from_entries(&live);
}

/// The counters after one refused record or request.
pub open spec fn rejected(h: DirectoryHealth) -> DirectoryHealth {
    DirectoryHealth { rejected_records: bump(h.rejected_records), ..h }
}

/// The counters after one ownership or revision conflict.
pub open spec fn conflicted(h: DirectoryHealth) -> DirectoryHealth {
    DirectoryHealth { conflicts: bump(h.conflicts), ..h }
}

/// Whether a refusal is an ownership or revision conflict.
pub open spec fn is_conflict(e: ErrorView) -> bool {
    e is OwnershipConflict || e is RevisionConflict
}

/// The counters after a refused announcement or registration.
pub open spec fn after_refusal(h: DirectoryHealth, e: ErrorView) -> DirectoryHealth {
    if is_conflict(e) {
        conflicted(h)
    } else {
        rejected(h)
    }
}

/// Count a refusal: a conflict as a conflict, anything else as a refused
/// record.
pub fn note_refusal(health: &mut ControlPlaneHealth, error: &Error)
    ensures
        final(health)@ == after_refusal(old(health)@, error@),
{
    match error {
        Error::OwnershipConflict { .. } | Error::RevisionConflict { .. } => health.conflict(),
        _ => health.reject_record(),
    }
}

/// The answer to a typed query against the live records `p`: the record
/// under the topic and exchange, when its wire types fit.
pub open spec fn query_answer(
    p: DirectoryView,
    topic: Seq<char>,
    exchange: ExchangeKind,
    request_type_hash: u64,
    response_type_hash: Option<u64>,
) -> ResponseView {
    match map_get(p.entries, (topic, exchange)) {
        Some(e) => if exchange_check(e, exchange, request_type_hash, response_type_hash) is Ok {
            ResponseView::QueryResult { found: true, entry: Some(e) }
        } else {
            ResponseView::QueryResult { found: false, entry: None }
        },
        None => ResponseView::QueryResult { found: false, entry: None },
    }
}

/// Withdrawals `ws[i..end]` applied in order at `now`, stopping at the first
/// refusal: the directory after, and the number removed or the refusal.
pub open spec fn withdraw_all_from(
    v: DirectoryView,
    ws: Seq<WithdrawalView>,
    checks: Seq<core::result::Result<bool, Seq<char>>>,
    now: u64,
    i: int,
    end: int,
) -> (DirectoryView, core::result::Result<nat, ErrorView>)
    decreases end - i,
{
    if i < 0 || i >= end {
        (v, Ok(0))
    } else {
        let step = withdraw_view(v, ws[i], now, checks[i]);
        match step.1 {
            Err(e) => (step.0, Err(e)),
            Ok(removed) => {
                let rest = withdraw_all_from(step.0, ws, checks, now, i + 1, end);
                (
                    rest.0,
                    match rest.1 {
                        Ok(c) => Ok(c + if removed {
                            1nat
                        } else {
                            0nat
                        }),
                        Err(e) => Err(e),
                    },
                )
            },
        }
    }
}

/// How many withdrawals of a request of `n` are applied.
pub open spec fn withdraw_limit(n: nat) -> int {
    if n < MAX_DIRECTORY_BATCH {
        n as int
    } else {
        MAX_DIRECTORY_BATCH as int
    }
}

/// Whether the signature checks line up with the records a request carries.
pub open spec fn checks_fit(decoded: Result<ResolveRequest>, n: nat) -> bool {
    match decoded {
        Ok(ResolveRequest::Announce { entries }) => n == entries@.len(),
        Ok(ResolveRequest::Withdraw { entries }) => n == entries@.len(),
        _ => true,
    }
}

/// What serving a decoded request does: the directory before the final
/// pruning, the answer, and the counters. `listing_after` and
/// `generation_after` describe the directory a listing page is cut from.
pub open spec fn serve_view(
    v: DirectoryView,
    h: DirectoryHealth,
    decoded: core::result::Result<RequestView, ErrorView>,
    checks: Seq<core::result::Result<bool, Seq<char>>>,
    now: u64,
    listing_after: Seq<EntryView>,
) -> (DirectoryView, ResponseView, DirectoryHealth) {
    match decoded {
        Err(e) => (v, ResponseView::Rejected { message: error_message(e) }, rejected(h)),
        Ok(RequestView::Query { topic, exchange, request_type_hash, response_type_hash }) => {
            let p = pruned(v, now);
            (p, query_answer(p, topic, exchange, request_type_hash, response_type_hash), h)
        },
        Ok(RequestView::List { generation, offset, limit }) => {
            let p = pruned(v, now);
            if generation is Some && generation->Some_0 != p.generation {
                (
                    p,
                    ResponseView::Rejected {
                        message: error_message(
                            ErrorView::SnapshotChanged {
                                expected: generation->Some_0,
                                actual: p.generation,
                            },
                        ),
                    },
                    h,
                )
            } else {
                (
                    p,
                    ResponseView::ListResult {
                        generation: p.generation,
                        entries: page_of(listing_after, offset, limit),
                        next_offset: next_page_offset(listing_after, offset, limit),
                    },
                    h,
                )
            }
        },
        Ok(RequestView::Announce { entries }) => {
            let (d, r) = register_many_view(v, entries, now, checks);
            match r {
                Ok(count) => (d, ResponseView::Announced { count: count as usize }, h),
                Err(e) => (
                    d,
                    ResponseView::Rejected { message: error_message(e) },
                    after_refusal(h, e),
                ),
            }
        },
        Ok(RequestView::Withdraw { entries }) => {
            let (d, r) = withdraw_all_from(
                v,
                entries,
                checks,
                now,
                0,
                withdraw_limit(entries.len()),
            );
            match r {
                Ok(count) => (d, ResponseView::Withdrawn { count: count as usize }, h),
                Err(e) => (d, ResponseView::Rejected { message: error_message(e) }, rejected(h)),
            }
        },
    }
}

/// A decoded request by its view.
pub open spec fn decoded_view(decoded: Result<ResolveRequest>) -> core::result::Result<
    RequestView,
    ErrorView,
> {
    match decoded {
        Ok(r) => Ok(r@),
        Err(e) => Err(e@),
    }
}

/// Serve one decoded resolver request at `now`, the signature checks of the
/// records or withdrawals it carries given in order; then refresh the
/// record-carried names.
pub fn serve_request_at(
    directory: &mut Directory,
    names: &mut NameTable,
    health: &mut ControlPlaneHealth,
    decoded: Result<ResolveRequest>,
    signature_checks: Vec<core::result::Result<bool, String>>,
    now: u64,
) -> (r: ResolveResponse)
    requires
        old(directory).wf(),
        old(names).wf(),
        checks_fit(decoded, signature_checks@.len()),
    ensures
        final(directory).wf(),
        final(names).wf(),
        synced_with(old(names)@, final(names)@, final(directory).listing()),
        ({
            let s = serve_view(
                old(directory)@,
                old(health)@,
                decoded_view(decoded),
                check_views(signature_checks@),
                now,
                final(directory).listing(),
            );
            &&& final(directory)@ == pruned(s.0, now)
            &&& r@ == s.1
            &&& final(health)@ == s.2
        }),
{
    let ghost v0 = directory@;
    let ghost h0 = health@;
    let ghost dv = decoded_view(decoded);
    let response = match decoded {
        Err(error) => {
            health.reject_record();
            ResolveResponse::Rejected { message: error.message() }
        },
        Ok(ResolveRequest::Query { topic, exchange, request_type_hash, response_type_hash }) => {
            let found = directory.lookup_exchange_at(topic.as_str(), exchange, now);
            let entry = match found {
                Some(e) => {
                    if e.validate_exchange(exchange, request_type_hash, response_type_hash).is_ok() {
                        Some(e)
                    } else {
                        None
                    }
                },
                None => None,
            };
            ResolveResponse::QueryResult { found: entry.is_some(), entry }
        },
        Ok(ResolveRequest::List { generation, offset, limit }) => {
            match directory.snapshot_page_at(generation, offset, limit, now) {
                Ok((g, entries, next_offset)) => ResolveResponse::ListResult {
                    generation: g,
                    entries,
                    next_offset,
                },
                Err(error) => ResolveResponse::Rejected { message: error.message() },
            }
        },
        Ok(ResolveRequest::Announce { entries }) => {
            match directory.register_many_at(entries, now, signature_checks) {
                Ok(count) => ResolveResponse::Announced { count },
                Err(error) => {
                    note_refusal(health, &error);
                    ResolveResponse::Rejected { message: error.message() }
                },
            }
        },
        Ok(ResolveRequest::Withdraw { entries }) => {
            let ghost ws = withdrawal_views(entries@);
            let ghost cs = check_views(signature_checks@);
            let end = if entries.len() < MAX_DIRECTORY_BATCH {
                entries.len()
            } else {
                MAX_DIRECTORY_BATCH
            };
            let mut count: usize = 0;
            let mut failure: Option<Error> = None;
            let mut i: usize = 0;
            while i < end
                invariant_except_break
                    count <= i,
                    failure is None,
                    ({
                        let total = withdraw_all_from(v0, ws, cs, now, 0, end as int);
                        let rest = withdraw_all_from(directory@, ws, cs, now, i as int, end as int);
                        &&& total.0 == rest.0
                        &&& match rest.1 {
                            Ok(c) => total.1 == Ok::<nat, ErrorView>(c + count as nat),
                            Err(e) => total.1 == Err::<nat, ErrorView>(e),
                        }
                    }),
                invariant
                    end == withdraw_limit(entries@.len()),
                    end <= entries@.len(),
                    entries@.len() == signature_checks@.len(),
                    i <= end,
                    ws == withdrawal_views(entries@),
                    cs == check_views(signature_checks@),
                    directory.wf(),
                ensures
                    failure is None ==> i == end,
                    ({
                        let total = withdraw_all_from(v0, ws, cs, now, 0, end as int);
                        match failure {
                            None => total.0 == directory@ && total.1 == Ok::<nat, ErrorView>(
                                count as nat,
                            ),
                            Some(e) => total.0 == directory@ && total.1 == Err::<nat, ErrorView>(
                                e@,
                            ),
                        }
                    }),
                decreases end - i,
            {
                assert(ws[i as int] == entries@[i as int]@);
                let check = copy_check(&signature_checks[i]);
                assert(cs[i as int] == check_view(signature_checks@[i as int]));
                match directory.withdraw_at(&entries[i], now, check) {
                    Ok(removed) => {
                        if removed {
                            count = count + 1;
                        }
                    },
                    Err(error) => {
                        failure = Some(error);
                        break ;
                    },
                }
                i = i + 1;
            }
            match failure {
                Some(error) => {
                    health.reject_record();
                    ResolveResponse::Rejected { message: error.message() }
                },
                None => ResolveResponse::Withdrawn { count },
            }
        },
    };
    let ghost d1 = directory@;
    let ghost l1 = directory.listing();
    sync_names_at(directory, names, now);
    proof {
        let s = serve_view(
            v0,
            h0,
            dv,
            check_views(signature_checks@),
            now,
            directory.listing(),
        );
        if dv matches Ok(RequestView::List { .. }) {
            lemma_pruned_idempotent(v0, now);
            assert(directory.listing() == l1);
        }
        assert(d1 == s.0);
        assert(response@ == s.1);
        assert(health@ == s.2);
    }
    response
}

/// Serve one decoded resolver request now; see [`serve_request_at`].
pub fn serve_request(
    directory: &mut Directory,
    names: &mut NameTable,
    health: &mut ControlPlaneHealth,
    decoded: Result<ResolveRequest>,
    signature_checks: Vec<core::result::Result<bool, String>>,
) -> (r: ResolveResponse)
    requires
        old(directory).wf(),
        old(names).wf(),
        checks_fit(decoded, signature_checks@.len()),
    ensures
        final(directory).wf(),
        final(names).wf(),
        synced_with(old(names)@, final(names)@, final(directory).listing()),
        exists|now: u64|
            {
                let s = #[trigger] serve_view(
                    old(directory)@,
                    old(health)@,
                    decoded_view(decoded),
                    check_views(signature_checks@),
                    now,
                    final(directory).listing(),
                );
                &&& final(directory)@ == pruned(s.0, now)
                &&& r@ == s.1
                &&& final(health)@ == s.2
            },
{
    let now = unix_time_ms();
    serve_request_at(directory, names, health, decoded, signature_checks, now)
}

} // verus!
