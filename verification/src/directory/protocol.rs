//! Bounded directory resolver requests and responses.
use vstd::prelude::*;

use super::entry::{
    EntryView, ExchangeKind, TopicEntry, TopicWithdrawal, WithdrawalView, unit_result_view,
};
use super::store::{entry_views, opt_entry_view};
use crate::error::{Error, ErrorView, Result};

verus! {

/// Reserved peerbus topic for directory control traffic.
pub const RESOLUTION_TOPIC: &'static str = "__agentio_resolve";

/// Wire-type identifier for encoded directory control messages.
pub const RESOLUTION_TYPE_HASH: u64 = 0xA6E7_1010_5E50_7B00;

/// Maximum records in one directory request or response page.
pub const MAX_DIRECTORY_BATCH: usize = 256;

/// Maximum serialized bytes in one directory control message.
pub const MAX_CONTROL_MESSAGE_BYTES: usize = 262144;

/// Bounded request sent to the directory resolver service.
#[derive(Debug, Clone, PartialEq, Eq)]
pub enum ResolveRequest {
    /// Resolve one typed topic.
    Query {
        /// Normalized topic.
        topic: String,
        /// Requested exchange family.
        exchange: ExchangeKind,
        /// Requested request or payload wire hash.
        request_type_hash: u64,
        /// Requested response wire hash.
        response_type_hash: Option<u64>,
    },
    /// Read one stable page from a directory generation.
    List {
        /// Generation returned by the first page, or none to begin.
        generation: Option<u64>,
        /// Zero-based page offset.
        offset: usize,
        /// Maximum requested records.
        limit: usize,
    },
    /// Install signed topic entries.
    Announce {
        /// Signed entries to install.
        entries: Vec<TopicEntry>,
    },
    /// Remove exact signed topic entries.
    Withdraw {
        /// Signed withdrawals to apply.
        entries: Vec<TopicWithdrawal>,
    },
}

/// Response returned by the directory resolver service.
#[derive(Debug, Clone, PartialEq, Eq)]
pub enum ResolveResponse {
    /// Result of a typed topic query.
    QueryResult {
        /// Whether a matching record exists.
        found: bool,
        /// Verified candidate record when found.
        entry: Option<TopicEntry>,
    },
    /// One stable directory page.
    ListResult {
        /// Directory generation used for this page.
        generation: u64,
        /// Signed records in this page.
        entries: Vec<TopicEntry>,
        /// Offset for the next page, if any.
        next_offset: Option<usize>,
    },
    /// Successful announcement result.
    Announced {
        /// Records inserted or updated.
        count: usize,
    },
    /// Successful withdrawal result.
    Withdrawn {
        /// Records removed.
        count: usize,
    },
    /// Bounded control request rejection.
    Rejected {
        /// Human-readable rejection summary.
        message: String,
    },
}

/// The views of a sequence of withdrawals.
pub open spec fn withdrawal_views(s: Seq<TopicWithdrawal>) -> Seq<WithdrawalView> {
    s.map_values(|w: TopicWithdrawal| w@)
}

/// The mathematical content of a [`ResolveRequest`].
pub enum RequestView {
    Query {
        topic: Seq<char>,
        exchange: ExchangeKind,
        request_type_hash: u64,
        response_type_hash: Option<u64>,
    },
    List { generation: Option<u64>, offset: usize, limit: usize },
    Announce { entries: Seq<EntryView> },
    Withdraw { entries: Seq<WithdrawalView> },
}

impl View for ResolveRequest {
    type V = RequestView;

    open spec fn view(&self) -> RequestView {
        match self {
            ResolveRequest::Query { topic, exchange, request_type_hash, response_type_hash } =>
                RequestView::Query {
                topic: topic@,
                exchange: *exchange,
                request_type_hash: *request_type_hash,
                response_type_hash: *response_type_hash,
            },
            ResolveRequest::List { generation, offset, limit } => RequestView::List {
                generation: *generation,
                offset: *offset,
                limit: *limit,
            },
            ResolveRequest::Announce { entries } => RequestView::Announce {
                entries: entry_views(entries@),
            },
            ResolveRequest::Withdraw { entries } => RequestView::Withdraw {
                entries: withdrawal_views(entries@),
            },
        }
    }
}

/// The mathematical content of a [`ResolveResponse`].
pub enum ResponseView {
    QueryResult { found: bool, entry: Option<EntryView> },
    ListResult { generation: u64, entries: Seq<EntryView>, next_offset: Option<usize> },
    Announced { count: usize },
    Withdrawn { count: usize },
    Rejected { message: Seq<char> },
}

impl View for ResolveResponse {
    type V = ResponseView;

    open spec fn view(&self) -> ResponseView {
        match self {
            ResolveResponse::QueryResult { found, entry } => ResponseView::QueryResult {
                found: *found,
                entry: opt_entry_view(*entry),
            },
            ResolveResponse::ListResult { generation, entries, next_offset } =>
                ResponseView::ListResult {
                generation: *generation,
                entries: entry_views(entries@),
                next_offset: *next_offset,
            },
            ResolveResponse::Announced { count } => ResponseView::Announced { count: *count },
            ResolveResponse::Withdrawn { count } => ResponseView::Withdrawn { count: *count },
            ResolveResponse::Rejected { message } => ResponseView::Rejected { message: message@ },
        }
    }
}

/// The record count a request carries (for a listing, the count it asks for).
pub open spec fn request_count(r: ResolveRequest) -> nat {
    match r {
        ResolveRequest::Announce { entries } => entries@.len(),
        ResolveRequest::Withdraw { entries } => entries@.len(),
        ResolveRequest::List { limit, .. } => limit as nat,
        ResolveRequest::Query { .. } => 0,
    }
}

/// The record count a response carries.
pub open spec fn response_count(r: ResolveResponse) -> nat {
    match r {
        ResolveResponse::ListResult { entries, .. } => entries@.len(),
        _ => 0,
    }
}

/// The verdict on a record count: within the batch bound, or too large.
pub open spec fn batch_check(count: nat) -> core::result::Result<(), ErrorView> {
    if count > MAX_DIRECTORY_BATCH {
        Err(ErrorView::BatchTooLarge { actual: count as usize, maximum: MAX_DIRECTORY_BATCH })
    } else {
        Ok(())
    }
}

/// The verdict on an encoded message length.
pub open spec fn message_size_check(len: nat) -> core::result::Result<(), ErrorView> {
    if len > MAX_CONTROL_MESSAGE_BYTES {
        Err(ErrorView::BatchTooLarge { actual: len as usize, maximum: MAX_CONTROL_MESSAGE_BYTES })
    } else {
        Ok(())
    }
}

fn check_batch(count: usize) -> (r: Result<()>)
    ensures
        unit_result_view(r) == batch_check(count as nat),
{
    if count > MAX_DIRECTORY_BATCH {
        return Err(Error::BatchTooLarge { actual: count, maximum: MAX_DIRECTORY_BATCH });
    }
    Ok(())
}

/// Refuse an encoded control message longer than [`MAX_CONTROL_MESSAGE_BYTES`].
pub fn check_message_size(len: usize) -> (r: Result<()>)
    ensures
        unit_result_view(r) == message_size_check(len as nat),
{
    if len > MAX_CONTROL_MESSAGE_BYTES {
        return Err(Error::BatchTooLarge { actual: len, maximum: MAX_CONTROL_MESSAGE_BYTES });
    }
    Ok(())
}

impl ResolveRequest {
    /// Validate request record-count limits.
    pub fn validate(&self) -> (r: Result<()>)
        ensures
            unit_result_view(r) == batch_check(request_count(*self)),
    {
        let count = match self {
            ResolveRequest::Announce { entries } => entries.len(),
            ResolveRequest::Withdraw { entries } => entries.len(),
            ResolveRequest::List { limit, .. } => *limit,
            ResolveRequest::Query { .. } => 0,
        };
        check_batch(count)
    }
}

impl ResolveResponse {
    /// Validate response record-count limits.
    pub fn validate(&self) -> (r: Result<()>)
        ensures
            unit_result_view(r) == batch_check(response_count(*self)),
    {
        let count = match self {
            ResolveResponse::ListResult { entries, .. } => entries.len(),
            _ => 0,
        };
        check_batch(count)
    }
}

} // verus!
