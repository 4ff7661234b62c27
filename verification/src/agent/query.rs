//! Resolving a topic: the local directory first, then the directory targets,
//! whose answers are checked and learned here.
use vstd::prelude::*;

use super::mode::{DirectoryMode, resolution_targets, targets_of};
use super::resolver::{rejected, sync_names_at};
use crate::directory::entry::{
    EndpointBytes, EntryView, ExchangeKind, TopicEntry, check_view, exchange_check,
};
use crate::directory::health::{ControlPlaneHealth, DirectoryHealth};
use crate::directory::protocol::{RequestView, ResolveRequest, ResolveResponse};
use crate::directory::store::{
    Directory, DirectoryView, first_for_topic, map_get, pruned, register_view,
};
use crate::error::{Error, ErrorView, Result};
use crate::naming::table::{NameTable, synced_with};
use crate::naming::topic::{
    normalize_result, normalize_topic, qualified_text, qualify_participant_topic,
    string_result_view,
};
use crate::text::{chars_of, first_non_ws_from, lemma_first_non_ws_bounds, str_eq, trim_bounds};

verus! {

/// Where a typed lookup goes next.
#[derive(Debug)]
pub enum ResolutionPlan {
    /// The local directory holds a fitting record.
    Resolved(TopicEntry),
    /// Ask these directory targets with this query.
    Ask {
        /// The machines to ask.
        targets: Vec<EndpointBytes>,
        /// The typed query.
        request: ResolveRequest,
    },
}

/// The message of a lookup with nobody to ask.
pub open spec fn no_target_message(topic: Seq<char>) -> Seq<char> {
    "topic '"@ + topic + "' has no configured resolution target"@
}

/// The typed query for a topic.
pub open spec fn query_request(
    topic: Seq<char>,
    exchange: ExchangeKind,
    request_type_hash: u64,
    response_type_hash: Option<u64>,
) -> RequestView {
    RequestView::Query { topic, exchange, request_type_hash, response_type_hash }
}

/// Decide how to resolve normalized `topic` for `exchange` with the given
/// wire types at `now`: a fitting live local record resolves it, a local
/// record that does not fit is an error, and otherwise the directory
/// targets are asked (or the lookup fails when there are none).
pub fn plan_resolution(
    directory: &mut Directory,
    mode: &DirectoryMode,
    seeds: &Vec<EndpointBytes>,
    topic: &str,
    exchange: ExchangeKind,
    request_type_hash: u64,
    response_type_hash: Option<u64>,
    now: u64,
) -> (r: Result<ResolutionPlan>)
    requires
        old(directory).wf(),
    ensures
        final(directory).wf(),
        final(directory)@ == pruned(old(directory)@, now),
        match map_get(final(directory)@.entries, (topic@, exchange)) {
            Some(e) => match exchange_check(e, exchange, request_type_hash, response_type_hash) {
                Ok(()) => r matches Ok(ResolutionPlan::Resolved(found)) && found@ == e,
                Err(x) => r matches Err(err) && err@ == x,
            },
            None => if targets_of(*mode, seeds@).len() == 0 {
                r matches Err(err) && err@ == ErrorView::ResolutionFailed(no_target_message(topic@))
            } else {
                r matches Ok(ResolutionPlan::Ask { targets, request }) && targets@ == targets_of(
                    *mode,
                    seeds@,
                ) && request@ == query_request(
                    topic@,
                    exchange,
                    request_type_hash,
                    response_type_hash,
                )
            },
        },
{
    match directory.lookup_exchange_at(topic, exchange, now) {
        Some(entry) => {
            entry.validate_exchange(exchange, request_type_hash, response_type_hash)?;
            Ok(ResolutionPlan::Resolved(entry))
        },
        None => {
            let targets = resolution_targets(mode, seeds);
            if targets.len() == 0 {
                return Err(
                    Error::ResolutionFailed(
                        String::from_str("topic '").concat(topic).concat(
                            "' has no configured resolution target",
                        ),
                    ),
                );
            }
            let request = ResolveRequest::Query {
                topic: String::from_str(topic),
                exchange,
                request_type_hash,
                response_type_hash,
            };
            Ok(ResolutionPlan::Ask { targets, request })
        },
    }
}

/// What to do with a target after its answer to a query.
#[derive(Debug)]
pub enum QueryStep {
    /// The target answered with a usable record, now learned.
    Resolved(TopicEntry),
    /// Ask the target again.
    Retry,
    /// Stop asking the target.
    Drop,
}

/// A query in progress.
#[derive(Debug)]
pub struct QueryRun {
    /// The normalized topic asked for.
    pub topic: String,
    /// The exchange family asked for.
    pub exchange: ExchangeKind,
    /// The request or payload wire hash asked for.
    pub request_type_hash: u64,
    /// The response wire hash asked for.
    pub response_type_hash: Option<u64>,
    /// Why the last unusable candidate record was refused.
    pub rejected: Option<Error>,
}

/// An optional error by its view.
pub open spec fn opt_error_view(e: Option<Error>) -> Option<ErrorView> {
    match e {
        Some(x) => Some(x@),
        None => None,
    }
}

/// The message of a query no target could answer.
pub open spec fn unresolved_message(topic: Seq<char>) -> Seq<char> {
    "topic '"@ + topic + "' could not be resolved within the agent composition"@
}

/// The message of a query command that carried another request.
pub open spec fn not_a_query_message() -> Seq<char> {
    "query command carried a non-query request"@
}

impl QueryRun {
    /// Begin a query for `request`, which must be a typed query.
    pub fn start(request: &ResolveRequest) -> (r: Result<QueryRun>)
        ensures
            match request@ {
                RequestView::Query { topic, exchange, request_type_hash, response_type_hash } => {
                    r matches Ok(q) && q.topic@ == topic && q.exchange == exchange
                        && q.request_type_hash == request_type_hash && q.response_type_hash
                        == response_type_hash && q.rejected is None
                },
                _ => r matches Err(e) && e@ == ErrorView::ControlPlane(not_a_query_message()),
            },
    {
        match request {
            ResolveRequest::Query { topic, exchange, request_type_hash, response_type_hash } => Ok(
                QueryRun {
                    topic: topic.clone(),
                    exchange: *exchange,
                    request_type_hash: *request_type_hash,
                    response_type_hash: *response_type_hash,
                    rejected: None,
                },
            ),
            _ => Err(
                Error::ControlPlane(String::from_str("query command carried a non-query request")),
            ),
        }
    }

    /// A target answered `reply` (an error when the call failed or its reply
    /// channel closed) at `now`; `signature_check` is the outcome of checking
    /// the signature of the record it carries, if any. A record for another
    /// topic, of another exchange or wire type, or that the directory
    /// refuses, ends that target's part; a usable one is learned and
    /// resolves the query; any other answer asks the target again.
    pub fn on_reply(
        &mut self,
        reply: Result<ResolveResponse>,
        directory: &mut Directory,
        names: &mut NameTable,
        health: &mut ControlPlaneHealth,
        signature_check: core::result::Result<bool, String>,
        now: u64,
    ) -> (step: QueryStep)
        requires
            old(directory).wf(),
            old(names).wf(),
        ensures
            final(directory).wf(),
            final(names).wf(),
            final(self).topic == old(self).topic,
            final(self).exchange == old(self).exchange,
            final(self).request_type_hash == old(self).request_type_hash,
            final(self).response_type_hash == old(self).response_type_hash,
            match reply {
                Ok(ResolveResponse::QueryResult { found: true, entry: Some(e) }) => {
                    if e.body.topic@ != old(self).topic@ {
                        &&& final(directory)@ == old(directory)@
                        &&& final(names)@ == old(names)@
                        &&& final(health)@ == rejected(old(health)@)
                        &&& opt_error_view(final(self).rejected) == opt_error_view(
                            old(self).rejected,
                        )
                        &&& step is Drop
                    } else {
                        match exchange_check(
                            e@,
                            old(self).exchange,
                            old(self).request_type_hash,
                            old(self).response_type_hash,
                        ) {
                            Err(x) => {
                                &&& final(directory)@ == old(directory)@
                                &&& final(names)@ == old(names)@
                                &&& final(health)@ == rejected(old(health)@)
                                &&& opt_error_view(final(self).rejected) == Some(x)
                                &&& step is Drop
                            },
                            Ok(()) => {
                                let (d, outcome) = register_view(
                                    old(directory)@,
                                    e@,
                                    now,
                                    check_view(signature_check),
                                );
                                match outcome {
                                    Err(x) => {
                                        &&& final(directory)@ == d
                                        &&& final(names)@ == old(names)@
                                        &&& final(health)@ == rejected(old(health)@)
                                        &&& opt_error_view(final(self).rejected) == Some(x)
                                        &&& step is Drop
                                    },
                                    Ok(_) => {
                                        &&& final(directory)@ == pruned(d, now)
                                        &&& synced_with(
                                            old(names)@,
                                            final(names)@,
                                            final(directory).listing(),
                                        )
                                        &&& final(health)@ == old(health)@
                                        &&& opt_error_view(final(self).rejected) == opt_error_view(
                                            old(self).rejected,
                                        )
                                        &&& step matches QueryStep::Resolved(got) && got@ == e@
                                    },
                                }
                            },
                        }
                    }
                },
                _ => {
                    &&& final(directory)@ == old(directory)@
                    &&& final(names)@ == old(names)@
                    &&& final(health)@ == old(health)@
                    &&& opt_error_view(final(self).rejected) == opt_error_view(old(self).rejected)
                    &&& step is Retry
                },
            },
    {
        let mut step = QueryStep::Retry;
        match reply {
            Ok(ResolveResponse::QueryResult { found, entry }) => {
                if found {
                    match entry {
                        Some(e) => {
                            if !str_eq(e.topic(), self.topic.as_str()) {
                                health.reject_record();
                                step = QueryStep::Drop;
                            } else {
                                match e.validate_exchange(
                                    self.exchange,
                                    self.request_type_hash,
                                    self.response_type_hash,
                                ) {
                                    Err(error) => {
                                        health.reject_record();
                                        self.rejected = Some(error);
                                        step = QueryStep::Drop;
                                    },
                                    Ok(()) => {
                                        let candidate = crate::directory::store::copy_entry(&e);
                                        match directory.register_at(candidate, now, signature_check) {
                                            Err(error) => {
                                                health.reject_record();
                                                self.rejected = Some(error);
                                                step = QueryStep::Drop;
                                            },
                                            Ok(_) => {
                                                sync_names_at(directory, names, now);
                                                step = QueryStep::Resolved(e);
                                            },
                                        }
                                    },
                                }
                            }
                        },
                        None => {},
                    }
                }
            },
            _ => {},
        }
        step
    }

    /// The error a query ends with when no target resolved it: the refusal
    /// of the last unusable candidate, or that nobody could resolve it.
    pub fn failure(self) -> (e: Error)
        ensures
            e@ == match opt_error_view(self.rejected) {
                Some(x) => x,
                None => ErrorView::ResolutionFailed(unresolved_message(self.topic@)),
            },
    {
        match self.rejected {
            Some(error) => error,
            None => Error::ResolutionFailed(
                String::from_str("topic '").concat(self.topic.as_str()).concat(
                    "' could not be resolved within the agent composition",
                ),
            ),
        }
    }
}

/// The message of a topic the local directory does not hold.
pub open spec fn not_local_message(topic: Seq<char>) -> Seq<char> {
    "topic '"@ + topic
        + "' is not present in the local directory; use a typed client for referral resolution"@
}

/// Resolve `topic` against the local directory alone at `now`: the live
/// record of the normalized topic with the least exchange rank.
pub fn resolve_topic_at(directory: &mut Directory, topic: &str, now: u64) -> (r: Result<TopicEntry>)
    requires
        old(directory).wf(),
    ensures
        final(directory).wf(),
        match normalize_result(topic@) {
            Err(x) => r matches Err(e) && e@ == x && final(directory)@ == old(directory)@,
            Ok(n) => {
                &&& final(directory)@ == pruned(old(directory)@, now)
                &&& match r {
                    Ok(e) => first_for_topic(final(directory)@.entries, n, e@),
                    Err(e) => e@ == ErrorView::ResolutionFailed(not_local_message(n)) && !exists|
                        x: ExchangeKind,
                    | #[trigger] final(directory)@.entries.contains_key((n, x)),
                }
            },
        },
{
    let normalized = normalize_topic(topic)?;
    match directory.lookup_at(normalized.as_str(), now) {
        Some(entry) => Ok(entry),
        None => Err(
            Error::ResolutionFailed(
                String::from_str("topic '").concat(normalized.as_str()).concat(
                    "' is not present in the local directory; use a typed client for referral resolution",
                ),
            ),
        ),
    }
}

/// Whether `topic`, past its leading whitespace, starts with `/`.
pub open spec fn is_absolute(topic: Seq<char>) -> bool {
    let i = first_non_ws_from(topic, 0);
    0 <= i < topic.len() && topic[i] == '/'
}

/// The message of a relative topic with no participant to qualify it.
pub open spec fn needs_participant_message(topic: Seq<char>) -> Seq<char> {
    "relative topic '"@ + topic + "' needs a participant prefix; set AgentBuilder::participant"@
}

/// A topic under this agent's participant prefix: relative topics are
/// qualified with it, absolute topics pass through normalized, and a
/// relative topic without a participant is a configuration error.
pub fn own_topic(participant: Option<&str>, topic: &str) -> (r: Result<String>)
    ensures
        string_result_view(r) == match participant {
            Some(p) => normalize_result(qualified_text(p@, topic@)),
            None => if is_absolute(topic@) {
                normalize_result(topic@)
            } else {
                Err(ErrorView::Configuration(needs_participant_message(topic@)))
            },
        },
{
    match participant {
        Some(p) => qualify_participant_topic(p, topic),
        None => {
            let chars = chars_of(topic);
            let (lo, _hi) = trim_bounds(&chars);
            proof {
                lemma_first_non_ws_bounds(topic@, 0);
            }
            if lo < chars.len() && chars[lo] == '/' {
                normalize_topic(topic)
            } else {
                Err(
                    Error::Configuration(
                        String::from_str("relative topic '").concat(topic).concat(
                            "' needs a participant prefix; set AgentBuilder::participant",
                        ),
                    ),
                )
            }
        },
    }
}

} // verus!
