//! Owner-signed, leased topic records and withdrawals.
//!
//! Signing and signature checking are done by the application with the
//! owner's Ed25519 key: this module builds the exact bytes an owner signs
//! ([`TopicRecordBody::signing_bytes`], [`WithdrawalBody::signing_bytes`]) and
//! decides, given the outcome of the signature check, whether a record or a
//! withdrawal is acceptable.
use vstd::prelude::*;

use super::encoding::{
    enc_bytes, enc_opt_str, enc_opt_u64, enc_str, lemma_enc_bytes_prefix_unique,
    lemma_enc_opt_str_prefix_unique, lemma_enc_opt_u64_prefix_unique, lemma_enc_str_prefix_unique,
    lemma_fixed_prefix_unique, lemma_varint_prefix_unique, opt_string_view, push_byte_field,
    push_bytes, push_opt_str, push_opt_u64, push_str, push_varint, varint,
};
use crate::error::{Error, ErrorView, Result};
use crate::naming::topic::{
    is_canonical_path, lemma_fixed_point_is_canonical, normalize_result, normalize_topic,
};
use crate::text::trim;
use crate::text::{bytes_eq, str_eq};

verus! {

/// Current signed directory wire version.
pub const DIRECTORY_PROTOCOL_VERSION: u16 = 1;

/// Default lifetime of a hosted directory record, in milliseconds.
pub const DEFAULT_LEASE_DURATION_MS: u64 = 30000;

/// An Ed25519 endpoint public key, the identity of a topic owner.
pub type EndpointBytes = [u8; 32];

/// The peerbus exchange family hosted at a topic.
#[derive(Debug, Clone, Copy, PartialEq, Eq, Hash, Structural)]
pub enum ExchangeKind {
    /// Publish/subscribe stream.
    PubSub,
    /// Request/response call.
    ReqRes,
    /// Query/answer stream.
    QueAns,
    /// Upload/acknowledgement stream.
    PutAck,
    /// Bidirectional pipe.
    Pip,
}

/// The signed operation domain: announcements and withdrawals are never
/// interchangeable.
#[derive(Debug, Clone, Copy, PartialEq, Eq, Structural)]
pub enum DirectoryOperation {
    /// A current topic record.
    Announce,
    /// A request to remove a topic record.
    Withdraw,
}

/// Variant index of an exchange family on the wire.
pub open spec fn exchange_index(e: ExchangeKind) -> nat {
    match e {
        ExchangeKind::PubSub => 0,
        ExchangeKind::ReqRes => 1,
        ExchangeKind::QueAns => 2,
        ExchangeKind::PutAck => 3,
        ExchangeKind::Pip => 4,
    }
}

/// Variant index of an operation on the wire.
pub open spec fn operation_index(op: DirectoryOperation) -> nat {
    match op {
        DirectoryOperation::Announce => 0,
        DirectoryOperation::Withdraw => 1,
    }
}

/// Rank of an exchange family in the directory's deterministic order (and
/// its wire variant index).
pub fn exchange_rank(exchange: ExchangeKind) -> (r: u8)
    ensures
        r as nat == exchange_index(exchange),
{
    match exchange {
        ExchangeKind::PubSub => 0,
        ExchangeKind::ReqRes => 1,
        ExchangeKind::QueAns => 2,
        ExchangeKind::PutAck => 3,
        ExchangeKind::Pip => 4,
    }
}

fn operation_rank(op: DirectoryOperation) -> (r: u8)
    ensures
        r as nat == operation_index(op),
{
    match op {
        DirectoryOperation::Announce => 0,
        DirectoryOperation::Withdraw => 1,
    }
}

/// Input used to create and sign a current directory record.
#[derive(Debug, Clone, PartialEq, Eq)]
pub struct TopicRecordSpec {
    /// Normalized absolute topic.
    pub topic: String,
    /// Hosted exchange family.
    pub exchange: ExchangeKind,
    /// Request or payload wire-type hash.
    pub request_type_hash: u64,
    /// Response wire-type hash for bidirectional exchanges.
    pub response_type_hash: Option<u64>,
    /// Owner-scoped revision.
    pub revision: u64,
    /// Absolute Unix-millisecond lease deadline.
    pub lease_expires_at_ms: u64,
    /// Optional machine name carried by the record.
    pub machine_name: Option<String>,
}

fn copy_opt_str(o: Option<&str>) -> (r: Option<String>)
    ensures
        opt_string_view(r) == match o {
            None => None::<Seq<char>>,
            Some(s) => Some(s@),
        },
{
    match o {
        None => None,
        Some(s) => Some(String::from_str(s)),
    }
}

impl TopicRecordSpec {
    /// Create unsigned record input whose lease ends the default lease
    /// duration after Unix time `now_ms` (saturating).
    pub fn new_at(
        topic: &str,
        exchange: ExchangeKind,
        request_type_hash: u64,
        response_type_hash: Option<u64>,
        revision: u64,
        machine_name: Option<&str>,
        now_ms: u64,
    ) -> (r: Self)
        ensures
            r.topic@ == topic@,
            r.exchange == exchange,
            r.request_type_hash == request_type_hash,
            r.response_type_hash == response_type_hash,
            r.revision == revision,
            opt_string_view(r.machine_name) == match machine_name {
                None => None::<Seq<char>>,
                Some(s) => Some(s@),
            },
            r.lease_expires_at_ms == lease_deadline(now_ms, DEFAULT_LEASE_DURATION_MS),
    {
        TopicRecordSpec {
            topic: String::from_str(topic),
            exchange,
            request_type_hash,
            response_type_hash,
            revision,
            lease_expires_at_ms: lease_deadline_at(now_ms, DEFAULT_LEASE_DURATION_MS),
            machine_name: copy_opt_str(machine_name),
        }
    }

    /// Create unsigned record input using the default lease duration from
    /// now: [`TopicRecordSpec::new_at`] at whatever Unix time the clock reads.
    pub fn new(
        topic: &str,
        exchange: ExchangeKind,
        request_type_hash: u64,
        response_type_hash: Option<u64>,
        revision: u64,
        machine_name: Option<&str>,
    ) -> (r: Self)
        ensures
            r.topic@ == topic@,
            r.exchange == exchange,
            r.request_type_hash == request_type_hash,
            r.response_type_hash == response_type_hash,
            r.revision == revision,
            opt_string_view(r.machine_name) == match machine_name {
                None => None::<Seq<char>>,
                Some(s) => Some(s@),
            },
            r.lease_expires_at_ms >= DEFAULT_LEASE_DURATION_MS,
            exists|reading: Option<u128>|
                r.lease_expires_at_ms == lease_deadline(
                    #[trigger] millis_of(reading),
                    DEFAULT_LEASE_DURATION_MS,
                ),
    {
        TopicRecordSpec::new_at(
            topic,
            exchange,
            request_type_hash,
            response_type_hash,
            revision,
            machine_name,
            unix_time_ms(),
        )
    }

    /// Override the absolute Unix-millisecond lease deadline.
    pub fn lease_expires_at_ms(self, lease_expires_at_ms: u64) -> (r: Self)
        ensures
            r.lease_expires_at_ms == lease_expires_at_ms,
            r.topic == self.topic,
            r.exchange == self.exchange,
            r.request_type_hash == self.request_type_hash,
            r.response_type_hash == self.response_type_hash,
            r.revision == self.revision,
            r.machine_name == self.machine_name,
    {
        TopicRecordSpec { lease_expires_at_ms, ..self }
    }
}

/// The signed content of a topic record.
#[derive(Debug, Clone, PartialEq, Eq)]
pub struct TopicRecordBody {
    /// Directory wire version.
    pub protocol_version: u16,
    /// Signed operation domain; `Announce` for a valid record.
    pub operation: DirectoryOperation,
    /// Normalized absolute topic.
    pub topic: String,
    /// Hosted exchange family.
    pub exchange: ExchangeKind,
    /// Request or payload wire-type hash.
    pub request_type_hash: u64,
    /// Response wire-type hash, when known.
    pub response_type_hash: Option<u64>,
    /// Owner endpoint public key.
    pub owner: EndpointBytes,
    /// Owner-scoped monotonic revision.
    pub revision: u64,
    /// Absolute Unix-millisecond lease deadline.
    pub lease_expires_at_ms: u64,
    /// Optional machine name.
    pub machine_name: Option<String>,
}

/// The mathematical content of a [`TopicRecordBody`].
pub struct RecordBodyView {
    pub protocol_version: u16,
    pub operation: DirectoryOperation,
    pub topic: Seq<char>,
    pub exchange: ExchangeKind,
    pub request_type_hash: u64,
    pub response_type_hash: Option<u64>,
    pub owner: Seq<u8>,
    pub revision: u64,
    pub lease_expires_at_ms: u64,
    pub machine_name: Option<Seq<char>>,
}

impl View for TopicRecordBody {
    type V = RecordBodyView;

    open spec fn view(&self) -> RecordBodyView {
        RecordBodyView {
            protocol_version: self.protocol_version,
            operation: self.operation,
            topic: self.topic@,
            exchange: self.exchange,
            request_type_hash: self.request_type_hash,
            response_type_hash: self.response_type_hash,
            owner: self.owner@,
            revision: self.revision,
            lease_expires_at_ms: self.lease_expires_at_ms,
            machine_name: opt_string_view(self.machine_name),
        }
    }
}

/// The bytes an owner signs for a record body.
pub open spec fn record_body_bytes(b: RecordBodyView) -> Seq<u8> {
    varint(b.protocol_version as nat) + (varint(operation_index(b.operation)) + record_fields(b))
}

/// The record fields that follow the version and operation.
pub open spec fn record_fields(b: RecordBodyView) -> Seq<u8> {
    enc_str(b.topic) + varint(exchange_index(b.exchange)) + varint(b.request_type_hash as nat)
        + enc_opt_u64(b.response_type_hash) + b.owner + varint(b.revision as nat) + varint(
        b.lease_expires_at_ms as nat,
    ) + enc_opt_str(b.machine_name)
}

impl TopicRecordBody {
    /// The canonical bytes the owner signs for this record.
    #[verifier::rlimit(30)]
    pub fn signing_bytes(&self) -> (out: Vec<u8>)
        ensures
            out@ == record_body_bytes(self@),
    {
        let mut out: Vec<u8> = Vec::new();
        push_varint(&mut out, self.protocol_version as u64);
        push_varint(&mut out, operation_rank(self.operation) as u64);
        push_str(&mut out, self.topic.as_str());
        push_varint(&mut out, exchange_rank(self.exchange) as u64);
        push_varint(&mut out, self.request_type_hash);
        push_opt_u64(&mut out, self.response_type_hash);
        push_bytes(&mut out, &self.owner);
        push_varint(&mut out, self.revision);
        push_varint(&mut out, self.lease_expires_at_ms);
        push_opt_str(&mut out, &self.machine_name);
        assert(out@ =~= record_body_bytes(self@));
        out
    }
}

/// An owner-signed, leased topic record.
#[derive(Debug, Clone, PartialEq, Eq)]
pub struct TopicEntry {
    /// The signed content.
    pub body: TopicRecordBody,
    /// Detached Ed25519 signature over [`TopicRecordBody::signing_bytes`].
    pub signature: Vec<u8>,
}

/// The mathematical content of a [`TopicEntry`].
pub struct EntryView {
    pub body: RecordBodyView,
    pub signature: Seq<u8>,
}

impl View for TopicEntry {
    type V = EntryView;

    open spec fn view(&self) -> EntryView {
        EntryView { body: self.body@, signature: self.signature@ }
    }
}

/// The outcome of an Ed25519 signature check: valid, invalid, or a failure
/// of the verifier itself (with its message).
pub open spec fn check_view(c: core::result::Result<bool, String>) -> core::result::Result<
    bool,
    Seq<char>,
> {
    match c {
        Ok(b) => Ok(b),
        Err(s) => Err(s@),
    }
}

/// A `Result<()>` by its error view.
pub open spec fn unit_result_view(r: Result<()>) -> core::result::Result<(), ErrorView> {
    match r {
        Ok(()) => Ok(()),
        Err(e) => Err(e@),
    }
}

/// The reason given for a record or withdrawal whose topic is not normalized.
pub open spec fn not_normalized_reason(record: bool) -> Seq<char> {
    if record {
        "directory records require a normalized absolute topic"@
    } else {
        "directory withdrawals require a normalized absolute topic"@
    }
}

/// Whether `topic` is its own normalized form, or the error normalization
/// reports for it.
pub open spec fn topic_check(topic: Seq<char>, record: bool) -> core::result::Result<
    (),
    ErrorView,
> {
    match normalize_result(topic) {
        Err(e) => Err(e),
        Ok(n) => if n == topic {
            Ok(())
        } else {
            Err(ErrorView::InvalidTopic { topic, reason: not_normalized_reason(record) })
        },
    }
}

/// What signature checking contributes to verification.
pub open spec fn signature_outcome(topic: Seq<char>, check: core::result::Result<bool, Seq<char>>) -> core::result::Result<
    (),
    ErrorView,
> {
    match check {
        Err(m) => Err(ErrorView::ControlPlane(m)),
        Ok(false) => Err(ErrorView::InvalidSignature { topic }),
        Ok(true) => Ok(()),
    }
}

/// What [`TopicEntry::verify`] decides for record `e` at time `now` when
/// the signature check came out as `check`.
pub open spec fn entry_verify_result(
    e: EntryView,
    now: u64,
    check: core::result::Result<bool, Seq<char>>,
) -> core::result::Result<(), ErrorView> {
    let b = e.body;
    if b.protocol_version != DIRECTORY_PROTOCOL_VERSION {
        Err(ErrorView::UnsupportedProtocol(b.protocol_version))
    } else if b.operation != DirectoryOperation::Announce {
        Err(ErrorView::InvalidDirectoryOperation { topic: b.topic })
    } else if topic_check(b.topic, true) is Err {
        topic_check(b.topic, true)
    } else if b.lease_expires_at_ms <= now {
        Err(ErrorView::ExpiredRecord { topic: b.topic })
    } else {
        signature_outcome(b.topic, check)
    }
}

/// A record assembled from a body that [`TopicRecordBody::unsigned_body`]
/// built (current protocol, an announcement, a normalized topic) carries
/// that body, and verifies at every time before its lease deadline when
/// its signature checks out; at and after the deadline it is expired.
pub proof fn lemma_signed_record_verifies(b: RecordBodyView, signature: Seq<u8>, now: u64)
    requires
        b.protocol_version == DIRECTORY_PROTOCOL_VERSION,
        b.operation == DirectoryOperation::Announce,
        topic_check(b.topic, true) is Ok,
    ensures
        now < b.lease_expires_at_ms ==> entry_verify_result(
            EntryView { body: b, signature },
            now,
            Ok(true),
        ) == Ok::<(), ErrorView>(()),
        now >= b.lease_expires_at_ms ==> entry_verify_result(
            EntryView { body: b, signature },
            now,
            Ok(true),
        ) == Err::<(), ErrorView>(ErrorView::ExpiredRecord { topic: b.topic }),
{
}

/// The topic check accepts exactly the topics that normalization gives
/// back unchanged, and every topic it accepts is a canonical absolute path
/// without surrounding whitespace: a topic such as `/a/` or `/a//b` is
/// refused, so a stored record's key is always the normalized form.
pub proof fn lemma_accepted_topics_are_canonical(t: Seq<char>, record: bool)
    ensures
        topic_check(t, record) is Ok <==> normalize_result(t) == Ok::<Seq<char>, ErrorView>(t),
        topic_check(t, record) is Ok ==> is_canonical_path(t) && trim(t) == t,
{
    if normalize_result(t) == Ok::<Seq<char>, ErrorView>(t) {
        lemma_fixed_point_is_canonical(t);
    }
}

/// A withdrawal that [`TopicWithdrawal::targets`] accepts for a record
/// names exactly that record's revision and carries exactly its signature.
pub proof fn lemma_withdrawal_targets_exact_record(w: WithdrawalView, e: EntryView)
    ensures
        withdrawal_targets(w, e) <==> (w.body.target_revision == e.body.revision
            && w.body.target_signature == e.signature),
{
}

/// The characters of an optional string slice.
pub open spec fn opt_str_view(o: Option<&str>) -> Option<Seq<char>> {
    match o {
        None => None,
        Some(s) => Some(s@),
    }
}

fn check_topic(topic: &String, record: bool) -> (r: Result<()>)
    ensures
        unit_result_view(r) == topic_check(topic@, record),
        r is Ok <==> normalize_result(topic@) == Ok::<Seq<char>, ErrorView>(topic@),
        r is Ok ==> is_canonical_path(topic@) && trim(topic@) == topic@,
{
    proof {
        if normalize_result(topic@) == Ok::<Seq<char>, ErrorView>(topic@) {
            lemma_fixed_point_is_canonical(topic@);
        }
    }
    let normalized = normalize_topic(topic.as_str())?;
    if !str_eq(normalized.as_str(), topic.as_str()) {
        return Err(
            Error::InvalidTopic {
                topic: topic.clone(),
                reason: if record {
                    String::from_str("directory records require a normalized absolute topic")
                } else {
                    String::from_str("directory withdrawals require a normalized absolute topic")
                },
            },
        );
    }
    Ok(())
}

fn signature_result(topic: &String, check: core::result::Result<bool, String>) -> (r: Result<()>)
    ensures
        unit_result_view(r) == signature_outcome(topic@, check_view(check)),
{
    match check {
        Err(message) => Err(Error::ControlPlane(message)),
        Ok(false) => Err(Error::InvalidSignature { topic: topic.clone() }),
        Ok(true) => Ok(()),
    }
}

impl TopicEntry {
    /// The body an owner with public key `owner` signs for `spec`. Fails when
    /// the topic is not already a normalized absolute topic.
    pub fn unsigned_body(spec: TopicRecordSpec, owner: EndpointBytes) -> (r: Result<TopicRecordBody>)
        ensures
            r is Ok <==> topic_check(spec.topic@, true) is Ok,
            r is Ok <==> normalize_result(spec.topic@) == Ok::<Seq<char>, ErrorView>(spec.topic@),
            r is Ok ==> is_canonical_path(spec.topic@) && trim(spec.topic@) == spec.topic@,
            r matches Err(e) ==> Err::<(), ErrorView>(e@) == topic_check(spec.topic@, true),
            r matches Ok(b) ==> b@ == (RecordBodyView {
                protocol_version: DIRECTORY_PROTOCOL_VERSION,
                operation: DirectoryOperation::Announce,
                topic: spec.topic@,
                exchange: spec.exchange,
                request_type_hash: spec.request_type_hash,
                response_type_hash: spec.response_type_hash,
                owner: owner@,
                revision: spec.revision,
                lease_expires_at_ms: spec.lease_expires_at_ms,
                machine_name: opt_string_view(spec.machine_name),
            }),
    {
        check_topic(&spec.topic, true)?;
        Ok(
            TopicRecordBody {
                protocol_version: DIRECTORY_PROTOCOL_VERSION,
                operation: DirectoryOperation::Announce,
                topic: spec.topic,
                exchange: spec.exchange,
                request_type_hash: spec.request_type_hash,
                response_type_hash: spec.response_type_hash,
                owner,
                revision: spec.revision,
                lease_expires_at_ms: spec.lease_expires_at_ms,
                machine_name: spec.machine_name,
            },
        )
    }

    /// Assemble a signed record from its body and the outcome of signing
    /// [`TopicRecordBody::signing_bytes`]; a signer failure becomes a
    /// control-plane error.
    pub fn from_signature(body: TopicRecordBody, signature: core::result::Result<Vec<u8>, String>) -> (r: Result<
        TopicEntry,
    >)
        ensures
            signature is Ok <==> r is Ok,
            r matches Ok(e) ==> e@ == (EntryView { body: body@, signature: signature->Ok_0@ }),
            r matches Err(e) ==> e@ == ErrorView::ControlPlane(signature->Err_0@),
    {
        match signature {
            Ok(signature) => Ok(TopicEntry { body, signature }),
            Err(message) => Err(Error::ControlPlane(message)),
        }
    }

    /// The bytes whose signature by the owner this record carries.
    pub fn signing_bytes(&self) -> (out: Vec<u8>)
        ensures
            out@ == record_body_bytes(self.body@),
    {
        self.body.signing_bytes()
    }

    /// Verify protocol version, operation, topic form, lease validity at
    /// `now_ms`, and the owner signature, whose Ed25519 check over
    /// [`TopicEntry::signing_bytes`] by the owner key came out as `signature_check`.
    pub fn verify(&self, now_ms: u64, signature_check: core::result::Result<bool, String>) -> (r:
        Result<()>)
        ensures
            unit_result_view(r) == entry_verify_result(self@, now_ms, check_view(signature_check)),
            r is Ok ==> is_canonical_path(self.body.topic@) && trim(self.body.topic@)
                == self.body.topic@ && normalize_result(self.body.topic@) == Ok::<
                Seq<char>,
                ErrorView,
            >(self.body.topic@),
    {
        proof {
            lemma_accepted_topics_are_canonical(self.body.topic@, true);
        }
        if self.body.protocol_version != DIRECTORY_PROTOCOL_VERSION {
            return Err(Error::UnsupportedProtocol(self.body.protocol_version));
        }
        match self.body.operation {
            DirectoryOperation::Announce => {},
            DirectoryOperation::Withdraw => {
                return Err(Error::InvalidDirectoryOperation { topic: self.body.topic.clone() });
            },
        }
        check_topic(&self.body.topic, true)?;
        if self.body.lease_expires_at_ms <= now_ms {
            return Err(Error::ExpiredRecord { topic: self.body.topic.clone() });
        }
        signature_result(&self.body.topic, signature_check)
    }

    /// Verify an exchange family and its request and response wire hashes.
    pub fn validate_exchange(
        &self,
        exchange: ExchangeKind,
        request_type_hash: u64,
        response_type_hash: Option<u64>,
    ) -> (r: Result<()>)
        ensures
            unit_result_view(r) == exchange_check(self@, exchange, request_type_hash, response_type_hash),
    {
        if self.body.exchange != exchange {
            return Err(
                Error::ExchangeMismatch {
                    topic: self.body.topic.clone(),
                    expected: exchange,
                    actual: self.body.exchange,
                },
            );
        }
        // A record adopted from a raw peerbus topic carries no response
        // type; peerbus still checks it on the wire.
        let response_known = self.body.response_type_hash.is_some();
        if self.body.request_type_hash != request_type_hash || (response_known
            && self.body.response_type_hash != response_type_hash) {
            return Err(Error::TypeMismatch { topic: self.body.topic.clone() });
        }
        Ok(())
    }

    /// Return the normalized topic.
    pub fn topic(&self) -> (r: &str)
        ensures
            r@ == self.body.topic@,
    {
        self.body.topic.as_str()
    }

    /// Return the hosted exchange family.
    pub fn exchange(&self) -> (r: ExchangeKind)
        ensures
            r == self.body.exchange,
    {
        self.body.exchange
    }

    /// Return the request or payload wire-type hash.
    pub fn request_type_hash(&self) -> (r: u64)
        ensures
            r == self.body.request_type_hash,
    {
        self.body.request_type_hash
    }

    /// Return the response wire-type hash for bidirectional exchanges.
    pub fn response_type_hash(&self) -> (r: Option<u64>)
        ensures
            r == self.body.response_type_hash,
    {
        self.body.response_type_hash
    }

    /// Return the signing owner's endpoint public key.
    pub fn endpoint_id(&self) -> (r: EndpointBytes)
        ensures
            r@ == self.body.owner@,
    {
        self.body.owner
    }

    /// Return the owner-scoped monotonic revision.
    pub fn revision(&self) -> (r: u64)
        ensures
            r == self.body.revision,
    {
        self.body.revision
    }

    /// Return the absolute Unix-millisecond lease deadline.
    pub fn lease_expires_at_ms(&self) -> (r: u64)
        ensures
            r == self.body.lease_expires_at_ms,
    {
        self.body.lease_expires_at_ms
    }

    /// Return the optional machine name carried by this record.
    pub fn machine_name(&self) -> (r: Option<&str>)
        ensures
            opt_str_view(r) == opt_string_view(self.body.machine_name),
    {
        match &self.body.machine_name {
            None => None,
            Some(s) => Some(s.as_str()),
        }
    }

    /// Mutable access to the signature bytes.
    pub fn signature_mut(&mut self) -> (r: &mut Vec<u8>)
        ensures
            *r == old(self).signature,
            final(self).body == old(self).body,
            final(self).signature == *final(r),
    {
        &mut self.signature
    }
}

/// What [`TopicEntry::validate_exchange`] decides.
pub open spec fn exchange_check(
    e: EntryView,
    exchange: ExchangeKind,
    request_type_hash: u64,
    response_type_hash: Option<u64>,
) -> core::result::Result<(), ErrorView> {
    let b = e.body;
    if b.exchange != exchange {
        Err(ErrorView::ExchangeMismatch { topic: b.topic, expected: exchange, actual: b.exchange })
    } else if b.request_type_hash != request_type_hash || (b.response_type_hash is Some
        && b.response_type_hash != response_type_hash) {
        Err(ErrorView::TypeMismatch { topic: b.topic })
    } else {
        Ok(())
    }
}

/// The signed content of a withdrawal.
#[derive(Debug, Clone, PartialEq, Eq)]
pub struct WithdrawalBody {
    /// Directory wire version.
    pub protocol_version: u16,
    /// Signed operation domain; `Withdraw` for a valid withdrawal.
    pub operation: DirectoryOperation,
    /// Normalized absolute topic to withdraw.
    pub topic: String,
    /// Exchange family to withdraw.
    pub exchange: ExchangeKind,
    /// Owner endpoint public key.
    pub owner: EndpointBytes,
    /// Withdrawal revision.
    pub revision: u64,
    /// Revision of the exact record withdrawn.
    pub target_revision: u64,
    /// Signature of the exact record withdrawn.
    pub target_signature: Vec<u8>,
}

/// The mathematical content of a [`WithdrawalBody`].
pub struct WithdrawalBodyView {
    pub protocol_version: u16,
    pub operation: DirectoryOperation,
    pub topic: Seq<char>,
    pub exchange: ExchangeKind,
    pub owner: Seq<u8>,
    pub revision: u64,
    pub target_revision: u64,
    pub target_signature: Seq<u8>,
}

impl View for WithdrawalBody {
    type V = WithdrawalBodyView;

    open spec fn view(&self) -> WithdrawalBodyView {
        WithdrawalBodyView {
            protocol_version: self.protocol_version,
            operation: self.operation,
            topic: self.topic@,
            exchange: self.exchange,
            owner: self.owner@,
            revision: self.revision,
            target_revision: self.target_revision,
            target_signature: self.target_signature@,
        }
    }
}

/// The bytes an owner signs for a withdrawal body.
pub open spec fn withdrawal_body_bytes(b: WithdrawalBodyView) -> Seq<u8> {
    varint(b.protocol_version as nat) + (varint(operation_index(b.operation)) + withdrawal_fields(
        b,
    ))
}

/// The withdrawal fields that follow the version and operation.
pub open spec fn withdrawal_fields(b: WithdrawalBodyView) -> Seq<u8> {
    enc_str(b.topic) + varint(exchange_index(b.exchange)) + b.owner + varint(b.revision as nat)
        + varint(b.target_revision as nat) + enc_bytes(b.target_signature)
}

impl WithdrawalBody {
    /// The canonical bytes the owner signs for this withdrawal.
    pub fn signing_bytes(&self) -> (out: Vec<u8>)
        ensures
            out@ == withdrawal_body_bytes(self@),
    {
        let mut out: Vec<u8> = Vec::new();
        push_varint(&mut out, self.protocol_version as u64);
        push_varint(&mut out, operation_rank(self.operation) as u64);
        push_str(&mut out, self.topic.as_str());
        push_varint(&mut out, exchange_rank(self.exchange) as u64);
        push_bytes(&mut out, &self.owner);
        push_varint(&mut out, self.revision);
        push_varint(&mut out, self.target_revision);
        push_byte_field(&mut out, self.target_signature.as_slice());
        assert(out@ =~= withdrawal_body_bytes(self@));
        out
    }
}

/// An owner-signed request to remove a hosted topic record.
#[derive(Debug, Clone, PartialEq, Eq)]
pub struct TopicWithdrawal {
    /// The signed content.
    pub body: WithdrawalBody,
    /// Detached Ed25519 signature over [`WithdrawalBody::signing_bytes`].
    pub signature: Vec<u8>,
}

/// The mathematical content of a [`TopicWithdrawal`].
pub struct WithdrawalView {
    pub body: WithdrawalBodyView,
    pub signature: Seq<u8>,
}

impl View for TopicWithdrawal {
    type V = WithdrawalView;

    open spec fn view(&self) -> WithdrawalView {
        WithdrawalView { body: self.body@, signature: self.signature@ }
    }
}

/// What [`TopicWithdrawal::verify`] decides for withdrawal `w` when the
/// signature check came out as `check`.
pub open spec fn withdrawal_verify_result(
    w: WithdrawalView,
    check: core::result::Result<bool, Seq<char>>,
) -> core::result::Result<(), ErrorView> {
    let b = w.body;
    if b.protocol_version != DIRECTORY_PROTOCOL_VERSION {
        Err(ErrorView::UnsupportedProtocol(b.protocol_version))
    } else if b.operation != DirectoryOperation::Withdraw {
        Err(ErrorView::InvalidDirectoryOperation { topic: b.topic })
    } else if topic_check(b.topic, false) is Err {
        topic_check(b.topic, false)
    } else {
        signature_outcome(b.topic, check)
    }
}

/// Whether withdrawal `w` is bound to exactly record `e`.
pub open spec fn withdrawal_targets(w: WithdrawalView, e: EntryView) -> bool {
    w.body.target_revision == e.body.revision && w.body.target_signature == e.signature
}

impl TopicWithdrawal {
    /// The body a signer with public key `signer` signs to withdraw `entry`
    /// at `revision`. Only the record's owner may withdraw it.
    pub fn unsigned_body(entry: &TopicEntry, revision: u64, signer: EndpointBytes) -> (r: Result<
        WithdrawalBody,
    >)
        ensures
            r is Ok <==> signer@ == entry.body.owner@,
            r matches Err(e) ==> e@ == (ErrorView::OwnershipConflict { topic: entry.body.topic@ }),
            r matches Ok(b) ==> b@ == (WithdrawalBodyView {
                protocol_version: DIRECTORY_PROTOCOL_VERSION,
                operation: DirectoryOperation::Withdraw,
                topic: entry.body.topic@,
                exchange: entry.body.exchange,
                owner: signer@,
                revision,
                target_revision: entry.body.revision,
                target_signature: entry.signature@,
            }),
    {
        if !bytes_eq(&signer, &entry.body.owner) {
            return Err(Error::OwnershipConflict { topic: entry.body.topic.clone() });
        }
        Ok(
            WithdrawalBody {
                protocol_version: DIRECTORY_PROTOCOL_VERSION,
                operation: DirectoryOperation::Withdraw,
                topic: entry.body.topic.clone(),
                exchange: entry.body.exchange,
                owner: signer,
                revision,
                target_revision: entry.body.revision,
                target_signature: entry.signature.clone(),
            },
        )
    }

    /// Assemble a signed withdrawal from its body and the outcome of signing
    /// [`WithdrawalBody::signing_bytes`].
    pub fn from_signature(body: WithdrawalBody, signature: core::result::Result<Vec<u8>, String>) -> (r: Result<
        TopicWithdrawal,
    >)
        ensures
            signature is Ok <==> r is Ok,
            r matches Ok(w) ==> w@ == (WithdrawalView { body: body@, signature: signature->Ok_0@ }),
            r matches Err(e) ==> e@ == ErrorView::ControlPlane(signature->Err_0@),
    {
        match signature {
            Ok(signature) => Ok(TopicWithdrawal { body, signature }),
            Err(message) => Err(Error::ControlPlane(message)),
        }
    }

    /// The bytes whose signature by the owner this withdrawal carries.
    pub fn signing_bytes(&self) -> (out: Vec<u8>)
        ensures
            out@ == withdrawal_body_bytes(self.body@),
    {
        self.body.signing_bytes()
    }

    /// Verify the withdrawal protocol version, operation, topic form and the
    /// owner signature, whose Ed25519 check over
    /// [`TopicWithdrawal::signing_bytes`] came out as `signature_check`.
    pub fn verify(&self, signature_check: core::result::Result<bool, String>) -> (r: Result<()>)
        ensures
            unit_result_view(r) == withdrawal_verify_result(self@, check_view(signature_check)),
            r is Ok ==> is_canonical_path(self.body.topic@) && trim(self.body.topic@)
                == self.body.topic@ && normalize_result(self.body.topic@) == Ok::<
                Seq<char>,
                ErrorView,
            >(self.body.topic@),
    {
        proof {
            lemma_accepted_topics_are_canonical(self.body.topic@, false);
        }
        if self.body.protocol_version != DIRECTORY_PROTOCOL_VERSION {
            return Err(Error::UnsupportedProtocol(self.body.protocol_version));
        }
        match self.body.operation {
            DirectoryOperation::Withdraw => {},
            DirectoryOperation::Announce => {
                return Err(Error::InvalidDirectoryOperation { topic: self.body.topic.clone() });
            },
        }
        check_topic(&self.body.topic, false)?;
        signature_result(&self.body.topic, signature_check)
    }

    /// Return the normalized topic to withdraw.
    pub fn topic(&self) -> (r: &str)
        ensures
            r@ == self.body.topic@,
    {
        self.body.topic.as_str()
    }

    /// Return the exchange family to withdraw.
    pub fn exchange(&self) -> (r: ExchangeKind)
        ensures
            r == self.body.exchange,
    {
        self.body.exchange
    }

    /// Return the signing owner's endpoint public key.
    pub fn endpoint_id(&self) -> (r: EndpointBytes)
        ensures
            r@ == self.body.owner@,
    {
        self.body.owner
    }

    /// Return the withdrawal revision.
    pub fn revision(&self) -> (r: u64)
        ensures
            r == self.body.revision,
    {
        self.body.revision
    }

    /// Whether this withdrawal is bound to exactly `entry`.
    pub fn targets(&self, entry: &TopicEntry) -> (r: bool)
        ensures
            r == withdrawal_targets(self@, entry@),
            r <==> (self.body.target_revision == entry.body.revision
                && self.body.target_signature@ == entry.signature@),
    {
        self.body.target_revision == entry.body.revision && bytes_eq(
            self.body.target_signature.as_slice(),
            entry.signature.as_slice(),
        )
    }
}

/// Record and withdrawal signatures are domain separated: the bytes signed
/// for an announcement never equal the bytes signed for a withdrawal, so a
/// signature over one can never pass as a signature over the other.
pub proof fn lemma_signing_domains_are_separated(r: RecordBodyView, w: WithdrawalBodyView)
    requires
        r.operation == DirectoryOperation::Announce,
        w.operation == DirectoryOperation::Withdraw,
    ensures
        record_body_bytes(r) != withdrawal_body_bytes(w),
{
    let rx = varint(operation_index(r.operation)) + record_fields(r);
    let wx = varint(operation_index(w.operation)) + withdrawal_fields(w);
    if record_body_bytes(r) == withdrawal_body_bytes(w) {
        lemma_varint_prefix_unique(r.protocol_version as nat, w.protocol_version as nat, rx, wx);
        assert(varint(0) == seq![0u8]);
        assert(varint(1) == seq![1u8]);
        assert(rx[0] == 0u8);
        assert(wx[0] == 1u8);
    }
}

/// The error std's clock gives for a time before the Unix epoch.
#[verifier::external_type_specification]
#[verifier::external_body]
pub struct ExSystemTimeError(std::time::SystemTimeError);

/// How long ago the Unix epoch was, by std's `SystemTime::elapsed` on
/// `UNIX_EPOCH`: an error when the system clock reads earlier than the
/// epoch. The outcome rests on the clock, so nothing is promised of it.
#[verifier::external_body]
fn time_since_epoch() -> (r: core::result::Result<core::time::Duration, std::time::SystemTimeError>) {
    std::time::UNIX_EPOCH.elapsed()
}

/// Whole milliseconds in `d`, by std's `Duration::as_millis`. `Duration` is
/// opaque here, so the value is not stated.
#[verifier::external_body]
fn duration_millis(d: &core::time::Duration) -> (r: u128) {
    d.as_millis()
}

/// Whole nanoseconds in `d`, by std's `Duration::as_nanos`. `Duration` is
/// opaque here, so the value is not stated.
#[verifier::external_body]
fn duration_nanos(d: &core::time::Duration) -> (r: u128) {
    d.as_nanos()
}

/// The Unix time in milliseconds that a clock reading of `reading`
/// milliseconds since the epoch gives: `None` (a clock before the epoch)
/// reads as 0, and a reading past `u64::MAX` saturates there.
pub open spec fn millis_of(reading: Option<u128>) -> u64 {
    match reading {
        None => 0,
        Some(ms) => if ms > u64::MAX {
            u64::MAX
        } else {
            ms as u64
        },
    }
}

/// The first owner revision that a clock reading of `reading` nanoseconds
/// since the epoch gives: `None` reads as 0, and a reading past `u64::MAX`
/// becomes `u64::MAX - 1_000_000`, leaving room for later revisions.
pub open spec fn seed_of(reading: Option<u128>) -> u64 {
    match reading {
        None => 0,
        Some(ns) => if ns > u64::MAX {
            (u64::MAX - 1000000) as u64
        } else {
            ns as u64
        },
    }
}

/// Turn a millisecond clock reading into Unix milliseconds ([`millis_of`]).
pub fn millis_of_reading(reading: Option<u128>) -> (out: u64)
    ensures
        out == millis_of(reading),
{
    match reading {
        None => 0,
        Some(ms) => if ms > u64::MAX as u128 {
            u64::MAX
        } else {
            ms as u64
        },
    }
}

/// Turn a nanosecond clock reading into a first revision ([`seed_of`]).
pub fn seed_of_reading(reading: Option<u128>) -> (out: u64)
    ensures
        out == seed_of(reading),
{
    match reading {
        None => 0,
        Some(ns) => if ns > u64::MAX as u128 {
            u64::MAX - 1000000
        } else {
            ns as u64
        },
    }
}

/// Return the current Unix time in milliseconds, saturating at `u64::MAX`
/// (zero when the clock reads before the epoch): [`millis_of`] of whatever
/// the clock reads.
pub fn unix_time_ms() -> (out: u64)
    ensures
        exists|reading: Option<u128>| out == #[trigger] millis_of(reading),
{
    let reading: Option<u128> = match time_since_epoch() {
        Ok(d) => Some(duration_millis(&d)),
        Err(_) => None,
    };
    millis_of_reading(reading)
}

/// `now_ms + lease_ms`, saturating at `u64::MAX`.
pub open spec fn lease_deadline(now_ms: u64, lease_ms: u64) -> u64 {
    if now_ms + lease_ms > u64::MAX {
        u64::MAX
    } else {
        (now_ms + lease_ms) as u64
    }
}

/// The absolute lease deadline `lease_ms` after `now_ms`, saturating.
pub fn lease_deadline_at(now_ms: u64, lease_ms: u64) -> (r: u64)
    ensures
        r == lease_deadline(now_ms, lease_ms),
{
    now_ms.saturating_add(lease_ms)
}

/// Return a default lease deadline relative to the current time: the
/// default lease after whatever Unix time the clock reads.
pub fn default_lease_deadline_ms() -> (r: u64)
    ensures
        r >= DEFAULT_LEASE_DURATION_MS,
        exists|reading: Option<u128>|
            r == lease_deadline(#[trigger] millis_of(reading), DEFAULT_LEASE_DURATION_MS),
{
    lease_deadline_at(unix_time_ms(), DEFAULT_LEASE_DURATION_MS)
}

/// The first owner revision of a fresh agent: the current Unix time in
/// nanoseconds, so a restarted owner outranks its previous records
/// ([`seed_of`] of whatever the clock reads).
pub fn next_revision_seed() -> (out: u64)
    ensures
        exists|reading: Option<u128>| out == #[trigger] seed_of(reading),
{
    let reading: Option<u128> = match time_since_epoch() {
        Ok(d) => Some(duration_nanos(&d)),
        Err(_) => None,
    };
    seed_of_reading(reading)
}

/// The record fields after the exchange index.
spec fn record_tail_hash(b: RecordBodyView) -> Seq<u8> {
    varint(b.request_type_hash as nat) + record_tail_response(b)
}

spec fn record_tail_response(b: RecordBodyView) -> Seq<u8> {
    enc_opt_u64(b.response_type_hash) + record_tail_owner(b)
}

spec fn record_tail_owner(b: RecordBodyView) -> Seq<u8> {
    b.owner + record_tail_revision(b)
}

spec fn record_tail_revision(b: RecordBodyView) -> Seq<u8> {
    varint(b.revision as nat) + record_tail_lease(b)
}

spec fn record_tail_lease(b: RecordBodyView) -> Seq<u8> {
    varint(b.lease_expires_at_ms as nat) + enc_opt_str(b.machine_name)
}

#[verifier::rlimit(40)]
proof fn lemma_record_fields_split(b: RecordBodyView)
    ensures
        record_fields(b) == enc_str(b.topic) + (varint(exchange_index(b.exchange))
            + record_tail_hash(b)),
{
    let e = enc_str(b.topic);
    let v1 = varint(exchange_index(b.exchange));
    let v2 = varint(b.request_type_hash as nat);
    let o = enc_opt_u64(b.response_type_hash);
    let w = b.owner;
    let v3 = varint(b.revision as nat);
    let v4 = varint(b.lease_expires_at_ms as nat);
    let st = enc_opt_str(b.machine_name);
    vstd::seq_lib::lemma_concat_associative(v4, st, Seq::<u8>::empty());
    vstd::seq_lib::lemma_concat_associative(v3, v4, st);
    vstd::seq_lib::lemma_concat_associative(w, v3, v4 + st);
    vstd::seq_lib::lemma_concat_associative(o, w, v3 + (v4 + st));
    vstd::seq_lib::lemma_concat_associative(v2, o, w + (v3 + (v4 + st)));
    vstd::seq_lib::lemma_concat_associative(v1, v2, o + (w + (v3 + (v4 + st))));
    vstd::seq_lib::lemma_concat_associative(e, v1, v2 + (o + (w + (v3 + (v4 + st)))));
    vstd::seq_lib::lemma_concat_associative(e + v1, v2, o + (w + (v3 + (v4 + st))));
    vstd::seq_lib::lemma_concat_associative(e + v1 + v2, o, w + (v3 + (v4 + st)));
    vstd::seq_lib::lemma_concat_associative(e + v1 + v2 + o, w, v3 + (v4 + st));
    vstd::seq_lib::lemma_concat_associative(e + v1 + v2 + o + w, v3, v4 + st);
    vstd::seq_lib::lemma_concat_associative(e + v1 + v2 + o + w + v3, v4, st);
}

/// Distinct record bodies are signed as distinct bytes: changing any signed
/// field of a record changes the bytes its owner signed, so the signature no
/// longer covers it.
pub proof fn lemma_record_bytes_injective(a: RecordBodyView, b: RecordBodyView)
    requires
        a.owner.len() == 32,
        b.owner.len() == 32,
        record_body_bytes(a) == record_body_bytes(b),
    ensures
        a == b,
{
    let fa = record_fields(a);
    let fb = record_fields(b);
    lemma_varint_prefix_unique(
        a.protocol_version as nat,
        b.protocol_version as nat,
        varint(operation_index(a.operation)) + fa,
        varint(operation_index(b.operation)) + fb,
    );
    lemma_varint_prefix_unique(operation_index(a.operation), operation_index(b.operation), fa, fb);
    lemma_record_fields_split(a);
    lemma_record_fields_split(b);
    lemma_enc_str_prefix_unique(
        a.topic,
        b.topic,
        varint(exchange_index(a.exchange)) + record_tail_hash(a),
        varint(exchange_index(b.exchange)) + record_tail_hash(b),
    );
    lemma_varint_prefix_unique(
        exchange_index(a.exchange),
        exchange_index(b.exchange),
        record_tail_hash(a),
        record_tail_hash(b),
    );
    lemma_varint_prefix_unique(
        a.request_type_hash as nat,
        b.request_type_hash as nat,
        record_tail_response(a),
        record_tail_response(b),
    );
    lemma_enc_opt_u64_prefix_unique(
        a.response_type_hash,
        b.response_type_hash,
        record_tail_owner(a),
        record_tail_owner(b),
    );
    lemma_fixed_prefix_unique(a.owner, b.owner, record_tail_revision(a), record_tail_revision(b));
    lemma_varint_prefix_unique(
        a.revision as nat,
        b.revision as nat,
        record_tail_lease(a),
        record_tail_lease(b),
    );
    lemma_varint_prefix_unique(
        a.lease_expires_at_ms as nat,
        b.lease_expires_at_ms as nat,
        enc_opt_str(a.machine_name),
        enc_opt_str(b.machine_name),
    );
    let e = Seq::<u8>::empty();
    assert(enc_opt_str(a.machine_name) + e =~= enc_opt_str(a.machine_name));
    assert(enc_opt_str(b.machine_name) + e =~= enc_opt_str(b.machine_name));
    lemma_enc_opt_str_prefix_unique(a.machine_name, b.machine_name, e, e);
}

spec fn withdrawal_tail_owner(b: WithdrawalBodyView) -> Seq<u8> {
    b.owner + withdrawal_tail_revision(b)
}

spec fn withdrawal_tail_revision(b: WithdrawalBodyView) -> Seq<u8> {
    varint(b.revision as nat) + withdrawal_tail_target(b)
}

spec fn withdrawal_tail_target(b: WithdrawalBodyView) -> Seq<u8> {
    varint(b.target_revision as nat) + enc_bytes(b.target_signature)
}

#[verifier::rlimit(40)]
proof fn lemma_withdrawal_fields_split(b: WithdrawalBodyView)
    ensures
        withdrawal_fields(b) == enc_str(b.topic) + (varint(exchange_index(b.exchange))
            + withdrawal_tail_owner(b)),
{
    let e = enc_str(b.topic);
    let v1 = varint(exchange_index(b.exchange));
    let w = b.owner;
    let v2 = varint(b.revision as nat);
    let v3 = varint(b.target_revision as nat);
    let sg = enc_bytes(b.target_signature);
    vstd::seq_lib::lemma_concat_associative(v2, v3, sg);
    vstd::seq_lib::lemma_concat_associative(w, v2, v3 + sg);
    vstd::seq_lib::lemma_concat_associative(v1, w, v2 + (v3 + sg));
    vstd::seq_lib::lemma_concat_associative(e, v1, w + (v2 + (v3 + sg)));
    vstd::seq_lib::lemma_concat_associative(e + v1, w, v2 + (v3 + sg));
    vstd::seq_lib::lemma_concat_associative(e + v1 + w, v2, v3 + sg);
    vstd::seq_lib::lemma_concat_associative(e + v1 + w + v2, v3, sg);
}

/// Distinct withdrawal bodies are signed as distinct bytes.
pub proof fn lemma_withdrawal_bytes_injective(a: WithdrawalBodyView, b: WithdrawalBodyView)
    requires
        a.owner.len() == 32,
        b.owner.len() == 32,
        withdrawal_body_bytes(a) == withdrawal_body_bytes(b),
    ensures
        a == b,
{
    let fa = withdrawal_fields(a);
    let fb = withdrawal_fields(b);
    lemma_varint_prefix_unique(
        a.protocol_version as nat,
        b.protocol_version as nat,
        varint(operation_index(a.operation)) + fa,
        varint(operation_index(b.operation)) + fb,
    );
    lemma_varint_prefix_unique(operation_index(a.operation), operation_index(b.operation), fa, fb);
    lemma_withdrawal_fields_split(a);
    lemma_withdrawal_fields_split(b);
    lemma_enc_str_prefix_unique(
        a.topic,
        b.topic,
        varint(exchange_index(a.exchange)) + withdrawal_tail_owner(a),
        varint(exchange_index(b.exchange)) + withdrawal_tail_owner(b),
    );
    lemma_varint_prefix_unique(
        exchange_index(a.exchange),
        exchange_index(b.exchange),
        withdrawal_tail_owner(a),
        withdrawal_tail_owner(b),
    );
    lemma_fixed_prefix_unique(
        a.owner,
        b.owner,
        withdrawal_tail_revision(a),
        withdrawal_tail_revision(b),
    );
    lemma_varint_prefix_unique(
        a.revision as nat,
        b.revision as nat,
        withdrawal_tail_target(a),
        withdrawal_tail_target(b),
    );
    lemma_varint_prefix_unique(
        a.target_revision as nat,
        b.target_revision as nat,
        enc_bytes(a.target_signature),
        enc_bytes(b.target_signature),
    );
    let e = Seq::<u8>::empty();
    assert(enc_bytes(a.target_signature) + e =~= enc_bytes(a.target_signature));
    assert(enc_bytes(b.target_signature) + e =~= enc_bytes(b.target_signature));
    lemma_enc_bytes_prefix_unique(a.target_signature, b.target_signature, e, e);
}

} // verus!
