//! Agent configuration: the builder's settings and the checks it makes,
//! the inbound-connection policy it implies, and the options of the
//! scripting binding, which fill a builder in a fixed order.
use vstd::prelude::*;

use super::mode::DirectoryMode;
use crate::directory::entry::{DEFAULT_LEASE_DURATION_MS, EndpointBytes};
use crate::error::{Error, ErrorView, Result, error_message};
use crate::naming::topic::{trim_participant, trim_slashes};
use crate::text::{bytes_eq, decimal, trim, u64_to_decimal};

verus! {

/// Raw Ed25519 secret key bytes.
pub type SecretBytes = [u8; 32];

/// The caller-visible deadline of directory control operations, by default.
pub const DEFAULT_CONTROL_TIMEOUT_MS: u64 = 6000;

/// The shortest lease a record may carry.
pub const MIN_LEASE_DURATION_MS: u64 = 30;

/// The shortest control deadline.
pub const MIN_CONTROL_TIMEOUT_MS: u64 = 1;

/// Where an agent's Ed25519 identity key comes from.
#[derive(Debug, Clone)]
pub enum IdentitySource {
    /// A persistent key shared by unnamed agents, in the keys directory.
    Ephemeral,
    /// A fresh in-memory key.
    Random,
    /// A persistent key for a named agent, in the keys directory.
    Name(String),
    /// The persistent key saved under this `did:key`, in the keys directory.
    DidKey(String),
    /// A persistent key file at this path.
    File(String),
    /// These secret key bytes.
    Key(SecretBytes),
}

/// The mathematical content of an [`IdentitySource`].
pub enum IdentityView {
    Ephemeral,
    Random,
    Name(Seq<char>),
    DidKey(Seq<char>),
    File(Seq<char>),
    Key(Seq<u8>),
}

impl View for IdentitySource {
    type V = IdentityView;

    open spec fn view(&self) -> IdentityView {
        match self {
            IdentitySource::Ephemeral => IdentityView::Ephemeral,
            IdentitySource::Random => IdentityView::Random,
            IdentitySource::Name(n) => IdentityView::Name(n@),
            IdentitySource::DidKey(d) => IdentityView::DidKey(d@),
            IdentitySource::File(p) => IdentityView::File(p@),
            IdentitySource::Key(k) => IdentityView::Key(k@),
        }
    }
}

/// Builder for an agent's configuration.
#[derive(Debug)]
pub struct AgentBuilder {
    /// Human-readable machine name.
    pub name: Option<String>,
    /// Prefix for this agent's own relative topics.
    pub participant: Option<String>,
    /// Where the identity key comes from.
    pub identity_source: IdentitySource,
    /// How topics are resolved.
    pub directory_mode: DirectoryMode,
    /// Outbound directory seeds, without repeats.
    pub bootstrap_peers: Vec<EndpointBytes>,
    /// Peers allowed to connect, without repeats.
    pub allowed_peers: Vec<EndpointBytes>,
    /// Problems found while configuring, reported by [`AgentBuilder::check`].
    pub configuration_errors: Vec<String>,
    /// Whether any peer may connect.
    pub allow_any_peer: bool,
    /// Whether relay fallback is disabled.
    pub no_relay: bool,
    /// Whether shared-memory transport is skipped.
    pub skip_shm: bool,
    /// Whether a host-local rendezvous record is written.
    pub rendezvous: bool,
    /// Signed record lease.
    pub lease_duration_ms: u64,
    /// Deadline of directory control operations.
    pub control_timeout_ms: u64,
}

/// The mathematical content of an [`AgentBuilder`].
pub struct BuilderView {
    pub name: Option<Seq<char>>,
    pub participant: Option<Seq<char>>,
    pub identity: IdentityView,
    pub mode: DirectoryMode,
    pub bootstrap: Seq<EndpointBytes>,
    pub allowed: Seq<EndpointBytes>,
    pub errors: Seq<Seq<char>>,
    pub allow_any_peer: bool,
    pub no_relay: bool,
    pub skip_shm: bool,
    pub rendezvous: bool,
    pub lease_duration_ms: u64,
    pub control_timeout_ms: u64,
}

/// An optional string by its characters.
pub open spec fn opt_text(o: Option<String>) -> Option<Seq<char>> {
    match o {
        Some(s) => Some(s@),
        None => None,
    }
}

impl View for AgentBuilder {
    type V = BuilderView;

    open spec fn view(&self) -> BuilderView {
        BuilderView {
            name: opt_text(self.name),
            participant: opt_text(self.participant),
            identity: self.identity_source@,
            mode: self.directory_mode,
            bootstrap: self.bootstrap_peers@,
            allowed: self.allowed_peers@,
            errors: self.configuration_errors@.map_values(|s: String| s@),
            allow_any_peer: self.allow_any_peer,
            no_relay: self.no_relay,
            skip_shm: self.skip_shm,
            rendezvous: self.rendezvous,
            lease_duration_ms: self.lease_duration_ms,
            control_timeout_ms: self.control_timeout_ms,
        }
    }
}

/// A fresh builder: deny-by-default inbound policy, replicated resolution.
pub open spec fn default_builder() -> BuilderView {
    BuilderView {
        name: None,
        participant: None,
        identity: IdentityView::Ephemeral,
        mode: DirectoryMode::Replicated,
        bootstrap: Seq::empty(),
        allowed: Seq::empty(),
        errors: Seq::empty(),
        allow_any_peer: false,
        no_relay: false,
        skip_shm: false,
        rendezvous: true,
        lease_duration_ms: DEFAULT_LEASE_DURATION_MS,
        control_timeout_ms: DEFAULT_CONTROL_TIMEOUT_MS,
    }
}

/// Whether `s` holds endpoint `p`.
pub open spec fn holds_id(s: Seq<EndpointBytes>, p: EndpointBytes) -> bool {
    exists|j: int| 0 <= j < s.len() && (#[trigger] s[j])@ == p@
}

/// `s` with `p` appended unless it already holds it.
pub open spec fn add_id(s: Seq<EndpointBytes>, p: EndpointBytes) -> Seq<EndpointBytes> {
    if holds_id(s, p) {
        s
    } else {
        s.push(p)
    }
}

/// A converted peer by its view.
pub open spec fn peer_view(p: Result<EndpointBytes>) -> core::result::Result<EndpointBytes, ErrorView> {
    match p {
        Ok(id) => Ok(id),
        Err(e) => Err(e@),
    }
}

/// Peers `ps` added in order to `s`: a peer joins unless already there, and
/// a peer that failed to convert adds its error's message to `errors`.
pub open spec fn add_peers(
    s: Seq<EndpointBytes>,
    errors: Seq<Seq<char>>,
    ps: Seq<core::result::Result<EndpointBytes, ErrorView>>,
) -> (Seq<EndpointBytes>, Seq<Seq<char>>)
    decreases ps.len(),
{
    if ps.len() == 0 {
        (s, errors)
    } else {
        let (s1, e1) = add_peers(s, errors, ps.drop_last());
        match ps.last() {
            Ok(p) => (add_id(s1, p), e1),
            Err(e) => (s1, e1.push(error_message(e))),
        }
    }
}

/// The builder after naming the machine `n`: an unnamed ephemeral identity
/// becomes the named agent's persistent key.
pub open spec fn named(b: BuilderView, n: Seq<char>) -> BuilderView {
    BuilderView {
        name: Some(n),
        identity: if b.identity is Ephemeral {
            IdentityView::Name(n)
        } else {
            b.identity
        },
        ..b
    }
}

/// The message of a participant prefix that trims to nothing.
pub open spec fn empty_participant_message() -> Seq<char> {
    "participant prefix cannot be empty"@
}

/// The builder after setting participant prefix `p`: trimmed of whitespace
/// and then of `/`, or an error when nothing is left.
pub open spec fn with_participant(b: BuilderView, p: Seq<char>) -> BuilderView {
    let t = trim_slashes(trim(p));
    if t.len() == 0 {
        BuilderView { errors: b.errors.push(empty_participant_message()), ..b }
    } else {
        BuilderView { participant: Some(t), ..b }
    }
}

/// Configuration problems joined by `"; "`.
pub open spec fn join_errors(s: Seq<Seq<char>>) -> Seq<char>
    decreases s.len(),
{
    if s.len() == 0 {
        Seq::empty()
    } else if s.len() == 1 {
        s[0]
    } else {
        join_errors(s.drop_last()) + "; "@ + s.last()
    }
}

/// The machine name an agent goes by: its configured name, else `machine`.
pub open spec fn machine_name_of(b: BuilderView) -> Seq<char> {
    match b.name {
        Some(n) => n,
        None => "machine"@,
    }
}

/// Which peers the transport lets connect.
#[derive(Debug)]
pub struct InboundPolicy {
    /// Whether any peer may connect.
    pub any_peer: bool,
    /// Peers allowed by identity.
    pub peers: Vec<EndpointBytes>,
}

fn copy_ids(ids: &Vec<EndpointBytes>) -> (r: Vec<EndpointBytes>)
    ensures
        r@ == ids@,
{
    super::mode::copy_ids(ids)
}

/// Whether `list` holds `peer`.
fn holds(list: &Vec<EndpointBytes>, peer: &EndpointBytes) -> (r: bool)
    ensures
        r == holds_id(list@, *peer),
{
    let mut i: usize = 0;
    while i < list.len()
        invariant
            i <= list@.len(),
            forall|j: int| 0 <= j < i ==> (#[trigger] list@[j])@ != peer@,
        decreases list@.len() - i,
    {
        if bytes_eq(&list[i], peer) {
            return true;
        }
        i = i + 1;
    }
    false
}

/// Append `peer` to `list` unless it already holds it.
pub fn push_unique(list: &mut Vec<EndpointBytes>, peer: EndpointBytes)
    ensures
        final(list)@ == add_id(old(list)@, peer),
{
    if !holds(list, &peer) {
        list.push(peer);
    }
}

impl AgentBuilder {
    /// A fresh builder.
    pub fn new() -> (b: Self)
        ensures
            b@ == default_builder(),
    {
        let b = AgentBuilder {
            name: None,
            participant: None,
            identity_source: IdentitySource::Ephemeral,
            directory_mode: DirectoryMode::Replicated,
            bootstrap_peers: Vec::new(),
            allowed_peers: Vec::new(),
            configuration_errors: Vec::new(),
            allow_any_peer: false,
            no_relay: false,
            skip_shm: false,
            rendezvous: true,
            lease_duration_ms: DEFAULT_LEASE_DURATION_MS,
            control_timeout_ms: DEFAULT_CONTROL_TIMEOUT_MS,
        };
        assert(b@.errors =~= Seq::<Seq<char>>::empty());
        b
    }

    /// Name this machine; an unnamed ephemeral identity becomes the named
    /// agent's persistent key.
    pub fn name(self, name: &str) -> (r: Self)
        ensures
            r@ == named(self@, name@),
    {
        let mut b = self;
        if matches!(b.identity_source, IdentitySource::Ephemeral) {
            b.identity_source = IdentitySource::Name(String::from_str(name));
        }
        b.name = Some(String::from_str(name));
        b
    }

    /// Set the prefix of this agent's own relative topics.
    pub fn participant(self, participant: &str) -> (r: Self)
        ensures
            r@ == with_participant(self@, participant@),
    {
        let mut b = self;
        let trimmed = trim_participant(participant);
        if trimmed.as_str().is_empty() {
            let ghost e0 = b@.errors;
            b.configuration_errors.push(String::from_str("participant prefix cannot be empty"));
            assert(b@.errors =~= e0.push(empty_participant_message()));
        } else {
            b.participant = Some(trimmed);
        }
        b
    }

    /// Set where the identity key comes from.
    pub fn identity(self, source: IdentitySource) -> (r: Self)
        ensures
            r@ == (BuilderView { identity: source@, ..self@ }),
    {
        let mut b = self;
        b.identity_source = source;
        b
    }

    /// Load or create the identity key in the file at `path`.
    pub fn machine_key_file(self, path: &str) -> (r: Self)
        ensures
            r@ == (BuilderView { identity: IdentityView::File(path@), ..self@ }),
    {
        let mut b = self;
        b.identity_source = IdentitySource::File(String::from_str(path));
        b
    }

    /// Set how topics are resolved.
    pub fn directory(self, mode: DirectoryMode) -> (r: Self)
        ensures
            r@ == (BuilderView { mode, ..self@ }),
    {
        let mut b = self;
        b.directory_mode = mode;
        b
    }

    /// Add outbound directory seeds, each already converted to an endpoint
    /// (a conversion failure is kept as a configuration problem).
    pub fn bootstrap(self, peers: Vec<Result<EndpointBytes>>) -> (r: Self)
        ensures
            ({
                let (s, e) = add_peers(
                    self@.bootstrap,
                    self@.errors,
                    peers@.map_values(|p: Result<EndpointBytes>| peer_view(p)),
                );
                r@ == (BuilderView { bootstrap: s, errors: e, ..self@ })
            }),
    {
        let mut b = self;
        let ghost b0 = b@;
        let ghost pv = peers@.map_values(|p: Result<EndpointBytes>| peer_view(p));
        let mut i: usize = 0;
        assert(pv.take(0) =~= Seq::<core::result::Result<EndpointBytes, ErrorView>>::empty());
        while i < peers.len()
            invariant
                i <= peers@.len(),
                pv == peers@.map_values(|p: Result<EndpointBytes>| peer_view(p)),
                ({
                    let (s, e) = add_peers(b0.bootstrap, b0.errors, pv.take(i as int));
                    b@ == (BuilderView { bootstrap: s, errors: e, ..b0 })
                }),
            decreases peers@.len() - i,
        {
            assert(pv.take(i + 1).drop_last() =~= pv.take(i as int));
            assert(pv[i as int] == peer_view(peers@[i as int]));
            match &peers[i] {
                Ok(peer) => push_unique(&mut b.bootstrap_peers, *peer),
                Err(error) => {
                    let ghost e0 = b@.errors;
                    b.configuration_errors.push(error.message());
                    assert(b@.errors =~= e0.push(error_message(error@)));
                },
            }
            i = i + 1;
        }
        assert(pv.take(peers@.len() as int) =~= pv);
        b
    }

    /// Allow one peer, already converted, to connect (a conversion failure
    /// is kept as a configuration problem).
    pub fn allow_peer(self, peer: Result<EndpointBytes>) -> (r: Self)
        ensures
            ({
                let (s, e) = add_peers(self@.allowed, self@.errors, seq![peer_view(peer)]);
                r@ == (BuilderView { allowed: s, errors: e, ..self@ })
            }),
    {
        let mut b = self;
        let ghost b0 = b@;
        assert(seq![peer_view(peer)].drop_last() =~= Seq::<
            core::result::Result<EndpointBytes, ErrorView>,
        >::empty());
        proof {
            reveal_with_fuel(add_peers, 2);
        }
        match peer {
            Ok(p) => push_unique(&mut b.allowed_peers, p),
            Err(error) => {
                b.configuration_errors.push(error.message());
                assert(b@.errors =~= b0.errors.push(error_message(error@)));
            },
        }
        b
    }

    /// Allow several peers, already converted, to connect.
    pub fn allow_peers(self, peers: Vec<Result<EndpointBytes>>) -> (r: Self)
        ensures
            ({
                let (s, e) = add_peers(
                    self@.allowed,
                    self@.errors,
                    peers@.map_values(|p: Result<EndpointBytes>| peer_view(p)),
                );
                r@ == (BuilderView { allowed: s, errors: e, ..self@ })
            }),
    {
        let mut b = self;
        let ghost b0 = b@;
        let ghost pv = peers@.map_values(|p: Result<EndpointBytes>| peer_view(p));
        let mut i: usize = 0;
        assert(pv.take(0) =~= Seq::<core::result::Result<EndpointBytes, ErrorView>>::empty());
        while i < peers.len()
            invariant
                i <= peers@.len(),
                pv == peers@.map_values(|p: Result<EndpointBytes>| peer_view(p)),
                ({
                    let (s, e) = add_peers(b0.allowed, b0.errors, pv.take(i as int));
                    b@ == (BuilderView { allowed: s, errors: e, ..b0 })
                }),
            decreases peers@.len() - i,
        {
            assert(pv.take(i + 1).drop_last() =~= pv.take(i as int));
            assert(pv[i as int] == peer_view(peers@[i as int]));
            match &peers[i] {
                Ok(peer) => push_unique(&mut b.allowed_peers, *peer),
                Err(error) => {
                    let ghost e0 = b@.errors;
                    b.configuration_errors.push(error.message());
                    assert(b@.errors =~= e0.push(error_message(error@)));
                },
            }
            i = i + 1;
        }
        assert(pv.take(peers@.len() as int) =~= pv);
        b
    }

    /// Let any peer connect.
    pub fn allow_any_peer(self) -> (r: Self)
        ensures
            r@ == (BuilderView { allow_any_peer: true, ..self@ }),
    {
        let mut b = self;
        b.allow_any_peer = true;
        b
    }

    /// Disable relay fallback.
    pub fn no_relay(self) -> (r: Self)
        ensures
            r@ == (BuilderView { no_relay: true, ..self@ }),
    {
        let mut b = self;
        b.no_relay = true;
        b
    }

    /// Skip shared-memory transport.
    pub fn skip_shm(self) -> (r: Self)
        ensures
            r@ == (BuilderView { skip_shm: true, ..self@ }),
    {
        let mut b = self;
        b.skip_shm = true;
        b
    }

    /// Write no host-local rendezvous record.
    pub fn no_rendezvous(self) -> (r: Self)
        ensures
            r@ == (BuilderView { rendezvous: false, ..self@ }),
    {
        let mut b = self;
        b.rendezvous = false;
        b
    }

    /// Set the signed record lease, at least [`MIN_LEASE_DURATION_MS`].
    pub fn lease_duration(self, lease_ms: u64) -> (r: Self)
        ensures
            r@ == (BuilderView {
                lease_duration_ms: if lease_ms < MIN_LEASE_DURATION_MS {
                    MIN_LEASE_DURATION_MS
                } else {
                    lease_ms
                },
                ..self@
            }),
    {
        let mut b = self;
        b.lease_duration_ms = if lease_ms < MIN_LEASE_DURATION_MS {
            MIN_LEASE_DURATION_MS
        } else {
            lease_ms
        };
        b
    }

    /// Set the deadline of directory control operations, at least
    /// [`MIN_CONTROL_TIMEOUT_MS`].
    pub fn control_timeout(self, timeout_ms: u64) -> (r: Self)
        ensures
            r@ == (BuilderView {
                control_timeout_ms: if timeout_ms < MIN_CONTROL_TIMEOUT_MS {
                    MIN_CONTROL_TIMEOUT_MS
                } else {
                    timeout_ms
                },
                ..self@
            }),
    {
        let mut b = self;
        b.control_timeout_ms = if timeout_ms < MIN_CONTROL_TIMEOUT_MS {
            MIN_CONTROL_TIMEOUT_MS
        } else {
            timeout_ms
        };
        b
    }

    /// Refuse to build when configuring found problems: all of them, joined
    /// by `"; "`, as one configuration error.
    pub fn check(&self) -> (r: Result<()>)
        ensures
            r is Ok <==> self@.errors.len() == 0,
            r matches Err(e) ==> e@ == ErrorView::Configuration(join_errors(self@.errors)),
    {
        let n = self.configuration_errors.len();
        if n == 0 {
            return Ok(());
        }
        let ghost es = self@.errors;
        let mut text = self.configuration_errors[0].clone();
        let mut i: usize = 1;
        assert(es.take(1).drop_last() =~= Seq::<Seq<char>>::empty());
        while i < n
            invariant
                1 <= i <= n,
                n == self.configuration_errors@.len(),
                es == self@.errors,
                text@ == join_errors(es.take(i as int)),
            decreases n - i,
        {
            assert(es.take(i + 1).drop_last() =~= es.take(i as int));
            assert(es[i as int] == self.configuration_errors@[i as int]@);
            text = text.concat("; ").concat(self.configuration_errors[i].as_str());
            i = i + 1;
        }
        assert(es.take(n as int) =~= es);
        Err(Error::Configuration(text))
    }

    /// The machine name the agent goes by.
    pub fn machine_name(&self) -> (r: String)
        ensures
            r@ == machine_name_of(self@),
    {
        match &self.name {
            Some(n) => n.clone(),
            None => String::from_str("machine"),
        }
    }

    /// Which peers may connect to an agent with identity `endpoint_id`:
    /// any peer, or the agent itself; then every allowed peer.
    pub fn inbound_policy(&self, endpoint_id: &EndpointBytes) -> (r: InboundPolicy)
        ensures
            r.any_peer == self.allow_any_peer,
            r.peers@ == if self.allow_any_peer {
                self.allowed_peers@
            } else {
                seq![*endpoint_id] + self.allowed_peers@
            },
    {
        let mut peers: Vec<EndpointBytes> = Vec::new();
        if !self.allow_any_peer {
            peers.push(*endpoint_id);
        }
        let ghost base = peers@;
        let mut i: usize = 0;
        while i < self.allowed_peers.len()
            invariant
                i <= self.allowed_peers@.len(),
                peers@ == base + self.allowed_peers@.take(i as int),
            decreases self.allowed_peers@.len() - i,
        {
            peers.push(self.allowed_peers[i]);
            assert(self.allowed_peers@.take(i + 1) =~= self.allowed_peers@.take(i as int).push(
                self.allowed_peers@[i as int],
            ));
            i = i + 1;
        }
        assert(self.allowed_peers@.take(self.allowed_peers@.len() as int) =~= self.allowed_peers@);
        if !self.allow_any_peer {
            assert(peers@ =~= seq![*endpoint_id] + self.allowed_peers@);
        } else {
            assert(peers@ =~= self.allowed_peers@);
        }
        InboundPolicy { any_peer: self.allow_any_peer, peers }
    }
}

/// The options of the scripting binding's agent constructor, each peer
/// already converted to an endpoint or to the message of its conversion
/// failure.
#[derive(Debug)]
pub struct AgentOptions {
    /// Machine name.
    pub name: Option<String>,
    /// Identity key file.
    pub key_file: Option<String>,
    /// Identity secret key bytes (32 expected).
    pub secret_key: Option<Vec<u8>>,
    /// Use a fresh in-memory key.
    pub random: bool,
    /// Participant prefix.
    pub participant: Option<String>,
    /// Directory seeds.
    pub bootstrap: Vec<core::result::Result<EndpointBytes, String>>,
    /// Front-door directory authority.
    pub front_door: Option<core::result::Result<EndpointBytes, String>>,
    /// Peers allowed to connect.
    pub allow: Vec<core::result::Result<EndpointBytes, String>>,
    /// Let any peer connect.
    pub allow_any: bool,
    /// Disable relay fallback.
    pub no_relay: bool,
    /// Skip shared-memory transport.
    pub skip_shm: bool,
    /// Write a rendezvous record.
    pub rendezvous: bool,
    /// Record lease.
    pub lease_ms: Option<u64>,
    /// Control deadline.
    pub control_timeout_ms: Option<u64>,
}

/// The first conversion failure among `ps`, by its message.
pub open spec fn first_peer_error(ps: Seq<core::result::Result<EndpointBytes, String>>) -> Option<
    Seq<char>,
>
    decreases ps.len(),
{
    if ps.len() == 0 {
        None
    } else {
        match first_peer_error(ps.drop_last()) {
            Some(m) => Some(m),
            None => match ps.last() {
                Err(m) => Some(m@),
                Ok(_) => None,
            },
        }
    }
}

/// The converted peers of `ps` added in order to `s`, without repeats.
pub open spec fn add_ok_ids(
    s: Seq<EndpointBytes>,
    ps: Seq<core::result::Result<EndpointBytes, String>>,
) -> Seq<EndpointBytes>
    decreases ps.len(),
{
    if ps.len() == 0 {
        s
    } else {
        let s1 = add_ok_ids(s, ps.drop_last());
        match ps.last() {
            Ok(p) => add_id(s1, p),
            Err(_) => s1,
        }
    }
}

/// The message of secret key bytes of the wrong length.
pub open spec fn secret_length_message(n: nat) -> Seq<char> {
    "secret_key must be 32 bytes, got "@ + decimal(n)
}

/// The builder after the identity-related options and the participant:
/// name, key file, secret key (which must be 32 bytes), random key.
pub open spec fn options_base(o: AgentOptions) -> core::result::Result<BuilderView, Seq<char>> {
    let b1 = match o.name {
        Some(n) => named(default_builder(), n@),
        None => default_builder(),
    };
    let b2 = match o.key_file {
        Some(p) => BuilderView { identity: IdentityView::File(p@), ..b1 },
        None => b1,
    };
    if o.secret_key is Some && o.secret_key->Some_0@.len() != 32 {
        Err(secret_length_message(o.secret_key->Some_0@.len()))
    } else {
        let b3 = match o.secret_key {
            Some(k) => BuilderView { identity: IdentityView::Key(k@), ..b2 },
            None => b2,
        };
        let b4 = if o.random {
            BuilderView { identity: IdentityView::Random, ..b3 }
        } else {
            b3
        };
        Ok(
            match o.participant {
                Some(p) => with_participant(b4, p@),
                None => b4,
            },
        )
    }
}

/// `b` after the peer options: seeds, front door (a seed too), allowed
/// peers; the first conversion failure among them ends it.
pub open spec fn options_peers(b: BuilderView, o: AgentOptions) -> core::result::Result<
    BuilderView,
    Seq<char>,
> {
    match first_peer_error(o.bootstrap@) {
        Some(m) => Err(m),
        None => {
            let b6 = BuilderView { bootstrap: add_ok_ids(b.bootstrap, o.bootstrap@), ..b };
            match o.front_door {
                Some(Err(m)) => Err(m@),
                _ => {
                    let b7 = match o.front_door {
                        Some(Ok(id)) => BuilderView {
                            bootstrap: add_id(b6.bootstrap, id),
                            mode: DirectoryMode::FrontDoor(id),
                            ..b6
                        },
                        _ => b6,
                    };
                    match first_peer_error(o.allow@) {
                        Some(m) => Err(m),
                        None => Ok(BuilderView { allowed: add_ok_ids(b7.allowed, o.allow@), ..b7 }),
                    }
                },
            }
        },
    }
}

/// `b` after the switches, the lease and the deadline.
pub open spec fn options_switches(b: BuilderView, o: AgentOptions) -> BuilderView {
    BuilderView {
        allow_any_peer: b.allow_any_peer || o.allow_any,
        no_relay: b.no_relay || o.no_relay,
        skip_shm: b.skip_shm || o.skip_shm,
        rendezvous: b.rendezvous && o.rendezvous,
        lease_duration_ms: match o.lease_ms {
            Some(ms) => if ms < MIN_LEASE_DURATION_MS {
                MIN_LEASE_DURATION_MS
            } else {
                ms
            },
            None => b.lease_duration_ms,
        },
        control_timeout_ms: match o.control_timeout_ms {
            Some(ms) => if ms < MIN_CONTROL_TIMEOUT_MS {
                MIN_CONTROL_TIMEOUT_MS
            } else {
                ms
            },
            None => b.control_timeout_ms,
        },
        ..b
    }
}

/// The builder the options describe, applied in the binding's order, or
/// the message of the first problem met on the way.
pub open spec fn options_result(o: AgentOptions) -> core::result::Result<BuilderView, Seq<char>> {
    match options_base(o) {
        Err(m) => Err(m),
        Ok(b) => match options_peers(b, o) {
            Err(m) => Err(m),
            Ok(b2) => Ok(options_switches(b2, o)),
        },
    }
}

/// The first conversion failure among `peers`, if any.
fn first_failure(peers: &Vec<core::result::Result<EndpointBytes, String>>) -> (r: Option<String>)
    ensures
        opt_text(r) == first_peer_error(peers@),
{
    let mut i: usize = 0;
    assert(peers@.take(0) =~= Seq::<core::result::Result<EndpointBytes, String>>::empty());
    while i < peers.len()
        invariant
            i <= peers@.len(),
            first_peer_error(peers@.take(i as int)) is None,
        decreases peers@.len() - i,
    {
        assert(peers@.take(i + 1).drop_last() =~= peers@.take(i as int));
        match &peers[i] {
            Err(m) => {
                proof {
                    lemma_first_error_prefix(peers@, i as int + 1);
                }
                return Some(m.clone());
            },
            Ok(_) => {},
        }
        i = i + 1;
    }
    assert(peers@.take(peers@.len() as int) =~= peers@);
    None
}

/// A failure within a prefix is the first failure of the whole.
proof fn lemma_first_error_prefix(ps: Seq<core::result::Result<EndpointBytes, String>>, n: int)
    requires
        0 <= n <= ps.len(),
        first_peer_error(ps.take(n)) is Some,
    ensures
        first_peer_error(ps) == first_peer_error(ps.take(n)),
    decreases ps.len() - n,
{
    if n < ps.len() {
        assert(ps.take(n + 1).drop_last() =~= ps.take(n));
        lemma_first_error_prefix(ps, n + 1);
    } else {
        assert(ps.take(n) =~= ps);
    }
}

/// Add every converted peer of `peers` to `list`, without repeats.
fn add_converted(list: &mut Vec<EndpointBytes>, peers: &Vec<core::result::Result<EndpointBytes, String>>)
    ensures
        final(list)@ == add_ok_ids(old(list)@, peers@),
{
    let ghost s0 = list@;
    let mut i: usize = 0;
    assert(peers@.take(0) =~= Seq::<core::result::Result<EndpointBytes, String>>::empty());
    while i < peers.len()
        invariant
            i <= peers@.len(),
            list@ == add_ok_ids(s0, peers@.take(i as int)),
        decreases peers@.len() - i,
    {
        assert(peers@.take(i + 1).drop_last() =~= peers@.take(i as int));
        match &peers[i] {
            Ok(p) => push_unique(list, *p),
            Err(_) => {},
        }
        i = i + 1;
    }
    assert(peers@.take(peers@.len() as int) =~= peers@);
}

impl AgentBuilder {
    /// A builder with the identity-related options and the participant.
    fn options_base_builder(options: &AgentOptions) -> (r: core::result::Result<AgentBuilder, String>)
        ensures
            match options_base(*options) {
                Ok(v) => r matches Ok(b) && b@ == v,
                Err(m) => r matches Err(t) && t@ == m,
            },
    {
        let mut b = AgentBuilder::new();
        match &options.name {
            Some(n) => {
                b = b.name(n.as_str());
            },
            None => {},
        }
        match &options.key_file {
            Some(p) => {
                b = b.identity(IdentitySource::File(p.clone()));
            },
            None => {},
        }
        match &options.secret_key {
            Some(bytes) => {
                if bytes.len() != 32 {
                    let n = u64_to_decimal(bytes.len() as u64);
                    return Err(String::from_str("secret_key must be 32 bytes, got ").concat(n.as_str()));
                }
                let mut key: SecretBytes = [0u8; 32];
                let mut i: usize = 0;
                while i < 32
                    invariant
                        i <= 32,
                        bytes@.len() == 32,
                        key@.len() == 32,
                        forall|j: int| 0 <= j < i ==> key@[j] == bytes@[j],
                    decreases 32 - i,
                {
                    key[i] = bytes[i];
                    i = i + 1;
                }
                assert(key@ =~= bytes@);
                b = b.identity(IdentitySource::Key(key));
            },
            None => {},
        }
        if options.random {
            b = b.identity(IdentitySource::Random);
        }
        match &options.participant {
            Some(p) => {
                b = b.participant(p.as_str());
            },
            None => {},
        }
        Ok(b)
    }

    /// `self` with the peer options added.
    fn with_option_peers(self, options: &AgentOptions) -> (r: core::result::Result<AgentBuilder, String>)
        ensures
            match options_peers(self@, *options) {
                Ok(v) => r matches Ok(b) && b@ == v,
                Err(m) => r matches Err(t) && t@ == m,
            },
    {
        let mut b = self;
        match first_failure(&options.bootstrap) {
            Some(m) => {
                return Err(m);
            },
            None => {},
        }
        add_converted(&mut b.bootstrap_peers, &options.bootstrap);
        match &options.front_door {
            Some(Err(m)) => {
                return Err(m.clone());
            },
            Some(Ok(id)) => {
                push_unique(&mut b.bootstrap_peers, *id);
                b.directory_mode = DirectoryMode::FrontDoor(*id);
            },
            None => {},
        }
        match first_failure(&options.allow) {
            Some(m) => {
                return Err(m);
            },
            None => {},
        }
        add_converted(&mut b.allowed_peers, &options.allow);
        Ok(b)
    }

    /// `self` with the switches, the lease and the deadline.
    fn with_option_switches(self, options: &AgentOptions) -> (r: AgentBuilder)
        ensures
            r@ == options_switches(self@, *options),
    {
        let mut b = self;
        if options.allow_any {
            b = b.allow_any_peer();
        }
        if options.no_relay {
            b = b.no_relay();
        }
        if options.skip_shm {
            b = b.skip_shm();
        }
        if !options.rendezvous {
            b = b.no_rendezvous();
        }
        match options.lease_ms {
            Some(ms) => {
                b = b.lease_duration(ms);
            },
            None => {},
        }
        match options.control_timeout_ms {
            Some(ms) => {
                b = b.control_timeout(ms);
            },
            None => {},
        }
        b
    }

    /// Fill a builder from the scripting binding's options, or report the
    /// first problem with them.
    pub fn from_options(options: AgentOptions) -> (r: core::result::Result<AgentBuilder, String>)
        ensures
            match options_result(options) {
                Ok(v) => r matches Ok(b) && b@ == v,
                Err(m) => r matches Err(t) && t@ == m,
            },
    {
        let base = AgentBuilder::options_base_builder(&options)?;
        let peered = base.with_option_peers(&options)?;
        Ok(peered.with_option_switches(&options))
    }
}

} // verus!
