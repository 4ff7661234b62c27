//! The control-plane state an agent keeps besides its transport handles.
use vstd::prelude::*;

use super::builder::{AgentBuilder, machine_name_of, opt_text};
use super::hosting::{HostedView, HostingState};
use super::mode::{DirectoryMode, copy_ids};
use crate::directory::entry::{EndpointBytes, EntryView};
use crate::directory::health::{ControlPlaneHealth, DirectoryHealth};
use crate::directory::order::TopicKey;
use crate::directory::store::Directory;
use crate::naming::table::NameTable;

verus! {

/// An agent's directory, names, counters, hosted records and settings.
#[derive(Debug)]
pub struct AgentState {
    /// The local directory.
    pub directory: Directory,
    /// Machine names.
    pub names: NameTable,
    /// Control-plane counters.
    pub health: ControlPlaneHealth,
    /// Hosted records and owner revisions.
    pub hosting: HostingState,
    /// This machine's endpoint identity.
    pub endpoint_id: EndpointBytes,
    /// The name this machine goes by.
    pub machine_name: String,
    /// Prefix of this agent's own relative topics.
    pub participant: Option<String>,
    /// How topics are resolved.
    pub mode: DirectoryMode,
    /// Outbound directory seeds.
    pub seeds: Vec<EndpointBytes>,
    /// Peers allowed to connect.
    pub allowed_peers: Vec<EndpointBytes>,
    /// Whether any peer may connect.
    pub allow_any_peer: bool,
    /// Whether relay fallback is disabled.
    pub no_relay: bool,
    /// Whether shared-memory transport is skipped.
    pub skip_shm: bool,
    /// Signed record lease.
    pub lease_duration_ms: u64,
    /// Deadline of directory control operations.
    pub control_timeout_ms: u64,
}

impl AgentState {
    /// The parts are internally consistent.
    pub open spec fn wf(&self) -> bool {
        &&& self.directory.wf()
        &&& self.names.wf()
        &&& self.hosting.wf()
    }

    /// The state of a freshly built agent with identity `endpoint_id`: an
    /// empty directory, its own machine name registered, zero counters,
    /// nothing hosted, and owner revisions starting at `revision_seed`.
    pub fn new(builder: &AgentBuilder, endpoint_id: EndpointBytes, revision_seed: u64) -> (s: Self)
        ensures
            s.wf(),
            s.directory@.entries == Map::<TopicKey, EntryView>::empty(),
            s.directory@.generation == 0,
            s.names@.supports == Seq::<(Seq<char>, Seq<u8>)>::empty(),
            s.names@.explicit == seq![(machine_name_of(builder@), endpoint_id@)],
            s.names@.mappings == map![machine_name_of(builder@) => endpoint_id@],
            s.health@ == (DirectoryHealth {
                successful_announcements: 0,
                announcement_failures: 0,
                resolver_errors: 0,
                rejected_records: 0,
                last_successful_reconciliation_ms: 0,
                stale_seeds: 0,
                conflicts: 0,
                pending_announcements: 0,
            }),
            s.hosting@.hosted == Seq::<HostedView>::empty(),
            s.hosting@.withdrawn == Set::<TopicKey>::empty(),
            s.hosting@.next_revision == revision_seed,
            s.endpoint_id == endpoint_id,
            s.machine_name@ == machine_name_of(builder@),
            opt_text(s.participant) == builder@.participant,
            s.mode == builder.directory_mode,
            s.seeds@ == builder.bootstrap_peers@,
            s.allowed_peers@ == builder.allowed_peers@,
            s.allow_any_peer == builder.allow_any_peer,
            s.no_relay == builder.no_relay,
            s.skip_shm == builder.skip_shm,
            s.lease_duration_ms == builder.lease_duration_ms,
            s.control_timeout_ms == builder.control_timeout_ms,
    {
        let machine_name = builder.machine_name();
        let mut names = NameTable::new();
        names.register(machine_name.as_str(), endpoint_id);
        proof {
            crate::naming::table::lemma_single_explicit(names@, machine_name@, endpoint_id@);
        }
        AgentState {
            directory: Directory::new(),
            names,
            health: ControlPlaneHealth::new(),
            hosting: HostingState::new(revision_seed),
            endpoint_id,
            machine_name,
            participant: match &builder.participant {
                Some(p) => Some(p.clone()),
                None => None,
            },
            mode: builder.directory_mode,
            seeds: copy_ids(&builder.bootstrap_peers),
            allowed_peers: copy_ids(&builder.allowed_peers),
            allow_any_peer: builder.allow_any_peer,
            no_relay: builder.no_relay,
            skip_shm: builder.skip_shm,
            lease_duration_ms: builder.lease_duration_ms,
            control_timeout_ms: builder.control_timeout_ms,
        }
    }
}

} // verus!
