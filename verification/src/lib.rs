//! `agentio`: signed, leased topic directory and naming logic for composing
//! authenticated peer endpoints by topic name.
use vstd::prelude::*;

pub mod agent;
pub mod directory;
pub mod error;
pub mod identity;
pub mod naming;
pub mod rendezvous;
pub mod text;

pub use agent::{AgentBuilder, AgentOptions, AgentState, DirectoryMode, IdentitySource};
pub use directory::{
    Directory, DirectoryHealth, ExchangeKind, RESOLUTION_TOPIC, ResolveRequest, ResolveResponse,
    TopicEntry, TopicRecordSpec, TopicWithdrawal,
};
pub use error::{Error, Result};
pub use naming::{Machine, NameTable, normalize_topic, qualify_participant_topic};
pub use rendezvous::{LocalAgent, find_local, find_local_did};

verus! {

} // verus!
