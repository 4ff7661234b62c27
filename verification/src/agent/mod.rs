//! The agent's control plane: configuration, the decisions of its directory
//! resolver and control loop, and the records it hosts. The transport that
//! carries requests and replies stays outside; these functions take what it
//! delivered and say what to send next.
pub mod broadcast;
pub mod builder;
pub mod hosting;
pub mod mode;
pub mod query;
pub mod reconcile;
pub mod state;
pub mod resolver;
pub mod timing;

pub use builder::{AgentBuilder, AgentOptions, IdentitySource};
pub use mode::DirectoryMode;
pub use state::AgentState;
