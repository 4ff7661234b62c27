//! Topic normalization, participant qualification and machine-name mappings.
pub mod topic;
pub mod table;
pub mod machine;

pub use machine::{Machine, Participant};
pub use table::NameTable;
pub use topic::{normalize_topic, qualify_participant_topic};
