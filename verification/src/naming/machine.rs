//! Machines and the participants they host.
use vstd::prelude::*;

use crate::agent::builder::opt_text;
use crate::directory::entry::EndpointBytes;

verus! {

/// One transport node bound to one endpoint identity.
#[derive(Debug, Clone)]
pub struct Machine {
    /// Endpoint identity of the machine.
    pub endpoint_id: EndpointBytes,
    /// Friendly machine name (e.g. "head", "base", "arm").
    pub name: Option<String>,
}

impl Machine {
    /// A machine with an optional name.
    pub fn new(endpoint_id: EndpointBytes, name: Option<&str>) -> (m: Self)
        ensures
            m.endpoint_id == endpoint_id,
            opt_text(m.name) == match name {
                Some(n) => Some(n@),
                None => None::<Seq<char>>,
            },
    {
        Machine {
            endpoint_id,
            name: match name {
                Some(n) => Some(String::from_str(n)),
                None => None,
            },
        }
    }
}

/// A logical module (such as `camera` or `planner`) running on a machine.
#[derive(Debug, Clone)]
pub struct Participant {
    /// Logical name of the participant.
    pub name: String,
    /// Machine hosting this participant.
    pub machine_id: EndpointBytes,
}

} // verus!
