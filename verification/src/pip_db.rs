//! Routing directions of the learned programmable-interconnect database.

use vstd::prelude::*;

verus! {

/// The reach of a routing resource.
#[derive(Debug, Clone, Copy, PartialEq, Eq, Hash, Structural)]
pub enum RoutingDirection {
    Local,
    Short,
    Medium,
    Long,
    InterCol,
}

} // verus!
