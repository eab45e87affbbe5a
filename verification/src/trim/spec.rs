//! What a consumer asks to keep.

use vstd::prelude::*;

verus! {

/// The allowlists a trim works from.
#[derive(Debug, Clone)]
pub struct TrimSpec {
    /// The prototypes to keep, by name.
    pub entities: Vec<String>,
    /// The fields kept from each prototype, whatever its type.
    pub entity_fields: Vec<String>,
    /// The keys kept from each pipe connection.
    pub connection_fields: Vec<String>,
    /// The fluid boxes whose pipe connections are kept.
    pub fluid_boxes: Vec<String>,
}

} // verus!
