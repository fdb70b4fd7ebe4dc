//! The order of tiers.

use std::cmp::Ordering;

use vstd::prelude::*;
use vstd::std_specs::cmp::{PartialOrdSpec, PartialOrdSpecImpl};

use crate::security::certificate::MeshTier;

verus! {

impl PartialOrdSpecImpl for MeshTier {
    open spec fn obeys_partial_cmp_spec() -> bool {
        true
    }

    open spec fn partial_cmp_spec(&self, other: &MeshTier) -> Option<Ordering> {
        if self.ordinal() < other.ordinal() {
            Some(Ordering::Less)
        } else if self.ordinal() > other.ordinal() {
            Some(Ordering::Greater)
        } else {
            Some(Ordering::Equal)
        }
    }
}

/// Tiers are ordered by their places in the hierarchy: lower means more trust.
impl PartialOrd for MeshTier {
    fn partial_cmp(&self, other: &MeshTier) -> (r: Option<Ordering>) {
        let (a, b): (u8, u8) = (self.to_byte(), other.to_byte());
        if a < b {
            Some(Ordering::Less)
        } else if a > b {
            Some(Ordering::Greater)
        } else {
            Some(Ordering::Equal)
        }
    }
}

/// One tier is below another exactly if its byte is, and only equal tiers have the same
/// byte; the tiers go from enterprise over regional and tactical to edge.
pub proof fn law_tier_order(a: MeshTier, b: MeshTier)
    ensures
        PartialOrdSpec::partial_cmp_spec(&a, &b) == Some(Ordering::Less) <==> a.ordinal() < b.ordinal(),
        PartialOrdSpec::partial_cmp_spec(&a, &b) == Some(Ordering::Greater) <==> a.ordinal() > b.ordinal(),
        PartialOrdSpec::partial_cmp_spec(&a, &b) == Some(Ordering::Equal) <==> a == b,
        MeshTier::Enterprise.ordinal() == 0 && MeshTier::Regional.ordinal() == 1 && MeshTier::Tactical.ordinal() == 2
            && MeshTier::Edge.ordinal() == 3,
{
}

} // verus!
