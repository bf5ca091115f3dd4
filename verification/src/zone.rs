//! Energy zones of a fleet and the stability rule built on them.

use vstd::prelude::*;

verus! {

/// Energy-based zone classification for a fleet.
#[derive(Debug, Clone, Copy, PartialEq, Eq, Structural, Hash)]
pub enum FleetZone {
    /// The system has collapsed to the origin.
    Dead,
    /// Weak but alive.
    Dying,
    /// The healthy living zone.
    Living,
    /// A strong coherent state.
    Strong,
    /// Overdriven; may become unstable.
    Overdriven,
}

/// The zones in which a fleet can be stable.
pub open spec fn supports_stability(zone: FleetZone) -> bool {
    zone == FleetZone::Living || zone == FleetZone::Strong
}

/// Only the `Living` and `Strong` zones support stability; `Dead`, `Dying`
/// and `Overdriven` never do.
pub proof fn lemma_stable_zones(zone: FleetZone)
    ensures
        supports_stability(zone) <==> (zone == FleetZone::Living || zone == FleetZone::Strong),
        !supports_stability(FleetZone::Dead),
        !supports_stability(FleetZone::Dying),
        !supports_stability(FleetZone::Overdriven),
{
}

/// A reading is stable when its zone is `Living` or `Strong` and the fleet's
/// alignment is above the bar (`well_aligned`).
pub fn is_stable(zone: FleetZone, well_aligned: bool) -> (stable: bool)
    ensures
        stable == (supports_stability(zone) && well_aligned),
        stable == ((zone == FleetZone::Living || zone == FleetZone::Strong) && well_aligned),
{
    let healthy = match zone {
        FleetZone::Living | FleetZone::Strong => true,
        _ => false,
    };
    healthy && well_aligned
}

} // verus!
