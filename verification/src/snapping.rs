//! Object-snap (OSNAP) toggles and snap kinds.
use vstd::prelude::*;

verus! {

/// Global OSNAP toggles (toolbar / command bar).
#[derive(Clone, Debug, PartialEq, Eq, Structural)]
pub struct OsnapState {
    pub enabled: bool,
    pub endpoint: bool,
    pub midpoint: bool,
    pub center: bool,
    pub intersection: bool,
    pub perpendicular: bool,
    pub tangent: bool,
    pub nearest: bool,
    pub quadrant: bool,
    pub node: bool,
}

impl Default for OsnapState {
    /// Snapping on, with endpoint, midpoint, center, intersection, quadrant
    /// and node snaps; perpendicular, tangent and nearest off.
    fn default() -> (r: Self)
        ensures
            r == (OsnapState {
                enabled: true,
                endpoint: true,
                midpoint: true,
                center: true,
                intersection: true,
                perpendicular: false,
                tangent: false,
                nearest: false,
                quadrant: true,
                node: true,
            }),
    {
        OsnapState {
            enabled: true,
            endpoint: true,
            midpoint: true,
            center: true,
            intersection: true,
            perpendicular: false,
            tangent: false,
            nearest: false,
            quadrant: true,
            node: true,
        }
    }
}

/// The kind of a snap point.
#[derive(Clone, Copy, Debug, PartialEq, Eq, Structural)]
pub enum SnapKind {
    Endpoint,
    Midpoint,
    Center,
    Quadrant,
    Intersection,
    Perpendicular,
    Tangent,
    Nearest,
    Node,
    /// Internal ortho helper while placing (not in OSNAP panel).
    Ortho,
    /// Internal parallel helper while placing.
    Parallel,
}

/// The marker text of a snap kind.
pub open spec fn snap_label(k: SnapKind) -> Seq<char> {
    match k {
        SnapKind::Endpoint => "END"@,
        SnapKind::Midpoint => "MID"@,
        SnapKind::Center => "CEN"@,
        SnapKind::Quadrant => "QUAD"@,
        SnapKind::Intersection => "INT"@,
        SnapKind::Perpendicular => "PERP"@,
        SnapKind::Tangent => "TAN"@,
        SnapKind::Nearest => "NEAR"@,
        SnapKind::Node => "NODE"@,
        SnapKind::Ortho => "ORTHO"@,
        SnapKind::Parallel => "PAR"@,
    }
}

/// The priority of a snap kind: among candidates within reach, a higher
/// priority wins.
pub open spec fn snap_priority(k: SnapKind) -> u8 {
    match k {
        SnapKind::Endpoint | SnapKind::Intersection | SnapKind::Center => 100,
        SnapKind::Midpoint | SnapKind::Quadrant | SnapKind::Node => 80,
        SnapKind::Perpendicular | SnapKind::Tangent => 60,
        SnapKind::Nearest => 40,
        SnapKind::Ortho | SnapKind::Parallel => 70,
    }
}

/// Whether the toggles let a snap of this kind through.
pub open spec fn snap_allowed(k: SnapKind, s: OsnapState) -> bool {
    s.enabled && match k {
        SnapKind::Endpoint => s.endpoint,
        SnapKind::Midpoint => s.midpoint,
        SnapKind::Center => s.center,
        SnapKind::Quadrant => s.quadrant,
        SnapKind::Intersection => s.intersection,
        SnapKind::Perpendicular => s.perpendicular,
        SnapKind::Tangent => s.tangent,
        SnapKind::Nearest => s.nearest,
        SnapKind::Node => s.node,
        SnapKind::Ortho | SnapKind::Parallel => true,
    }
}

impl SnapKind {
    pub fn label(self) -> (r: &'static str)
        ensures
            r@ == snap_label(self),
    {
        match self {
            SnapKind::Endpoint => "END",
            SnapKind::Midpoint => "MID",
            SnapKind::Center => "CEN",
            SnapKind::Quadrant => "QUAD",
            SnapKind::Intersection => "INT",
            SnapKind::Perpendicular => "PERP",
            SnapKind::Tangent => "TAN",
            SnapKind::Nearest => "NEAR",
            SnapKind::Node => "NODE",
            SnapKind::Ortho => "ORTHO",
            SnapKind::Parallel => "PAR",
        }
    }

    pub fn priority(self) -> (r: u8)
        ensures
            r == snap_priority(self),
    {
        match self {
            SnapKind::Endpoint | SnapKind::Intersection | SnapKind::Center => 100,
            SnapKind::Midpoint | SnapKind::Quadrant | SnapKind::Node => 80,
            SnapKind::Perpendicular | SnapKind::Tangent => 60,
            SnapKind::Nearest => 40,
            SnapKind::Ortho | SnapKind::Parallel => 70,
        }
    }

    pub fn allowed(self, state: &OsnapState) -> (r: bool)
        ensures
            r == snap_allowed(self, *state),
    {
        if !state.enabled {
            return false;
        }
        match self {
            SnapKind::Endpoint => state.endpoint,
            SnapKind::Midpoint => state.midpoint,
            SnapKind::Center => state.center,
            SnapKind::Quadrant => state.quadrant,
            SnapKind::Intersection => state.intersection,
            SnapKind::Perpendicular => state.perpendicular,
            SnapKind::Tangent => state.tangent,
            SnapKind::Nearest => state.nearest,
            SnapKind::Node => state.node,
            SnapKind::Ortho | SnapKind::Parallel => true,
        }
    }
}

/// With snapping switched off no kind is allowed; the placement helpers
/// (ortho, parallel) are allowed whenever snapping is on.
pub proof fn law_disabled_snaps_nothing(k: SnapKind, s: OsnapState)
    ensures
        !s.enabled ==> !snap_allowed(k, s),
        s.enabled && (k == SnapKind::Ortho || k == SnapKind::Parallel) ==> snap_allowed(k, s),
{
}

/// Geometric snaps of the end/intersection/center class outrank every other
/// kind, and nearest-point snaps rank below every other kind.
pub proof fn law_priority_order(k: SnapKind)
    ensures
        snap_priority(k) <= snap_priority(SnapKind::Endpoint),
        snap_priority(SnapKind::Nearest) <= snap_priority(k),
{
}

} // verus!
