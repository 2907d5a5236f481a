use vstd::prelude::*;

verus! {

/// Identifier of a path request; `0` is the unset id.
#[derive(Clone, Copy, Debug, PartialEq, Eq, Structural, Hash, Default)]
pub struct NavmeshPathId(pub u64);

/// Identifier of an off-mesh link: its index in the build input.
#[derive(Clone, Copy, Debug, PartialEq, Eq, Structural, Hash, Default)]
pub struct NavmeshLinkId(pub u32);

/// Outcome of a path query.
#[derive(Clone, Copy, Debug, PartialEq, Eq, Structural, Default)]
pub enum NavmeshPathStatus {
    #[default]
    Pending,
    Success,
    Partial,
    Unreachable,
    StartOutside,
    GoalOutside,
    InvalidSurface,
}

/// How a path point was reached.
#[derive(Clone, Copy, Debug, PartialEq, Eq, Structural, Default)]
pub enum NavmeshPathTransition {
    #[default]
    Surface,
    OffMeshLink(NavmeshLinkId),
}

/// Whether query endpoints off the mesh are projected onto it or rejected.
#[derive(Clone, Copy, Debug, PartialEq, Eq, Structural, Default)]
pub enum NavmeshProjectionPolicy {
    RequireOnMesh,
    #[default]
    ProjectToNearest,
}

/// How a corridor is turned into path points.
#[derive(Clone, Copy, Debug, PartialEq, Eq, Structural, Default)]
pub enum NavmeshPathSmoothing {
    /// Follow the portal midpoints of the corridor without string-pulling.
    Unsmoothed,
    #[default]
    Funnel,
}

} // verus!
