//! Verified core of a navmesh library: area masks and filters, the polygon graph of a baked
//! surface (portal extraction and neighbour expansion), corridor reconstruction and query
//! decisions, primitive triangle layouts, follower decisions and the bake/query lifecycle.
pub mod area;
pub mod bake;
pub mod follow;
pub mod key_order;
pub mod lifecycle;
pub mod path;
pub mod portals;
pub mod primitives;
pub mod search;
pub mod topology;

pub use crate::area::{NavmeshArea, NavmeshAreaMask, NavmeshFilterMasks, find_area_cost};
pub use crate::bake::{
    NavmeshBakeError, NavmeshPolygonRecord, NavmeshSourceKind, NavmeshTriangleOrigin,
    assemble_polygons,
};
pub use crate::follow::{NavmeshFollowProgress, NavmeshPathIdCounter, advance_waypoint_index};
pub use crate::key_order::{EdgeKey, QuantizedPoint};
pub use crate::lifecycle::{
    count_sources_per_surface, NavmeshBakeCounts, NavmeshBakeLifecycle, NavmeshBakeState, NavmeshDirtyReason,
    NavmeshRequestAction, NavmeshResultHeader,
};
pub use crate::path::{
    NavmeshLinkId, NavmeshPathId, NavmeshPathSmoothing, NavmeshPathStatus, NavmeshPathTransition,
    NavmeshProjectionPolicy,
};
pub use crate::portals::{
    PortalExtraction, PortalLinks, edge_key, extract_portals, link_portals, pair_shared_edges,
};
pub use crate::search::{
    CorridorLeg, EndpointOutcome, NavmeshSearchSteps, PreviousStep, SearchCorridor,
    classify_endpoints, corridor_from_steps, corridor_legs, search_outcome,
};
pub use crate::topology::{
    NavmeshLinkEnds, NavmeshNeighbor, NavmeshPolygonLinks, NavmeshTopology, PathEdge,
    portal_other_side,
};
