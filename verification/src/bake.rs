use vstd::prelude::*;

use crate::area::{NavmeshArea, NavmeshAreaMask};

verus! {

/// What a source contributes to a bake.
#[derive(Clone, Copy, Debug, PartialEq, Eq, Structural, Default)]
pub enum NavmeshSourceKind {
    /// Its triangles become walkable polygons.
    #[default]
    Walkable,
    /// Its footprint removes walkable triangles.
    Obstacle,
    /// It takes no part in the bake.
    Ignore,
}

/// Why a bake produced no surface.
#[derive(Clone, Debug)]
pub struct NavmeshBakeError {
    pub message: String,
}

impl NavmeshBakeError {
    pub fn new(message: &str) -> (error: Self)
        ensures
            error.message@ == message@,
    {
        NavmeshBakeError { message: message.to_owned() }
    }
}

/// The source data of a triangle that passed the walkability tests.
#[derive(Clone, Copy, Debug, PartialEq, Eq, Structural)]
pub struct NavmeshTriangleOrigin {
    pub area: NavmeshArea,
    pub mask: NavmeshAreaMask,
    pub source_id: u64,
}

/// The integer part of a baked polygon: its id, its three vertex indices, and what it inherits
/// from its source.
#[derive(Clone, Copy, Debug)]
pub struct NavmeshPolygonRecord {
    pub id: u32,
    pub vertices: [u32; 3],
    pub area: NavmeshArea,
    pub mask: NavmeshAreaMask,
    pub source_id: u64,
}

/// The error of a bake with no walkable polygon.
pub open spec fn no_walkable_polygons_message() -> Seq<char> {
    "navmesh bake produced no walkable polygons"@
}

/// Numbers the accepted triangles as polygons: polygon `i` owns the vertex slots `3 * i`,
/// `3 * i + 1` and `3 * i + 2` (its triangle's corners, copied in order) and inherits area, mask
/// and source id. A bake with no accepted triangle fails.
pub fn assemble_polygons(accepted: &Vec<NavmeshTriangleOrigin>) -> (polygons: Result<
    Vec<NavmeshPolygonRecord>,
    NavmeshBakeError,
>)
    requires
        3 * accepted@.len() <= u32::MAX + 1,
    ensures
        match polygons {
            Err(e) => accepted@.len() == 0 && e.message@ == no_walkable_polygons_message(),
            Ok(ps) => accepted@.len() > 0 && ps@.len() == accepted@.len() && forall|i: int|
                0 <= i < ps@.len() ==> #[trigger] ps@[i] == (NavmeshPolygonRecord {
                    id: i as u32,
                    vertices: [(3 * i) as u32, (3 * i + 1) as u32, (3 * i + 2) as u32],
                    area: accepted@[i].area,
                    mask: accepted@[i].mask,
                    source_id: accepted@[i].source_id,
                }),
        },
{
    if accepted.len() == 0 {
        proof {
            reveal_strlit("navmesh bake produced no walkable polygons");
        }
        return Err(NavmeshBakeError::new("navmesh bake produced no walkable polygons"));
    }
    let mut polygons: Vec<NavmeshPolygonRecord> = Vec::new();
    let mut i: usize = 0;
    while i < accepted.len()
        invariant
            3 * accepted@.len() <= u32::MAX + 1,
            i <= accepted@.len(),
            polygons@.len() == i,
            forall|j: int|
                0 <= j < i ==> #[trigger] polygons@[j] == (NavmeshPolygonRecord {
                    id: j as u32,
                    vertices: [(3 * j) as u32, (3 * j + 1) as u32, (3 * j + 2) as u32],
                    area: accepted@[j].area,
                    mask: accepted@[j].mask,
                    source_id: accepted@[j].source_id,
                }),
        decreases accepted@.len() - i,
    {
        let origin = accepted[i];
        let base = (3 * i) as u32;
        polygons.push(
            NavmeshPolygonRecord {
                id: i as u32,
                vertices: [base, base + 1, base + 2],
                area: origin.area,
                mask: origin.mask,
                source_id: origin.source_id,
            },
        );
        i += 1;
    }
    Ok(polygons)
}

} // verus!
