use saddle_ai_navmesh::{
    classify_endpoints, corridor_from_steps, search_outcome, EndpointOutcome, NavmeshPathStatus,
    NavmeshProjectionPolicy, PathEdge, PreviousStep,
};

#[test]
fn corridor_walks_back_to_the_start() {
    let previous = vec![
        None,
        Some(PreviousStep { previous_polygon: 0, via: PathEdge::Portal(4) }),
        Some(PreviousStep { previous_polygon: 1, via: PathEdge::Link { link_index: 2, forward: true } }),
        None,
    ];
    let corridor = corridor_from_steps(&previous, 2).unwrap();
    assert_eq!(corridor.polygons, vec![0, 1, 2]);
    assert_eq!(
        corridor.steps,
        vec![PathEdge::Portal(4), PathEdge::Link { link_index: 2, forward: true }]
    );

    let single = corridor_from_steps(&previous, 3).unwrap();
    assert_eq!(single.polygons, vec![3]);
    assert!(single.steps.is_empty());
}

#[test]
fn cyclic_steps_give_no_corridor() {
    let previous = vec![
        Some(PreviousStep { previous_polygon: 1, via: PathEdge::Portal(0) }),
        Some(PreviousStep { previous_polygon: 0, via: PathEdge::Portal(0) }),
    ];
    assert!(corridor_from_steps(&previous, 0).is_none());
}

#[test]
fn require_on_mesh_policy_rejects_off_mesh_starts() {
    let outcome = classify_endpoints(
        NavmeshProjectionPolicy::RequireOnMesh,
        Some(1),
        true,
        Some(0),
        false,
    );
    assert_eq!(outcome, EndpointOutcome::StartOutside);
    let projected = classify_endpoints(
        NavmeshProjectionPolicy::ProjectToNearest,
        Some(1),
        true,
        Some(0),
        false,
    );
    assert_eq!(projected, EndpointOutcome::Search { start: 1, goal: 0 });
}

#[test]
fn endpoint_outcomes_cover_every_case() {
    let nearest = NavmeshProjectionPolicy::ProjectToNearest;
    let on_mesh = NavmeshProjectionPolicy::RequireOnMesh;
    assert_eq!(classify_endpoints(nearest, None, false, Some(0), false), EndpointOutcome::StartOutside);
    assert_eq!(classify_endpoints(nearest, Some(0), false, None, false), EndpointOutcome::GoalOutside);
    assert_eq!(classify_endpoints(on_mesh, Some(0), false, Some(1), true), EndpointOutcome::GoalOutside);
    assert_eq!(classify_endpoints(nearest, Some(2), false, Some(2), true), EndpointOutcome::SamePolygon(2));
    assert_eq!(classify_endpoints(on_mesh, None, false, None, false), EndpointOutcome::StartOutside);
}

#[test]
fn fallback_flags_decide_partial_paths() {
    assert_eq!(search_outcome(false, 5, 2, true, false), (NavmeshPathStatus::Unreachable, None));
    assert_eq!(search_outcome(false, 5, 2, false, true), (NavmeshPathStatus::Unreachable, None));
    assert_eq!(search_outcome(false, 5, 2, true, true), (NavmeshPathStatus::Partial, Some(2)));
    assert_eq!(search_outcome(true, 5, 2, false, false), (NavmeshPathStatus::Success, Some(5)));
}

use saddle_ai_navmesh::{
    NavmeshArea, NavmeshAreaMask, NavmeshFilterMasks, NavmeshLinkEnds, NavmeshPolygonLinks,
    NavmeshSearchSteps, NavmeshTopology,
};

fn chain_topology() -> NavmeshTopology {
    let polygon = |portal_indices: Vec<u32>| NavmeshPolygonLinks {
        area: NavmeshArea(0),
        mask: NavmeshAreaMask::all(),
        portal_indices,
    };
    // 0 -portal 0- 1 -portal 1- 2, and a one-way link from 2 to 3.
    NavmeshTopology {
        polygons: vec![polygon(vec![0]), polygon(vec![0, 1]), polygon(vec![1]), polygon(vec![])],
        portals: vec![[0, 1], [1, 2]],
        links: vec![NavmeshLinkEnds {
            from_polygon: 2,
            to_polygon: 3,
            bidirectional: false,
            mask: NavmeshAreaMask::all(),
        }],
    }
}

#[test]
fn recorded_search_steps_rebuild_the_corridor() {
    let topology = chain_topology();
    let masks = NavmeshFilterMasks::default();
    let mut steps = NavmeshSearchSteps::new(&topology, masks, 0);
    assert!(steps.is_reached(0));
    assert!(!steps.is_reached(1));
    assert!(!steps.is_reached(9));

    steps.record(&topology, 0, &vec![true]);
    assert!(steps.is_reached(1));
    // From 1 the moves are back to 0 (never recorded: it is the start) and on to 2.
    steps.record(&topology, 1, &vec![true, true]);
    steps.record(&topology, 2, &vec![false, true]);

    let corridor = steps.corridor(3).unwrap();
    assert_eq!(corridor.polygons, vec![0, 1, 2, 3]);
    assert_eq!(
        corridor.steps,
        vec![
            PathEdge::Portal(0),
            PathEdge::Portal(1),
            PathEdge::Link { link_index: 0, forward: true },
        ]
    );
    assert_eq!(steps.corridor(0).unwrap().polygons, vec![0]);
}

#[test]
fn unflagged_moves_are_not_recorded() {
    let topology = chain_topology();
    let mut steps = NavmeshSearchSteps::new(&topology, NavmeshFilterMasks::default(), 0);
    steps.record(&topology, 0, &vec![false]);
    assert!(!steps.is_reached(1));
    let lone = steps.corridor(1).unwrap();
    assert_eq!(lone.polygons, vec![1]);
    assert!(lone.steps.is_empty());
}

use saddle_ai_navmesh::corridor_legs;

#[test]
fn corridor_legs_split_at_off_mesh_links() {
    let steps = vec![
        PathEdge::Portal(3),
        PathEdge::Portal(7),
        PathEdge::Link { link_index: 0, forward: false },
        PathEdge::Link { link_index: 1, forward: true },
        PathEdge::Portal(2),
    ];
    let legs = corridor_legs(&steps);
    assert_eq!(legs.len(), 3);
    assert_eq!(legs[0].portal_steps, vec![0, 1]);
    assert_eq!(legs[0].link_step, Some(2));
    assert!(legs[1].portal_steps.is_empty());
    assert_eq!(legs[1].link_step, Some(3));
    assert_eq!(legs[2].portal_steps, vec![4]);
    assert_eq!(legs[2].link_step, None);
}

#[test]
fn corridor_without_steps_is_one_empty_leg() {
    let legs = corridor_legs(&Vec::new());
    assert_eq!(legs.len(), 1);
    assert!(legs[0].portal_steps.is_empty());
    assert_eq!(legs[0].link_step, None);
}
