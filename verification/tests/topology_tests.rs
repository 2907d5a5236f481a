use saddle_ai_navmesh::{
    link_portals, portal_other_side, NavmeshArea, NavmeshAreaMask, NavmeshFilterMasks,
    NavmeshLinkEnds, NavmeshNeighbor, NavmeshPolygonLinks, NavmeshTopology, PathEdge,
};

fn polygon(area: u8, portal_indices: Vec<u32>) -> NavmeshPolygonLinks {
    NavmeshPolygonLinks {
        area: NavmeshArea(area),
        mask: NavmeshAreaMask::from_area(NavmeshArea(area)),
        portal_indices,
    }
}

/// Four polygons: 0 joins 1 and 2 through portals 0 and 1; 1 and 2 join 3 through portals 2
/// and 3 (the layout of a fork with two branches).
fn fork() -> NavmeshTopology {
    NavmeshTopology {
        polygons: vec![
            polygon(0, vec![0, 1]),
            polygon(1, vec![0, 2]),
            polygon(0, vec![1, 3]),
            polygon(0, vec![2, 3]),
        ],
        portals: vec![[0, 1], [0, 2], [1, 3], [2, 3]],
        links: Vec::new(),
    }
}

#[test]
fn portal_neighbors_follow_portal_order() {
    let topology = fork();
    let moves = topology.neighbors(&NavmeshFilterMasks::default(), 0);
    assert_eq!(
        moves,
        vec![
            NavmeshNeighbor { polygon: 1, via: PathEdge::Portal(0) },
            NavmeshNeighbor { polygon: 2, via: PathEdge::Portal(1) },
        ]
    );
    let back = topology.neighbors(&NavmeshFilterMasks::default(), 3);
    assert_eq!(
        back,
        vec![
            NavmeshNeighbor { polygon: 1, via: PathEdge::Portal(2) },
            NavmeshNeighbor { polygon: 2, via: PathEdge::Portal(3) },
        ]
    );
}

#[test]
fn filtered_areas_are_not_entered() {
    let topology = fork();
    let filter = NavmeshFilterMasks {
        mask: NavmeshAreaMask::from_area(NavmeshArea(0)),
        link_mask: NavmeshAreaMask::all(),
    };
    let moves = topology.neighbors(&filter, 0);
    assert_eq!(moves, vec![NavmeshNeighbor { polygon: 2, via: PathEdge::Portal(1) }]);
}

#[test]
fn portal_crossings_are_symmetric() {
    let topology = fork();
    let filter = NavmeshFilterMasks::default();
    for from in 0..4_u32 {
        for step in topology.neighbors(&filter, from) {
            let back = topology.neighbors(&filter, step.polygon);
            assert!(back.contains(&NavmeshNeighbor { polygon: from, via: step.via }));
        }
    }
}

#[test]
fn links_are_followed_in_their_direction() {
    let mut topology = NavmeshTopology {
        polygons: vec![polygon(0, Vec::new()), polygon(0, Vec::new())],
        portals: Vec::new(),
        links: vec![NavmeshLinkEnds {
            from_polygon: 0,
            to_polygon: 1,
            bidirectional: false,
            mask: NavmeshAreaMask::all(),
        }],
    };
    let filter = NavmeshFilterMasks::default();
    assert_eq!(
        topology.neighbors(&filter, 0),
        vec![NavmeshNeighbor { polygon: 1, via: PathEdge::Link { link_index: 0, forward: true } }]
    );
    assert!(topology.neighbors(&filter, 1).is_empty());

    topology.links[0].bidirectional = true;
    assert_eq!(
        topology.neighbors(&filter, 1),
        vec![NavmeshNeighbor { polygon: 0, via: PathEdge::Link { link_index: 0, forward: false } }]
    );

    let no_links = NavmeshFilterMasks { mask: NavmeshAreaMask::all(), link_mask: NavmeshAreaMask::empty() };
    assert!(topology.neighbors(&no_links, 0).is_empty());
}

#[test]
fn portal_other_side_crosses_to_the_far_polygon() {
    assert_eq!(portal_other_side([3, 7], 3), 7);
    assert_eq!(portal_other_side([3, 7], 7), 3);
    assert_eq!(portal_other_side([4, 4], 4), 4);
}

#[test]
fn linked_portals_build_a_searchable_topology() {
    let links = link_portals(3, &vec![(1, 3), (5, 7)]);
    let topology = NavmeshTopology {
        polygons: links
            .portal_indices
            .iter()
            .map(|indices| polygon(0, indices.clone()))
            .collect(),
        portals: links.portals.clone(),
        links: Vec::new(),
    };
    let moves = topology.neighbors(&NavmeshFilterMasks::default(), 1);
    assert_eq!(
        moves,
        vec![
            NavmeshNeighbor { polygon: 0, via: PathEdge::Portal(0) },
            NavmeshNeighbor { polygon: 2, via: PathEdge::Portal(1) },
        ]
    );
}
