use saddle_ai_navmesh::{
    assemble_polygons, edge_key, extract_portals, link_portals, pair_shared_edges, NavmeshArea,
    NavmeshAreaMask, NavmeshTriangleOrigin, QuantizedPoint,
};
use saddle_ai_navmesh::primitives::quad_triangle_indices;

fn quantize(x: f32, z: f32, epsilon: f32) -> QuantizedPoint {
    ((x / epsilon).round() as i64, (z / epsilon).round() as i64)
}

fn edge_keys(corners: &[[f32; 2]], triangles: &[[usize; 3]], epsilon: f32) -> Vec<((i64, i64), (i64, i64))> {
    let mut keys = Vec::new();
    for triangle in triangles {
        for edge in 0..3 {
            let a = corners[triangle[edge]];
            let b = corners[triangle[(edge + 1) % 3]];
            keys.push(edge_key(quantize(a[0], a[1], epsilon), quantize(b[0], b[1], epsilon)));
        }
    }
    keys
}

#[test]
fn bake_connects_adjacent_triangles_with_a_portal() {
    // A walkable 4 x 4 quad, baked with the default quantization (0.001) and step height (0.75).
    let corners = [[-2.0_f32, -2.0], [2.0, -2.0], [2.0, 2.0], [-2.0, 2.0]];
    let triangles = quad_triangle_indices();
    let origin = NavmeshTriangleOrigin {
        area: NavmeshArea(0),
        mask: NavmeshAreaMask::from_area(NavmeshArea(0)),
        source_id: 1,
    };
    let polygons = assemble_polygons(&vec![origin; triangles.len()]).unwrap();

    // Each polygon's vertex slots hold the corners of its triangle, in order.
    let slot_corners: Vec<[f32; 2]> = triangles
        .iter()
        .flat_map(|triangle| triangle.iter().map(|&corner| corners[corner as usize]))
        .collect();
    let mut keys = Vec::new();
    let mut midpoints = Vec::new();
    for polygon in &polygons {
        for edge in 0..3 {
            let a = slot_corners[polygon.vertices[edge] as usize];
            let b = slot_corners[polygon.vertices[(edge + 1) % 3] as usize];
            keys.push(edge_key(quantize(a[0], a[1], 0.001), quantize(b[0], b[1], 0.001)));
            midpoints.push([(a[0] + b[0]) * 0.5, (a[1] + b[1]) * 0.5]);
        }
    }
    let keep: Vec<bool> = pair_shared_edges(&keys)
        .into_iter()
        .map(|(earlier, later)| {
            let dx = midpoints[earlier][0] - midpoints[later][0];
            let dz = midpoints[earlier][1] - midpoints[later][1];
            (dx * dx + dz * dz).sqrt() <= 0.75_f32.max(0.001)
        })
        .collect();
    let extracted = extract_portals(polygons.len(), &keys, &keep);

    assert_eq!(polygons.len(), 2);
    assert_eq!(extracted.links.portals.len(), 1);
    assert!(extracted.links.portal_indices.iter().all(|indices| indices.len() == 1));
    assert_eq!(extracted.links.portals[0], [0, 1]);
}

#[test]
fn portals_keep_only_flagged_pairs() {
    // Polygon 0 shares slot 0 with polygon 1 (slot 3) and slot 1 with polygon 2 (slot 6);
    // polygon 1 shares slot 5 with polygon 2 (slot 8). The second pair is dropped.
    let shared_a = ((0, 0), (1, 0));
    let shared_b = ((0, 0), (0, 1));
    let shared_c = ((1, 0), (0, 1));
    let keys = vec![
        shared_a, shared_b, ((9, 9), (9, 8)),
        shared_a, ((7, 7), (7, 8)), shared_c,
        shared_b, ((5, 5), (5, 6)), shared_c,
    ];
    assert_eq!(pair_shared_edges(&keys), vec![(0, 3), (1, 6), (5, 8)]);
    let extracted = extract_portals(3, &keys, &vec![true, false, true]);
    assert_eq!(extracted.joined, vec![(0, 3), (5, 8)]);
    assert_eq!(extracted.links.portals, vec![[0, 1], [1, 2]]);
    assert_eq!(extracted.links.portal_indices, vec![vec![0], vec![0, 1], vec![1]]);

    let none = extract_portals(3, &keys, &vec![false, false, false]);
    assert!(none.joined.is_empty());
    assert!(none.links.portals.is_empty());
    assert!(none.links.portal_indices.iter().all(|indices| indices.is_empty()));
}

#[test]
fn edge_key_ignores_edge_direction() {
    assert_eq!(edge_key((1, 2), (0, 5)), ((0, 5), (1, 2)));
    assert_eq!(edge_key((0, 5), (1, 2)), ((0, 5), (1, 2)));
    assert_eq!(edge_key((3, 4), (3, 1)), ((3, 1), (3, 4)));
    assert_eq!(edge_key((3, 4), (3, 4)), ((3, 4), (3, 4)));
}

#[test]
fn shared_edges_pair_in_order_of_appearance() {
    let a = ((0, 0), (1, 0));
    let b = ((0, 0), (0, 1));
    let c = ((5, 5), (6, 6));
    // a occurs at slots 0, 2, 3 and 5; b at 1 and 4; c once.
    let keys = vec![a, b, a, a, b, a, c];
    let pairs = pair_shared_edges(&keys);
    assert_eq!(pairs, vec![(0, 2), (1, 4), (3, 5)]);
    assert!(pair_shared_edges(&Vec::new()).is_empty());
}

#[test]
fn portals_are_listed_by_both_polygons() {
    // Slots 0..3 belong to polygon 0, 3..6 to polygon 1, 6..9 to polygon 2.
    let links = link_portals(3, &vec![(1, 3), (5, 7), (8, 2)]);
    assert_eq!(links.portals, vec![[0, 1], [1, 2], [2, 0]]);
    assert_eq!(links.portal_indices, vec![vec![0, 2], vec![0, 1], vec![1, 2]]);

    // A portal between two edges of the same polygon is listed twice by it.
    let self_links = link_portals(1, &vec![(0, 1)]);
    assert_eq!(self_links.portals, vec![[0, 0]]);
    assert_eq!(self_links.portal_indices, vec![vec![0, 0]]);
}

#[test]
fn polygons_are_numbered_in_acceptance_order() {
    let origin = |area: u8, source_id: u64| NavmeshTriangleOrigin {
        area: NavmeshArea(area),
        mask: NavmeshAreaMask::from_area(NavmeshArea(area)),
        source_id,
    };
    let polygons = assemble_polygons(&vec![origin(0, 7), origin(2, 9)]).unwrap();
    assert_eq!(polygons.len(), 2);
    assert_eq!(polygons[0].id, 0);
    assert_eq!(polygons[0].vertices, [0, 1, 2]);
    assert_eq!(polygons[0].source_id, 7);
    assert_eq!(polygons[1].id, 1);
    assert_eq!(polygons[1].vertices, [3, 4, 5]);
    assert_eq!(polygons[1].area, NavmeshArea(2));
    assert_eq!(polygons[1].mask, NavmeshAreaMask(4));
}

#[test]
fn bake_without_walkable_triangles_fails() {
    let error = assemble_polygons(&Vec::new()).unwrap_err();
    assert!(
        error.message.contains("produced no walkable polygons"),
        "unexpected error: {}",
        error.message
    );
}

#[test]
fn grid_triangles_list_at_most_three_portals() {
    // A 2 x 2 grid of unit quads, two triangles each.
    let mut keys = Vec::new();
    let mut polygon_count = 0;
    for x in 0..2 {
        for z in 0..2 {
            let (x0, z0) = (x as f32, z as f32);
            let corners = [[x0, z0], [x0 + 1.0, z0], [x0 + 1.0, z0 + 1.0], [x0, z0 + 1.0]];
            keys.extend(edge_keys(&corners, &[[0, 1, 2], [0, 2, 3]], 0.001));
            polygon_count += 2;
        }
    }
    let pairs = pair_shared_edges(&keys);
    let mut used: Vec<usize> = pairs.iter().flat_map(|&(a, b)| [a, b]).collect();
    let total = used.len();
    used.sort();
    used.dedup();
    assert_eq!(used.len(), total);
    // Four diagonals inside the quads and four edges between neighbouring quads.
    assert_eq!(pairs.len(), 8);
    let links = link_portals(polygon_count, &pairs);
    assert!(links.portal_indices.iter().all(|indices| indices.len() <= 3));
    assert_eq!(links.portal_indices.iter().map(|indices| indices.len()).sum::<usize>(), 16);
}
