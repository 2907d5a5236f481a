use saddle_ai_navmesh::primitives::{
    cuboid_triangle_indices, disc_triangle_indices, prism_triangle_indices, quad_triangle_indices,
    ramp_triangle_indices, triangles_from_u16_indices, triangles_from_u32_indices,
};

#[test]
fn fixed_primitives_index_their_corners() {
    assert_eq!(quad_triangle_indices(), vec![[0, 1, 2], [0, 2, 3]]);
    let cuboid = cuboid_triangle_indices();
    assert_eq!(cuboid.len(), 12);
    assert!(cuboid.iter().flatten().all(|&i| i < 8));
    let ramp = ramp_triangle_indices();
    assert_eq!(ramp.len(), 8);
    assert!(ramp.iter().flatten().all(|&i| i < 6));
}

#[test]
fn disc_fan_closes_the_rim() {
    assert_eq!(disc_triangle_indices(4), vec![[0, 1, 2], [0, 2, 3], [0, 3, 4], [0, 4, 1]]);
    assert_eq!(disc_triangle_indices(0), vec![[0, 1, 2], [0, 2, 3], [0, 3, 1]]);
    assert_eq!(disc_triangle_indices(255).len(), 255);
}

#[test]
fn prism_caps_and_walls() {
    assert_eq!(
        prism_triangle_indices(3),
        vec![
            [0, 2, 1],
            [3, 4, 5],
            [0, 1, 4],
            [0, 4, 3],
            [1, 2, 5],
            [1, 5, 4],
            [2, 0, 3],
            [2, 3, 5],
        ]
    );
    assert!(prism_triangle_indices(2).is_empty());
    let square = prism_triangle_indices(4);
    assert_eq!(square.len(), 12);
    assert!(square.iter().flatten().all(|&i| i < 8));
}

#[test]
fn mesh_index_lists_group_into_triangles() {
    assert_eq!(triangles_from_u16_indices(&vec![0, 1, 2, 2, 1, 3, 9]), vec![[0, 1, 2], [2, 1, 3]]);
    assert_eq!(triangles_from_u32_indices(&vec![4, 5, 6]), vec![[4, 5, 6]]);
    assert!(triangles_from_u32_indices(&vec![4, 5]).is_empty());
}
