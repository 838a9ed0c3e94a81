use gs_rust::scene_geo::{
    push_box_indices, push_fan_indices, push_strip_indices, sphere_indices, torus_indices, BOX_TOPOLOGY,
};

#[test]
fn small_sphere_triangles() {
    assert_eq!(sphere_indices(2, 2), vec![1, 3, 4, 2, 4, 5, 3, 6, 4, 4, 7, 5]);
}

#[test]
fn sphere_indices_stay_within_its_vertices() {
    let (sectors, stacks) = (28u32, 20u32);
    let idx = sphere_indices(sectors, stacks);
    assert_eq!(idx.len() % 3, 0);
    assert_eq!(idx.len(), (6 * sectors * (stacks - 1)) as usize);
    assert!(idx.iter().all(|&i| i < (stacks + 1) * (sectors + 1)));
}

#[test]
fn torus_cells_have_two_triangles() {
    assert_eq!(torus_indices(1, 1), vec![0, 2, 1, 1, 2, 3]);
    let idx = torus_indices(24, 12);
    assert_eq!(idx.len(), 6 * 24 * 12);
    assert!(idx.iter().all(|&i| i < 25 * 13));
}

#[test]
fn strips_fans_and_boxes() {
    let mut v = vec![99u32];
    push_strip_indices(&mut v, 10, 2);
    assert_eq!(v, vec![99, 10, 11, 12, 12, 11, 13, 12, 13, 14, 14, 13, 15]);
    let mut f = Vec::new();
    push_fan_indices(&mut f, 5, 2);
    assert_eq!(f, vec![5, 6, 7, 5, 7, 8]);
    let mut b = Vec::new();
    push_box_indices(&mut b, 8);
    assert_eq!(b, BOX_TOPOLOGY.iter().map(|i| i + 8).collect::<Vec<u32>>());
    assert!(b.iter().all(|&i| (8..16).contains(&i)));
}
