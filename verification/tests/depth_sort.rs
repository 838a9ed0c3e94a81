use gs_rust::data_objects::SplatData;
use gs_rust::depth_sort::order_by_depth;

#[test]
fn deepest_splats_come_first() {
    assert_eq!(order_by_depth(&[3, 1, 3, 2]), vec![2, 0, 3, 1]);
    assert_eq!(order_by_depth(&[-5, 10, 0]), vec![1, 2, 0]);
}

#[test]
fn equal_depths_go_from_the_highest_index_down() {
    assert_eq!(order_by_depth(&[7, 7, 7, 7]), vec![3, 2, 1, 0]);
}

#[test]
fn no_splats_no_order() {
    assert_eq!(order_by_depth(&[]), Vec::<u32>::new());
}

#[test]
fn order_is_a_sorted_permutation() {
    let depths: Vec<i32> = (0..200).map(|i: i32| (i * 37) % 23 - 11).collect();
    let out = order_by_depth(&depths);
    let mut seen = out.clone();
    seen.sort();
    assert_eq!(seen, (0..200).collect::<Vec<u32>>());
    for w in out.windows(2) {
        let (a, b) = (w[0] as usize, w[1] as usize);
        assert!(depths[a] > depths[b] || (depths[a] == depths[b] && a > b));
    }
}

#[test]
fn splat_data_sorts_by_given_depths() {
    let data = SplatData::new(vec!['a', 'b', 'c']);
    assert_eq!(data.sort_splats_based_on_depth(&[-1000, 250, 0]), vec![1, 2, 0]);
}
