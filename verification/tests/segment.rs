use gs_rust::data_objects::SplatObject;
use gs_rust::segment::{hidden_ranges, in_any_range, mask_selects};

#[test]
fn hidden_objects_give_their_ranges() {
    let objects = [
        SplatObject { start: 0, end: 4 },
        SplatObject { start: 5, end: 9 },
        SplatObject { start: 10, end: 12 },
    ];
    let ranges = hidden_ranges(&objects, &[false, true]);
    assert_eq!(ranges, vec![SplatObject { start: 5, end: 9 }]);
    assert!(in_any_range(5, &ranges));
    assert!(in_any_range(9, &ranges));
    assert!(!in_any_range(4, &ranges));
    assert!(!in_any_range(11, &ranges));
    assert!(hidden_ranges(&objects, &[]).is_empty());
}

#[test]
fn mask_pixels_inside_select() {
    let mask = [0u8, 1, 0, 0, 0, 7];
    assert!(mask_selects(&mask, 3, 2, 1, 0));
    assert!(mask_selects(&mask, 3, 2, 2, 1));
    assert!(!mask_selects(&mask, 3, 2, 0, 0));
    assert!(!mask_selects(&mask, 3, 2, -1, 0));
    assert!(!mask_selects(&mask, 3, 2, 3, 0));
    assert!(!mask_selects(&mask, 3, 2, 0, 2));
}
