use gs_rust::renderer::{decode_pick, pad_texture_data, texture_height, TEXTURE_WIDTH};

#[test]
fn picking_pixels() {
    assert_eq!(decode_pick([7, 255, 0, 255]), (0, false, false));
    assert_eq!(decode_pick([7, 0, 0, 255]), (7, false, true));
    assert_eq!(decode_pick([2, 0, 255, 255]), (2, true, true));
    assert_eq!(decode_pick([0, 0, 0, 0]), (0, false, true));
}

#[test]
fn texture_height_is_a_ceiling() {
    assert_eq!(TEXTURE_WIDTH, 2000);
    assert_eq!(texture_height(0), 0);
    assert_eq!(texture_height(1), 1);
    assert_eq!(texture_height(2000), 1);
    assert_eq!(texture_height(2001), 2);
    assert_eq!(texture_height(i32::MAX - 2000), (i32::MAX - 2000 + 1999) / 2000);
}

#[test]
fn texture_data_is_padded_to_whole_rows() {
    assert!(pad_texture_data(&[]).is_empty());
    let v = pad_texture_data(&[1, 2, 3]);
    assert_eq!(v.len(), 3 * 2000);
    assert_eq!(&v[..3], &[1, 2, 3]);
    assert!(v[3..].iter().all(|&x| x == 0));
    let many: Vec<u32> = (0..2001).collect();
    let w = pad_texture_data(&many);
    assert_eq!(w.len(), 3 * 2000 * 2);
    assert_eq!(&w[..2001], &many[..]);
}
