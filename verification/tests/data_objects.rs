use gs_rust::data_objects::{
    compress_words_into_buffer, object_splats, split_axis, u32_to_4_bytes, SplatData, SplatObject,
    SplitAxis,
};

#[test]
fn new_makes_one_object_of_all_splats() {
    let data = SplatData::new(vec![1u8, 2, 3]);
    assert_eq!(data.splat_count(), 3);
    assert_eq!(data.objects, vec![SplatObject { start: 0, end: 2 }]);
}

#[test]
fn merge_appends_an_object() {
    let mut data = SplatData::new(vec![1u8, 2, 3]);
    let other = SplatData::new(vec![4u8, 5]);
    data.merge_with_other_splatdata(&other);
    assert_eq!(data.splats, vec![1, 2, 3, 4, 5]);
    assert_eq!(
        data.objects,
        vec![SplatObject { start: 0, end: 2 }, SplatObject { start: 3, end: 4 }]
    );
}

#[test]
fn split_object_registers_a_second_half() {
    let mut data = SplatData::new(vec![0u8; 10]);
    assert_eq!(data.split_object(0), Some(1));
    assert_eq!(data.objects[1], SplatObject { start: 0, end: 9 });
    assert_eq!(data.split_object(5), None);
    let mut single = SplatData::new(vec![0u8]);
    assert_eq!(single.split_object(0), None);
    assert_eq!(single.objects.len(), 1);
}

#[test]
fn nearest_power_of_two() {
    let data = SplatData::new(vec![0u8]);
    assert_eq!(data.nearest_power_of_2_bigger_than(0), 1);
    assert_eq!(data.nearest_power_of_2_bigger_than(1), 1);
    assert_eq!(data.nearest_power_of_2_bigger_than(5), 8);
    assert_eq!(data.nearest_power_of_2_bigger_than(8), 8);
    assert_eq!(data.nearest_power_of_2_bigger_than(1025), 2048);
}

#[test]
fn u32_bytes_are_big_endian() {
    assert_eq!(u32_to_4_bytes(0x01020304), [1, 2, 3, 4]);
    assert_eq!(u32_to_4_bytes(1.0f32.to_bits()), 1.0f32.to_be_bytes());
}

#[test]
fn words_fill_a_power_of_two_buffer() {
    assert_eq!(compress_words_into_buffer(&[0x01020304]), vec![1, 2, 3, 4]);
    assert_eq!(
        compress_words_into_buffer(&[0x01020304, 0xa0b0c0d0, 0xffffffff]),
        vec![1, 2, 3, 4, 0xa0, 0xb0, 0xc0, 0xd0, 0xff, 0xff, 0xff, 0xff, 0, 0, 0, 0]
    );
    assert_eq!(compress_words_into_buffer(&[]), vec![0]);
}

#[test]
fn split_direction_names_an_axis() {
    assert_eq!(split_axis("horizontal"), SplitAxis::Y);
    assert_eq!(split_axis("depth"), SplitAxis::Z);
    assert_eq!(split_axis("vertical"), SplitAxis::X);
    assert_eq!(split_axis(""), SplitAxis::X);
}

#[test]
fn object_splats_are_clamped_to_the_list() {
    assert_eq!(object_splats(SplatObject { start: 2, end: 5 }, 10), Some((2, 5)));
    assert_eq!(object_splats(SplatObject { start: 2, end: 50 }, 10), Some((2, 9)));
    assert_eq!(object_splats(SplatObject { start: 10, end: 50 }, 10), None);
    assert_eq!(object_splats(SplatObject { start: 5, end: 4 }, 10), None);
    assert_eq!(object_splats(SplatObject { start: 0, end: 0 }, 0), None);
}

#[test]
fn merged_object_covers_the_merged_splats() {
    let mut data = SplatData::new(vec![10u16, 11]);
    let other = SplatData::new(vec![20u16, 21, 22]);
    data.merge_with_other_splatdata(&other);
    let o = *data.objects.last().unwrap();
    let (a, b) = object_splats(o, data.splats.len()).unwrap();
    assert_eq!(&data.splats[a..=b], &other.splats[..]);
}
