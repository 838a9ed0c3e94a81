use gs_rust::loader::{read_body, read_header, HeaderError, MAX_HEADER_LINES};

const HEADER: &str = "ply\nformat binary_little_endian 1.0\ncomment made by hand\nelement vertex 2\nproperty float x\nproperty float  opacity \nend_header\n";

#[test]
fn header_fields_are_read() {
    let h = read_header(HEADER.as_bytes()).unwrap();
    assert_eq!(h.num_splats, 2);
    assert_eq!(h.data_start, 7);
    assert_eq!(h.body_offset, HEADER.len());
    assert_eq!(h.property_names, vec!["x".to_string(), "opacity".to_string()]);
    assert_eq!(h.format, "binary_little_endian");
}

#[test]
fn little_endian_body_words() {
    let mut bytes = HEADER.as_bytes().to_vec();
    for v in [1.5f32, -2.0, 0.25, 8.0] {
        bytes.extend_from_slice(&v.to_le_bytes());
    }
    let h = read_header(&bytes).unwrap();
    let rows = read_body(&bytes, &h);
    assert_eq!(rows.len(), 2);
    assert_eq!(rows[0], vec![1.5f32.to_bits(), (-2.0f32).to_bits()]);
    assert_eq!(rows[1], vec![0.25f32.to_bits(), 8.0f32.to_bits()]);
}

#[test]
fn big_endian_body_words() {
    let text = "ply\nformat binary_big_endian 1.0\nelement vertex 1\nproperty float z\nend_header\n";
    let mut bytes = text.as_bytes().to_vec();
    bytes.extend_from_slice(&3.0f32.to_be_bytes());
    let h = read_header(&bytes).unwrap();
    assert_eq!(h.format, "binary_big_endian");
    let rows = read_body(&bytes, &h);
    assert_eq!(rows, vec![vec![3.0f32.to_bits()]]);
}

#[test]
fn ascii_format_is_not_supported() {
    let text = "ply\nformat ascii 1.0\nelement vertex 1\nend_header\n";
    match read_header(text.as_bytes()) {
        Err(HeaderError::UnsupportedFormat(f)) => assert_eq!(f, "ascii"),
        other => panic!("unexpected {:?}", other),
    }
}

#[test]
fn missing_format_is_reported_before_missing_end() {
    match read_header(b"ply\nelement vertex 3\n") {
        Err(HeaderError::UnsupportedFormat(f)) => assert_eq!(f, ""),
        other => panic!("unexpected {:?}", other),
    }
}

#[test]
fn header_without_end_is_rejected() {
    let text = "ply\nformat binary_little_endian 1.0\nelement vertex 1\n";
    assert!(matches!(read_header(text.as_bytes()), Err(HeaderError::MissingEndHeader)));
}

#[test]
fn end_header_must_come_within_the_line_limit() {
    let mut text = String::from("ply\nformat binary_little_endian 1.0\n");
    for _ in 0..MAX_HEADER_LINES {
        text.push_str("comment\n");
    }
    text.push_str("end_header\n");
    assert!(matches!(read_header(text.as_bytes()), Err(HeaderError::MissingEndHeader)));
}

#[test]
fn bad_vertex_count_is_reported() {
    let text = "ply\nformat binary_little_endian 1.0\nelement vertex many\nend_header\n";
    assert!(matches!(read_header(text.as_bytes()), Err(HeaderError::BadVertexCount)));
}

#[test]
fn invalid_utf8_line_is_reported() {
    let bytes = b"ply\nformat binary_little_endian 1.0\n\xff\xfe\nend_header\n";
    assert!(matches!(read_header(bytes), Err(HeaderError::InvalidText)));
}
