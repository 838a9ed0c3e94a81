use gs_rust::obj::parse_obj;

fn text<'a>(content: &'a str, r: (usize, usize)) -> &'a str {
    &content[r.0..r.1]
}

#[test]
fn obj_vertices_normals_and_faces() {
    let content = "# cube\nv 1.0 2.0 3.0\nvn 0 1 0\r\nv  -1 -2.5\t-3 extra\nvt 0.5 0.5\nf 1/1/1 2//1 1\n\nf 2 1\n";
    let obj = parse_obj(content.as_bytes()).unwrap();
    let p: Vec<&str> = obj.positions.iter().map(|&r| text(content, r)).collect();
    assert_eq!(p, vec!["1.0", "2.0", "3.0", "-1", "-2.5", "-3"]);
    let n: Vec<&str> = obj.normals.iter().map(|&r| text(content, r)).collect();
    assert_eq!(n, vec!["0", "1", "0"]);
    assert_eq!(obj.indices, vec![0, 1, 0, 1, 0]);
}

#[test]
fn empty_obj() {
    let obj = parse_obj(b"").unwrap();
    assert!(obj.positions.is_empty() && obj.normals.is_empty() && obj.indices.is_empty());
}

#[test]
fn short_vertex_line_is_rejected() {
    assert!(parse_obj(b"v 1 2\n").is_none());
    assert!(parse_obj(b"vn 1\n").is_none());
}

#[test]
fn bad_face_indices_are_rejected() {
    assert!(parse_obj(b"f 0 1 2\n").is_none());
    assert!(parse_obj(b"f a 1 2\n").is_none());
    assert!(parse_obj(b"f /1 2 3\n").is_none());
    assert!(parse_obj(b"f 4294967296\n").is_none());
    assert_eq!(parse_obj(b"f 4294967295 +2").unwrap().indices, vec![4294967294, 1]);
}

#[test]
fn unicode_white_space_separates_tokens() {
    let content = "v\u{3000}1 2\u{a0}3\n";
    let obj = parse_obj(content.as_bytes()).unwrap();
    let p: Vec<&str> = obj.positions.iter().map(|&r| text(content, r)).collect();
    assert_eq!(p, vec!["1", "2", "3"]);
}
