use gs_rust::local::{insert_version_dir, output_path};

#[test]
fn packed_files_go_under_the_versioned_directory() {
    assert_eq!(output_path("splats/foo.rkyv"), "splats/v2/foo.gsz");
    assert_eq!(output_path("data/splats/room.ply"), "data/splats/v2/room.gsz");
}

#[test]
fn other_paths_only_change_extension() {
    assert_eq!(output_path("foo.ply"), "foo.gsz");
    assert_eq!(output_path("scans/foo"), "scans/foo.gsz");
}

#[test]
fn version_dir_goes_after_the_first_splats_dir() {
    assert_eq!(insert_version_dir("a/splats/b/splats/c".to_string()), "a/splats/v2/b/splats/c");
    assert_eq!(insert_version_dir("splat/x".to_string()), "splat/x");
}
