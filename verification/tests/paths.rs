use xz_cli::paths::{python_wrapper_path, shared_output_paths};

#[test]
fn shared_output_paths_honor_out_flag() {
    let (lib, header) = shared_output_paths(None);
    assert_eq!(lib.to_str(), Some("libXz.so"));
    assert_eq!(header.to_str(), Some("libXz.h"));

    let (lib, header) = shared_output_paths(Some("dist/libfoo.so"));
    assert_eq!(lib.to_str(), Some("dist/libfoo.so"));
    assert_eq!(header.to_str(), Some("dist/libfoo.h"));
}

#[test]
fn python_wrapper_path_matches_source_stem() {
    assert_eq!(python_wrapper_path("foo.xz").to_str(), Some("foo.py"));
    assert_eq!(python_wrapper_path("dist/foo.xz").to_str(), Some("foo.py"));
    assert_eq!(python_wrapper_path("noext").to_str(), Some("noext.py"));
}

#[test]
fn a_trailing_dot_component_names_the_directory_before_it() {
    assert_eq!(python_wrapper_path("foo.txt/.").to_str(), Some("foo.py"));
    assert_eq!(python_wrapper_path("dir/foo.xz/./").to_str(), Some("foo.py"));
}
