use sshpass_rs::text::{component_count, file_name_of, is_relative_path, join_path};

const PATHS: &[&str] = &[
    "", "/", ".", "..", "./", "./ssh", "ssh", "/usr/bin/ssh", "/usr/bin/", "a//b", "a/./b",
    "a/..", "../x", ".hidden", "dir/.", "//", "./.", "a/b/c/", "/.", "x/./", "fake_ssh",
];

#[test]
fn file_names_match_std_paths() {
    for p in PATHS {
        let expected = std::path::Path::new(p).file_name().map(|n| n.to_str().unwrap().to_string());
        assert_eq!(file_name_of(p), expected, "path {:?}", p);
    }
}

#[test]
fn component_counts_match_std_paths() {
    for p in PATHS {
        assert_eq!(component_count(p), std::path::Path::new(p).components().count(), "path {:?}", p);
    }
}

#[test]
fn relative_and_joined_paths_match_std() {
    for p in PATHS {
        assert_eq!(is_relative_path(p), std::path::Path::new(p).is_relative(), "path {:?}", p);
        for base in ["/home/u", "/home/u/", ""] {
            let expected = std::path::Path::new(base).join(p).display().to_string();
            assert_eq!(join_path(base, p), expected, "base {:?} path {:?}", base, p);
        }
    }
}
