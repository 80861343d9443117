use nicewatch::paths::{path_components, path_file_name, path_has_prefix, paths_equal};
use nicewatch::text::{parse_i64, parse_u64, split_whitespace, trim_str, u64_to_string};

fn comps(p: &str) -> Vec<String> {
    path_components(p).into_iter().map(|c| c.into_iter().collect()).collect()
}

#[test]
fn path_components_like_std() {
    assert_eq!(comps("/a//b/./c/"), vec!["a", "b", "c"]);
    assert_eq!(comps("./a/."), vec![".", "a"]);
    assert_eq!(comps("a/../b"), vec!["a", "..", "b"]);
    assert_eq!(path_file_name("/a/b.txt").map(|v| v.into_iter().collect::<String>()).as_deref(), Some("b.txt"));
    assert!(path_file_name("/a/..").is_none());
    assert!(path_file_name("/").is_none());
    assert!(paths_equal("/a/b/", "/a//b"));
    assert!(!paths_equal("/a/b", "a/b"));
    assert!(path_has_prefix("/sys/fs/cgroup/x", "/sys/fs/cgroup"));
    assert!(!path_has_prefix("/sys/fs/cgroupx", "/sys/fs/cgroup"));
}

#[test]
fn number_and_word_helpers() {
    assert_eq!(parse_u64(&"+42".chars().collect()), Some(42));
    assert_eq!(parse_u64(&"18446744073709551616".chars().collect()), None);
    assert_eq!(parse_i64(&"-9".chars().collect()), Some(-9));
    assert_eq!(u64_to_string(0), "0");
    assert_eq!(trim_str("\t x \n"), "x");
    assert_eq!(split_whitespace(&" a  b ".chars().collect()).len(), 2);
}
