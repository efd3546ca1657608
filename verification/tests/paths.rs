use webdu::error::ErrorKind;
use webdu::paths::{is_descendant_or_equal, normalize_path, split_slashes, str_eq};

fn segs(v: &[&str]) -> Vec<String> {
    v.iter().map(|s| s.to_string()).collect()
}

#[test]
fn normalize_simple_path() {
    assert_eq!(normalize_path("/a/b/c").unwrap(), segs(&["a", "b", "c"]));
}

#[test]
fn normalize_drops_dot_and_empty_segments() {
    assert_eq!(normalize_path("/a/./b//c/").unwrap(), segs(&["a", "b", "c"]));
}

#[test]
fn normalize_resolves_dotdot() {
    assert_eq!(normalize_path("/a/x/../b").unwrap(), segs(&["a", "b"]));
}

#[test]
fn normalize_escaping_path_is_invalid() {
    let e = normalize_path("/a/../../b").unwrap_err();
    assert!(matches!(e.kind, ErrorKind::InvalidPath));
}

#[test]
fn normalize_empty_path_is_empty() {
    assert_eq!(normalize_path("").unwrap(), segs(&[]));
    assert_eq!(normalize_path("/").unwrap(), segs(&[]));
}

#[test]
fn split_keeps_empty_segments() {
    assert_eq!(split_slashes("/a//b/"), segs(&["", "a", "", "b", ""]));
    assert_eq!(split_slashes(""), segs(&[""]));
}

#[test]
fn str_eq_compares_contents() {
    assert!(str_eq("abc", "abc"));
    assert!(!str_eq("abc", "abd"));
    assert!(!str_eq("abc", "ab"));
    assert!(str_eq("", ""));
}

#[test]
fn descendant_strictly_below_passes() {
    assert!(is_descendant_or_equal(&segs(&["a", "b"]), "/a/b/c/"));
}

#[test]
fn descendant_equal_path_fails() {
    assert!(!is_descendant_or_equal(&segs(&["a", "b"]), "/a/b/"));
}

#[test]
fn descendant_sibling_fails() {
    assert!(!is_descendant_or_equal(&segs(&["a", "b"]), "/a/x/"));
}

#[test]
fn descendant_dotdot_that_normalizes_below_passes() {
    assert!(is_descendant_or_equal(&segs(&["a", "b"]), "/a/b/../b/c/"));
}

#[test]
fn descendant_parent_and_root_fail() {
    assert!(!is_descendant_or_equal(&segs(&["a", "b"]), "/a/"));
    assert!(!is_descendant_or_equal(&segs(&["a", "b"]), "/"));
}

#[test]
fn descendant_path_through_sibling_fails() {
    // Climbs out of `sub` and back into another directory.
    assert!(!is_descendant_or_equal(&segs(&["sub"]), "/sub/../escape/"));
    assert!(!is_descendant_or_equal(&segs(&["sub"]), "/escape/"));
}

#[test]
fn descendant_of_root_needs_one_real_segment() {
    assert!(is_descendant_or_equal(&segs(&[]), "/a/"));
    assert!(!is_descendant_or_equal(&segs(&[]), "/"));
    assert!(!is_descendant_or_equal(&segs(&[]), "/a/.."));
}
