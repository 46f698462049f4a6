use herdr_agent_quota::paths::{is_absolute, join, path_less, same_bytes, within};

#[test]
fn absolute_paths_start_at_the_root() {
    assert!(is_absolute(b"/h/a"));
    assert!(is_absolute(b"/"));
    assert!(!is_absolute(b"relative"));
    assert!(!is_absolute(b""));
}

#[test]
fn joining_adds_one_separator() {
    assert_eq!(join(b"/h/a", b"sessions"), b"/h/a/sessions".to_vec());
    assert_eq!(join(b"/", b"sessions"), b"/sessions".to_vec());
    assert_eq!(join(b"/h/a/", b"auth.json"), b"/h/a/auth.json".to_vec());
    assert_eq!(join(b"", b"x"), b"x".to_vec());
}

#[test]
fn containment_is_by_component() {
    assert!(within(b"/h/a", b"/h/a"));
    assert!(within(b"/h/a/sessions/x", b"/h/a"));
    assert!(!within(b"/h/ab", b"/h/a"));
    assert!(!within(b"/h", b"/h/a"));
    assert!(within(b"/anything", b"/"));
    assert!(!within(b"/outside-sessions", b"/h/a"));
}

#[test]
fn path_order_is_by_component() {
    assert!(path_less(b"/a/b", b"/a-b"));
    assert!(!path_less(b"/a-b", b"/a/b"));
    assert!(path_less(b"/a", b"/a/b"));
    assert!(path_less(b"/a/b", b"/ab"));
    assert!(!path_less(b"/a", b"/a"));
    assert!(path_less(b"/h/a", b"/h/b"));
    let mut paths = vec!["/x/y", "/x-y", "/x", "/w/z/q"];
    paths.sort_by(|a, b| if path_less(a.as_bytes(), b.as_bytes()) { std::cmp::Ordering::Less } else if a == b { std::cmp::Ordering::Equal } else { std::cmp::Ordering::Greater });
    let mut expected: Vec<std::path::PathBuf> = paths.iter().map(std::path::PathBuf::from).collect();
    expected.sort();
    assert_eq!(paths.iter().map(std::path::PathBuf::from).collect::<Vec<_>>(), expected);
}

#[test]
fn byte_equality() {
    assert!(same_bytes(b"/h/a", b"/h/a"));
    assert!(!same_bytes(b"/h/a", b"/h/b"));
    assert!(!same_bytes(b"/h/a", b"/h/a/"));
    assert!(path_less(b"/h/\x01", b"/h/\xff"));
}
