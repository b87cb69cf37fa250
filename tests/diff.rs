use hoard::diff::{decide, diff_contents, Diff, FileContent};

#[test]
fn test_diff_non_existent_files() {
    let diff = diff_contents(
        FileContent::Missing,
        None,
        FileContent::Missing,
        None,
        "/does/not/exist",
        "/also/does/not/exist",
    );
    assert!(diff.is_none());
}

#[test]
fn test_text_into_bytes() {
    let string_content = String::from("text content");
    let s = FileContent::Text(string_content.clone());
    assert_eq!(s.into_bytes(), Some(string_content.into_bytes()));
}

#[test]
fn test_binary_into_bytes() {
    let bytes = vec![23u8, 244u8, 0u8, 12u8, 17u8];
    let b = FileContent::Binary(bytes.clone());
    assert_eq!(b.into_bytes(), Some(bytes));
}

#[test]
fn test_missing_into_bytes() {
    assert_eq!(FileContent::Missing.into_bytes(), None);
}

#[test]
fn from_bytes_classifies_text_and_binary() {
    assert_eq!(
        FileContent::from_bytes(b"hello\n".to_vec()),
        FileContent::Text("hello\n".to_string())
    );
    assert_eq!(
        FileContent::from_bytes(vec![0xff, 0xfe, 0x00]),
        FileContent::Binary(vec![0xff, 0xfe, 0x00])
    );
}

#[test]
fn missing_sides_are_reported() {
    let left = diff_contents(
        FileContent::Missing,
        None,
        FileContent::Text("x".into()),
        Some(0o644),
        "l",
        "r",
    );
    assert_eq!(left, Some(Diff::LeftNotExists));
    let right = diff_contents(
        FileContent::Binary(vec![1, 2]),
        Some(0o644),
        FileContent::Missing,
        None,
        "l",
        "r",
    );
    assert_eq!(right, Some(Diff::RightNotExists));
}

#[test]
fn same_content_same_mode_is_no_diff() {
    let text = diff_contents(
        FileContent::Text("a\nb\n".into()),
        Some(0o644),
        FileContent::Text("a\nb\n".into()),
        Some(0o644),
        "l",
        "r",
    );
    assert_eq!(text, None);
    let bin = diff_contents(
        FileContent::Binary(vec![0, 159, 146, 150]),
        Some(0o600),
        FileContent::Binary(vec![0, 159, 146, 150]),
        Some(0o600),
        "l",
        "r",
    );
    assert_eq!(bin, None);
}

#[test]
fn changed_line_gives_unified_diff() {
    let diff = diff_contents(
        FileContent::Text("a\nb\nc\n".into()),
        Some(0o644),
        FileContent::Text("a\nx\nc\n".into()),
        Some(0o644),
        "left",
        "right",
    );
    assert_eq!(
        diff,
        Some(Diff::Text(
            "--- left\n+++ right\n@@ -1,3 +1,3 @@\n a\n-b\n+x\n c\n".to_string()
        ))
    );
}

#[test]
fn permissions_change_alone() {
    let diff = diff_contents(
        FileContent::Text("same\n".into()),
        Some(0o644),
        FileContent::Text("same\n".into()),
        Some(0o755),
        "l",
        "r",
    );
    assert_eq!(diff, Some(Diff::Permissions(0o644, 0o755)));
}

#[test]
fn binary_difference_wins_over_permissions() {
    let diff = diff_contents(
        FileContent::Binary(vec![0, 1, 2]),
        Some(0o644),
        FileContent::Binary(vec![0, 9, 2]),
        Some(0o755),
        "l",
        "r",
    );
    assert_eq!(diff, Some(Diff::Binary));
}

#[test]
fn text_against_binary_compares_bytes() {
    let diff = diff_contents(
        FileContent::Text("ab".into()),
        None,
        FileContent::Binary(vec![b'a', 0xff]),
        None,
        "l",
        "r",
    );
    assert_eq!(diff, Some(Diff::Binary));
}

#[test]
fn only_overlap_is_compared() {
    let diff = diff_contents(
        FileContent::Binary(vec![1, 2]),
        Some(0o644),
        FileContent::Binary(vec![1, 2, 3, 0xff]),
        Some(0o644),
        "l",
        "r",
    );
    assert_eq!(diff, None);
}

#[test]
fn decide_uses_given_text_diff() {
    let diff = decide(
        FileContent::Text("a".into()),
        Some(1),
        FileContent::Text("b".into()),
        Some(2),
        Some("rendered".to_string()),
    );
    assert_eq!(diff, Some(Diff::Text("rendered".to_string())));
    let none = decide(
        FileContent::Text("a".into()),
        Some(1),
        FileContent::Text("b".into()),
        Some(2),
        None,
    );
    assert_eq!(none, Some(Diff::Permissions(1, 2)));
}
