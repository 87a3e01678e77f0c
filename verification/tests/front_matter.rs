use rust_website::repository::fs::front_matter::{split, value};

#[test]
fn splits_front_matter() {
    let raw = "+++\nslug = \"hello\"\n+++\n# Title\n";
    let (front, body) = split(raw);
    assert_eq!(front, "slug = \"hello\"");
    assert_eq!(body, "# Title\n");
}

#[test]
fn no_front_matter_returns_empty() {
    let raw = "# Title\nBody.";
    let (front, body) = split(raw);
    assert_eq!(front, "");
    assert_eq!(body, raw);
}

#[test]
fn extracts_value() {
    let front = "slug = \"my-slug\"\nauthor = \"Jane\"";
    assert_eq!(value(front, "slug"), Some("my-slug".into()));
    assert_eq!(value(front, "author"), Some("Jane".into()));
    assert_eq!(value(front, "missing"), None);
}

#[test]
fn split_skips_leading_newlines_and_blank_lines_after_fence() {
    let raw = "\n\n+++\n\nslug = \"x\"\n+++\n\n\nBody";
    let (front, body) = split(raw);
    assert_eq!(front, "slug = \"x\"");
    assert_eq!(body, "Body");
}

#[test]
fn split_without_closing_fence_keeps_everything_as_body() {
    let raw = "\n+++\nslug = \"x\"\n# Title";
    let (front, body) = split(raw);
    assert_eq!(front, "");
    assert_eq!(body, "+++\nslug = \"x\"\n# Title");
}

#[test]
fn value_skips_lines_without_equals() {
    let front = "author = \"A\"\nnot a pair\nslug = \"s\"";
    assert_eq!(value(front, "author"), Some("A".into()));
    assert_eq!(value(front, "slug"), Some("s".into()));
    assert_eq!(value(front, "missing"), None);
}

#[test]
fn value_found_after_blank_line() {
    let front = "slug = \"a\"\n\nauthor = \"b\"";
    assert_eq!(value(front, "author"), Some("b".to_string()));
}

#[test]
fn value_trims_and_unquotes() {
    let front = "  title   =   \"\"Quoted\"\"  \r\nx=1";
    assert_eq!(value(front, "title"), Some("Quoted".into()));
    assert_eq!(value(front, "x"), Some("1".into()));
    assert_eq!(value("", "x"), None);
}
