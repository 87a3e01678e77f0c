use rust_website::repository::fs::slug::{derive_at, validate, validate_chars, SlugError};

#[test]
fn derive_prefers_front_matter_slug() {
    assert_eq!(derive_at("+++\nslug = \"from-front\"\n+++\n# Title\n", 7), "from-front");
    assert_eq!(rust_website::repository::fs::slug::derive("+++\nslug = \"from-front\"\n+++\n# Title\n"), "from-front");
}

#[test]
fn derive_uses_first_h1_line() {
    assert_eq!(derive_at("intro\n  # Big News!  \nmore", 7), "big-news");
    assert_eq!(derive_at("+++\nslug = \"\"\n+++\n# Empty Front\n", 7), "empty-front");
}

#[test]
fn derive_falls_back_to_timestamp() {
    assert_eq!(derive_at("no heading at all", 1234), "article-1234");
    assert_eq!(derive_at("#   \n", 0), "article-0");
    assert!(rust_website::repository::fs::slug::derive("no heading").starts_with("article-"));
}

#[test]
fn validate_refuses_empty_and_bad_characters() {
    assert_eq!(validate(""), Err(SlugError::Empty));
    assert_eq!(validate("ok-slug-1"), Ok(()));
    assert_eq!(validate("Upper"), Err(SlugError::InvalidChars));
    assert_eq!(validate("../etc"), Err(SlugError::InvalidChars));
    assert_eq!(validate_chars(""), Ok(()));
    assert_eq!(validate_chars("a/b"), Err(SlugError::InvalidChars));
}
