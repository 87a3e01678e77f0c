use rust_website::repository::fs::slug::validate;
use rust_website::repository::fs::util::{index_from_nanos, random_index, shuffle, slugify};

#[test]
fn slugify_basic() {
    assert_eq!(slugify("Hello, World!"), "hello-world");
    assert_eq!(slugify("  spaces  "), "spaces");
    assert_eq!(slugify("A--B"), "a-b");
}

#[test]
fn slugify_transliterates_cyrillic() {
    assert_eq!(slugify("Привет, Мир"), "privet-mir");
    assert_eq!(slugify("Щука и ёж"), "schuka-i-yozh");
    assert_eq!(slugify("объём"), "obyom");
}

#[test]
fn slugify_replaces_other_characters_with_dashes() {
    assert_eq!(slugify("Café au lait"), "caf-au-lait");
    assert_eq!(slugify("---"), "");
    assert_eq!(slugify(""), "");
    assert_eq!(slugify("Rust 2024 Edition"), "rust-2024-edition");
}

#[test]
fn random_index_is_in_range() {
    for len in 1..20 {
        assert!(random_index(len) < len);
    }
    assert_eq!(index_from_nanos(17, 5), 2);
    assert_eq!(index_from_nanos(999_999_999, 1), 0);
}

#[test]
fn shuffle_is_a_permutation() {
    let mut v: Vec<u32> = (0..10).collect();
    shuffle(&mut v, 42);
    let mut sorted = v.clone();
    sorted.sort();
    assert_eq!(sorted, (0..10).collect::<Vec<u32>>());
    let mut w: Vec<u32> = (0..10).collect();
    shuffle(&mut w, 42);
    assert_eq!(v, w);
    let mut one = vec![7u32];
    shuffle(&mut one, 1);
    assert_eq!(one, vec![7]);
}

#[test]
fn slugs_are_valid_and_stable() {
    for text in ["Hello, World!", "  --Rust & Verus--  ", "Щука и ёж", "a--b---c", "ÄÖÜ 42"] {
        let s = slugify(text);
        assert_eq!(slugify(&s), s);
        if !s.is_empty() {
            assert_eq!(validate(&s), Ok(()));
        }
        assert!(!s.starts_with('-') && !s.ends_with('-') && !s.contains("--"));
    }
}

#[test]
fn shuffle_follows_the_xorshift_fisher_yates_order() {
    let mut expected: Vec<u32> = (0..10).collect();
    let mut state: u64 = 42;
    for i in (1..expected.len()).rev() {
        state ^= state << 13;
        state ^= state >> 7;
        state ^= state << 17;
        expected.swap(i, (state as usize) % (i + 1));
    }
    let mut v: Vec<u32> = (0..10).collect();
    shuffle(&mut v, 42);
    assert_eq!(v, expected);
    assert_ne!(v, (0..10).collect::<Vec<u32>>());
}
