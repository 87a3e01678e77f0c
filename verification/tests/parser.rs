use rust_website::domain::{Block, Inline};
use rust_website::repository::fs::parser::{
    collect_inlines, extract_title, inlines_to_plain_text, normalize_breaks, parse_ad_comment,
    parse_article, parse_block, parse_events, ArticleError,
};
use rust_website::repository::fs::markdown::{MdEvent, MdTag, MdTagEnd};

const SAMPLE: &str = "+++
slug = \"custom-slug\"
author = \"Jane\"
published = \"2026-04-01\"
featured = \"true\"
+++

# Hello *World*

Intro paragraph.

## First Section

Some **bold** text and `code`.

<!-- ad: top-banner -->

- one
- two

## Second

> quoted

---

```rust
fn main() {}
```
";

#[test]
fn parses_front_matter_title_and_sections() {
    let a = parse_article(SAMPLE).unwrap();
    assert_eq!(a.title, "Hello World");
    assert_eq!(a.slug, "custom-slug");
    assert_eq!(a.author, "Jane");
    assert_eq!(a.published, "2026-04-01");
    assert!(a.featured);
    assert_eq!(a.description, "");
    assert_eq!(a.sections.len(), 3);

    let intro = &a.sections[0];
    assert!(intro.heading.is_none());
    assert_eq!(intro.blocks.len(), 1);
    match &intro.blocks[0] {
        Block::Paragraph(inl) => assert_eq!(inlines_to_plain_text(inl), "Intro paragraph."),
        other => panic!("unexpected block {:?}", other),
    }

    let first = &a.sections[1];
    let h = first.heading.as_ref().unwrap();
    assert_eq!(h.level, 2);
    assert_eq!(h.text, "First Section");
    assert_eq!(h.id, "first-section");
    assert_eq!(first.blocks.len(), 3);
    match &first.blocks[0] {
        Block::Paragraph(inl) => {
            assert_eq!(inl.len(), 5);
            assert!(matches!(&inl[1], Inline::Strong(ch) if ch.len() == 1));
            assert!(matches!(&inl[3], Inline::Code(c) if c == "code"));
            assert_eq!(inlines_to_plain_text(inl), "Some bold text and code.");
        }
        other => panic!("unexpected block {:?}", other),
    }
    assert!(matches!(&first.blocks[1], Block::Ad(slot) if slot == "top-banner"));
    match &first.blocks[2] {
        Block::List { ordered, items } => {
            assert!(!ordered);
            assert_eq!(items.len(), 2);
            match &items[1].blocks[0] {
                Block::Paragraph(inl) => assert_eq!(inlines_to_plain_text(inl), "two"),
                other => panic!("unexpected block {:?}", other),
            }
        }
        other => panic!("unexpected block {:?}", other),
    }

    let second = &a.sections[2];
    assert_eq!(second.heading.as_ref().unwrap().id, "second");
    assert_eq!(second.blocks.len(), 3);
    assert!(matches!(&second.blocks[0], Block::BlockQuote(bs) if bs.len() == 1));
    assert!(matches!(&second.blocks[1], Block::Rule));
    match &second.blocks[2] {
        Block::CodeBlock { lang, code } => {
            assert_eq!(lang, "rust");
            assert_eq!(code, "fn main() {}\n");
        }
        other => panic!("unexpected block {:?}", other),
    }
}

#[test]
fn slug_falls_back_to_slugified_title() {
    let a = parse_article("# My First Post!\n\nBody text.").unwrap();
    assert_eq!(a.slug, "my-first-post");
    assert_eq!(a.author, "");
    assert!(!a.featured);
    assert_eq!(a.sections.len(), 1);
}

#[test]
fn first_h1_wins_and_later_h1s_are_dropped() {
    let a = parse_article("# One\n\n# Two\n\ntext").unwrap();
    assert_eq!(a.title, "One");
    assert_eq!(a.sections.len(), 1);
}

#[test]
fn tables_are_collected() {
    let a = parse_article("# T\n\n| a | b |\n|---|---|\n| 1 | 2 |\n| 3 | 4 |\n").unwrap();
    match &a.sections[0].blocks[0] {
        Block::Table { headers, rows } => {
            assert_eq!(headers.len(), 2);
            assert_eq!(inlines_to_plain_text(&headers[0]), "a");
            assert_eq!(inlines_to_plain_text(&headers[1]), "b");
            assert_eq!(rows.len(), 2);
            assert_eq!(rows[0].len(), 2);
            assert_eq!(inlines_to_plain_text(&rows[1][0]), "3");
        }
        other => panic!("unexpected block {:?}", other),
    }
}

#[test]
fn refuses_empty_binary_and_untitled_text() {
    assert!(matches!(parse_article(""), Err(ArticleError::Empty)));
    assert!(matches!(parse_article("  \n\t "), Err(ArticleError::Empty)));
    assert!(matches!(parse_article("# T\n\u{1}\u{1}\u{1}\u{1}"), Err(ArticleError::Binary)));
    assert!(matches!(parse_article("# T\nabc\u{1}\u{1}\u{1}\u{1}"), Err(ArticleError::Binary)));
    assert!(matches!(parse_article("just text"), Err(ArticleError::NoTitle)));
    assert!(matches!(parse_article("## only h2\n"), Err(ArticleError::NoTitle)));
}

#[test]
fn extract_title_reads_first_h1_text() {
    assert_eq!(extract_title("# Hello *World*\n\nbody"), "Hello World");
    assert_eq!(extract_title("no heading"), "");
    assert_eq!(extract_title("## h2\n# h1\n"), "h1");
}

#[test]
fn plain_text_flattens_inlines() {
    let inl = vec![
        Inline::Text("a".into()),
        Inline::SoftBreak,
        Inline::Strong(vec![Inline::Text("b".into())]),
        Inline::HardBreak,
        Inline::Image { src: "s.png".into(), alt: "c".into(), title: "".into() },
        Inline::Link { href: "/x".into(), title: "".into(), children: vec![Inline::Code("d".into())] },
    ];
    assert_eq!(inlines_to_plain_text(&inl), "a b cd");
}

#[test]
fn soft_break_before_link_becomes_hard_break() {
    let inl = vec![
        Inline::Text("a".into()),
        Inline::SoftBreak,
        Inline::Link { href: "/x".into(), title: "".into(), children: vec![] },
        Inline::SoftBreak,
        Inline::Text("b".into()),
    ];
    let out = normalize_breaks(inl);
    assert_eq!(out.len(), 5);
    assert!(matches!(out[1], Inline::HardBreak));
    assert!(matches!(out[3], Inline::SoftBreak));
}

#[test]
fn ad_comments_name_a_slot() {
    assert_eq!(parse_ad_comment("<!-- ad: top-banner -->"), Some("top-banner".to_string()));
    assert_eq!(parse_ad_comment("  <!--ad:side-->\n"), Some("side".to_string()));
    assert_eq!(parse_ad_comment("<!-- note -->"), None);
    assert_eq!(parse_ad_comment("<div>"), None);
}

#[test]
fn a_few_control_bytes_are_not_binary() {
    let a = parse_article("# T\n\nab\u{1}cd").unwrap();
    assert_eq!(a.title, "T");
    let b = parse_article("# T\nabc\u{1}\u{1}\u{1}").unwrap();
    assert_eq!(b.title, "T");
}

#[test]
fn table_header_cells_are_kept() {
    let a = parse_article("# T\n\n| h |\n|---|\n| v |\n").unwrap();
    match &a.sections[0].blocks[0] {
        Block::Table { headers, rows } => {
            assert_eq!(headers.len(), 1);
            assert_eq!(headers[0].len(), 1);
            assert!(matches!(&headers[0][0], Inline::Text(t) if t == "h"));
            assert_eq!(rows.len(), 1);
            assert_eq!(rows[0].len(), 1);
            assert_eq!(rows[0][0].len(), 1);
            assert!(matches!(&rows[0][0][0], Inline::Text(t) if t == "v"));
        }
        other => panic!("unexpected block {:?}", other),
    }
}

#[test]
fn section_headings_are_levels_two_to_six() {
    let a = parse_article("intro\n\n# T\n\n## Two\n\n###### Six Deep\n\n####### seven\n").unwrap();
    assert_eq!(a.sections.len(), 3);
    assert!(a.sections[0].heading.is_none());
    assert!(!a.sections[0].blocks.is_empty());
    let two = a.sections[1].heading.as_ref().unwrap();
    assert_eq!((two.level, two.id.as_str()), (2, "two"));
    let six = a.sections[2].heading.as_ref().unwrap();
    assert_eq!((six.level, six.id.as_str(), six.text.as_str()), (6, "six-deep", "Six Deep"));
    assert_eq!(a.sections[2].blocks.len(), 1);
    for s in &a.sections {
        if let Some(h) = &s.heading {
            assert!(2 <= h.level && h.level <= 6);
        }
    }
}

#[test]
fn a_span_end_with_no_open_span_is_passed_over() {
    let ev = vec![
        MdEvent::Start(MdTag::Paragraph),
        MdEvent::Text("a".into()),
        MdEvent::End(MdTagEnd::Strong),
        MdEvent::Text("b".into()),
        MdEvent::End(MdTagEnd::Paragraph),
    ];
    let (inl, end) = collect_inlines(&ev, 1, MdTagEnd::Paragraph);
    assert_eq!(end, 4);
    assert_eq!(inl.len(), 2);
    assert_eq!(inlines_to_plain_text(&inl), "ab");
    let (block, next) = parse_block(&ev, 0);
    assert_eq!(next, 5);
    assert!(matches!(block, Some(Block::Paragraph(ref p)) if p.len() == 2));
    let (title, sections) = parse_events(&ev);
    assert_eq!(title, "");
    assert_eq!(sections.len(), 1);
    assert!(sections[0].heading.is_none());
}

#[test]
fn blank_and_binary_texts_are_refused_before_the_title_check() {
    assert!(matches!(parse_article("+++\nslug = \"x\"\n+++\n"), Err(ArticleError::NoTitle)));
    assert!(matches!(parse_article("\n\n  "), Err(ArticleError::Empty)));
    assert!(matches!(parse_article("\u{1}\u{2}\u{3}"), Err(ArticleError::Binary)));
}
