use std::collections::HashMap;

use rust_website::config::types::{FooterConfig, PaginationConfig, SiteConfig, ThemeConfig};
use rust_website::domain::{Article, Block, ContentBundle, Heading, Inline, Section, StoryHeader};
use rust_website::render::builder::{
    block_view, build_section_views, build_toc, build_toc_paged, inline_view, section_view, PageMap,
};
use rust_website::render::pagination::{
    block_symbol_count, build_page_map, inline_symbol_count, paginate, section_symbol_count,
};
use rust_website::render::views::{AdminArticleEntry, InlineView, PageContent};
use rust_website::render::{admin_view, article_view, empty_view};

fn text(s: &str) -> Inline {
    Inline::Text(s.to_string())
}

fn section(id: &str, label: &str, body: &str) -> Section {
    Section {
        heading: Some(Heading { level: 2, id: id.to_string(), text: label.to_string() }),
        blocks: vec![Block::Paragraph(vec![text(body)])],
    }
}

fn article(sections: Vec<Section>) -> Article {
    Article {
        title: "Title".into(),
        slug: "title".into(),
        author: "Ann".into(),
        published: "2026-01-01".into(),
        description: "d".into(),
        keywords: "k".into(),
        cover: "c.png".into(),
        og_title: "og".into(),
        category: "cat".into(),
        tags: "t1,t2".into(),
        reading_time: "3 min".into(),
        featured: false,
        sections,
    }
}

fn site() -> SiteConfig {
    SiteConfig {
        title: "Site".into(),
        page_title: "Page".into(),
        footer_year: 2026,
        language: "en".into(),
        footer: FooterConfig::default(),
        base_url: "https://example.org".into(),
    }
}

// ── Symbol counts ─────────────────────────────────────────────────────────────

#[test]
fn symbols_count_readable_text_only() {
    assert_eq!(inline_symbol_count(&text("héllo")), Some(5));
    assert_eq!(inline_symbol_count(&Inline::SoftBreak), Some(0));
    assert_eq!(
        inline_symbol_count(&Inline::Image { src: "x".into(), alt: "alt".into(), title: "".into() }),
        Some(0)
    );
    assert_eq!(
        inline_symbol_count(&Inline::Link {
            href: "/abc".into(),
            title: "t".into(),
            children: vec![text("ab"), Inline::Strong(vec![text("cd")])]
        }),
        Some(4)
    );
    assert_eq!(block_symbol_count(&Block::Rule), Some(0));
    assert_eq!(block_symbol_count(&Block::Ad("slot".into())), Some(0));
    assert_eq!(
        block_symbol_count(&Block::CodeBlock { lang: "rust".into(), code: "let x;".into() }),
        Some(6)
    );
    assert_eq!(
        block_symbol_count(&Block::Table {
            headers: vec![vec![text("ab")]],
            rows: vec![vec![vec![text("c")], vec![text("de")]]]
        }),
        Some(5)
    );
    assert_eq!(section_symbol_count(&section("a", "Abc", "0123456789")), Some(13));
}

// ── Pagination ────────────────────────────────────────────────────────────────

#[test]
fn paginate_closes_a_page_at_the_section_that_goes_over() {
    let secs = vec![
        section("a", "A", "0123456789"),
        section("b", "B", "01234"),
        section("c", "C", "01234"),
    ];
    let pages = paginate(&secs, 10);
    assert_eq!(pages.len(), 2);
    assert_eq!(pages[0].len(), 1);
    assert_eq!(pages[1].len(), 2);
    assert_eq!(pages[1][1].heading.as_ref().unwrap().id, "c");
}

#[test]
fn paginate_keeps_everything_on_one_page_within_limit() {
    let secs = vec![section("a", "A", "xx"), section("b", "B", "yy")];
    let pages = paginate(&secs, 100);
    assert_eq!(pages.len(), 1);
    assert_eq!(pages[0].len(), 2);
}

#[test]
fn paginate_of_nothing_is_one_empty_page() {
    let pages = paginate(&Vec::new(), 10);
    assert_eq!(pages.len(), 1);
    assert!(pages[0].is_empty());
}

#[test]
fn paginate_with_zero_limit_puts_each_counted_section_alone() {
    let secs = vec![section("a", "A", "x"), section("b", "B", "y")];
    let pages = paginate(&secs, 0);
    assert_eq!(pages.len(), 2);
    let flat: Vec<String> =
        pages.iter().flatten().map(|s| s.heading.as_ref().unwrap().id.clone()).collect();
    assert_eq!(flat, vec!["a".to_string(), "b".to_string()]);
}

#[test]
fn page_map_gives_each_anchor_its_page() {
    let secs = vec![
        section("a", "A", "0123456789"),
        section("b", "B", "01234"),
        Section { heading: None, blocks: vec![] },
    ];
    let pages = paginate(&secs, 10);
    let map = build_page_map(&pages);
    assert_eq!(map.get(&"a".to_string()), Some(1));
    assert_eq!(map.get(&"b".to_string()), Some(2));
    assert_eq!(map.get(&"zz".to_string()), None);
    let mut dup = PageMap::new();
    dup.entries.push(("x".into(), 1));
    dup.entries.push(("x".into(), 3));
    assert_eq!(dup.get(&"x".to_string()), Some(3));
}

// ── Builder ───────────────────────────────────────────────────────────────────

#[test]
fn toc_lists_headed_sections() {
    let a = article(vec![
        Section { heading: None, blocks: vec![Block::Paragraph(vec![text("intro")])] },
        section("one", "One", "x"),
        Section {
            heading: Some(Heading { level: 3, id: "two".into(), text: "Two".into() }),
            blocks: vec![],
        },
    ]);
    let toc = build_toc(&a);
    assert_eq!(toc.len(), 2);
    assert_eq!(toc[0].anchor, "one");
    assert_eq!(toc[0].label, "One");
    assert_eq!(toc[0].level, "h2");
    assert_eq!(toc[0].page, 1);
    assert_eq!(toc[1].level, "h3");

    let mut map = PageMap::new();
    map.entries.push(("two".into(), 4));
    let paged = build_toc_paged(&a, &map);
    assert_eq!(paged[0].page, 1);
    assert_eq!(paged[1].page, 4);
}

#[test]
fn section_and_block_views_carry_kinds() {
    let a = article(vec![section("one", "One", "x")]);
    let views = build_section_views(&a, "");
    assert_eq!(views.len(), 1);
    assert!(views[0].has_heading);
    assert_eq!(views[0].heading_level, "h2");
    assert_eq!(views[0].heading_id, "one");
    assert_eq!(views[0].blocks[0].kind, "paragraph");
    assert_eq!(views[0].blocks[0].inlines[0].kind, "text");
    assert_eq!(views[0].blocks[0].inlines[0].text, "x");

    let intro = section_view(&Section { heading: None, blocks: vec![Block::Rule] }, "");
    assert!(!intro.has_heading);
    assert_eq!(intro.heading_level, "");
    assert_eq!(intro.blocks[0].kind, "rule");

    let list = block_view(
        &Block::List {
            ordered: true,
            items: vec![rust_website::domain::ListItem { blocks: vec![Block::Ad("s".into())] }],
        },
        "",
    );
    assert_eq!(list.kind, "list");
    assert!(list.ordered);
    assert_eq!(list.items[0].blocks[0].kind, "ad");
    assert_eq!(list.items[0].blocks[0].slot, "s");

    let code = block_view(&Block::CodeBlock { lang: "sh".into(), code: "ls".into() }, "");
    assert_eq!((code.kind.as_str(), code.lang.as_str(), code.code.as_str()), ("code", "sh", "ls"));
}

#[test]
fn inline_views_mirror_inlines() {
    let link = inline_view(
        &Inline::Link { href: "/h".into(), title: "t".into(), children: vec![text("c")] },
        "",
    );
    assert_eq!(link.kind, "link");
    assert_eq!(link.href, "/h");
    assert_eq!(link.link_title, "t");
    assert_eq!(link.children[0].text, "c");
    let img = inline_view(&Inline::Image { src: "a.png".into(), alt: "A".into(), title: "T".into() }, "");
    assert_eq!((img.kind.as_str(), img.src.as_str(), img.alt.as_str(), img.img_title.as_str()), ("image", "a.png", "A", "T"));
    let br = inline_view(&Inline::HardBreak, "");
    assert_eq!(br.kind, "hardbreak");
    assert_eq!(br.text, "");
    let leaf = InlineView::leaf("text", "hi");
    assert_eq!(leaf.text, "hi");
    assert!(leaf.children.is_empty());
}

// ── Page views ────────────────────────────────────────────────────────────────

fn bundle() -> ContentBundle {
    ContentBundle {
        article: article(vec![
            section("a", "A", "0123456789"),
            section("b", "B", "01234"),
            section("c", "C", "01234"),
        ]),
        stories: vec![StoryHeader { title: "S".into(), slug: "s".into(), snippet: "".into() }],
    }
}

#[test]
fn article_view_paginates_and_clamps_the_page() {
    let cfg = PaginationConfig { enabled: true, symbol_limit: 10 };
    let b = bundle();
    let theme = ThemeConfig { name: "dark".into() };
    let v = article_view(&site(), &theme, &b, true, false, "/cdn", HashMap::new(), &cfg, 2);
    assert_eq!(v.total_pages, 2);
    assert_eq!(v.current_page, 2);
    assert!(v.has_prev);
    assert!(!v.has_next);
    assert_eq!(v.sections.len(), 2);
    assert_eq!(v.sections[0].heading_id, "b");
    assert_eq!(v.toc.len(), 3);
    assert_eq!(v.toc[0].page, 1);
    assert_eq!(v.toc[2].page, 2);
    assert_eq!(v.content, "article");
    assert_eq!(v.page_title, "Title");
    assert_eq!(v.article_author, "Ann");
    assert_eq!(v.article_tags, "t1,t2");
    assert_eq!(v.theme, "dark");
    assert_eq!(v.static_base, "/cdn");
    assert_eq!(v.stories.len(), 1);
    assert!(v.is_mobile);

    let low = article_view(&site(), &theme, &b, false, false, "", HashMap::new(), &cfg, 0);
    assert_eq!(low.current_page, 1);
    assert!(!low.has_prev);
    assert!(low.has_next);
    let high = article_view(&site(), &theme, &b, false, false, "", HashMap::new(), &cfg, 99);
    assert_eq!(high.current_page, 2);
}

#[test]
fn article_view_without_pagination_is_one_page() {
    let cfg = PaginationConfig::default();
    let b = bundle();
    let theme = ThemeConfig { name: "light".into() };
    let v = article_view(&site(), &theme, &b, false, true, "", HashMap::new(), &cfg, 5);
    assert_eq!(v.total_pages, 1);
    assert_eq!(v.current_page, 1);
    assert_eq!(v.sections.len(), 3);
    assert!(v.toc.iter().all(|t| t.page == 1));
    assert!(v.is_admin);
}

#[test]
fn empty_and_admin_views() {
    let theme = ThemeConfig { name: "light".into() };
    let e = empty_view(&site(), &theme, false, false, "", HashMap::new());
    assert_eq!(e.content, PageContent::Empty.as_str());
    assert_eq!(e.page_title, "Site");
    assert!(e.sections.is_empty());
    let rows = vec![AdminArticleEntry { slug: "s".into(), title: "T".into(), preview: "p".into() }];
    let a = admin_view(&site(), &theme, true, rows, "", HashMap::new());
    assert_eq!(a.content, "admin");
    assert_eq!(a.page_title, "Articles");
    assert!(a.is_admin);
    assert_eq!(a.admin_articles.len(), 1);
    assert_eq!(PageContent::Article.as_str(), "article");
}
