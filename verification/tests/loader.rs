use rust_website::domain::{Article, Block, Inline, Section};
use rust_website::repository::fs::loader::{
    is_article_file, meta_from_raw, scan, scan_as_meta, snippet_from_article, snippet_from_body, FileMeta,
};
use rust_website::repository::{
    sidebar_from_metas, ArticleMeta, FsArticleRepository, RepoError,
};
use rust_website::repository::fs::parser::ArticleError;
use rust_website::repository::fs::slug::SlugError;

fn files(list: &[(&str, &str)]) -> Vec<(String, String)> {
    list.iter().map(|(p, r)| (p.to_string(), r.to_string())).collect()
}

fn para_article(paragraphs: Vec<&str>) -> Article {
    Article {
        title: "T".into(),
        slug: "t".into(),
        author: String::new(),
        published: String::new(),
        description: String::new(),
        keywords: String::new(),
        cover: String::new(),
        og_title: String::new(),
        category: String::new(),
        tags: String::new(),
        reading_time: String::new(),
        featured: false,
        sections: vec![Section {
            heading: None,
            blocks: paragraphs
                .into_iter()
                .map(|p| Block::Paragraph(vec![Inline::Text(p.to_string())]))
                .collect(),
        }],
    }
}

// ── Snippets ──────────────────────────────────────────────────────────────────

#[test]
fn body_snippet_is_first_meaningful_line_after_h1() {
    let body = "intro before title\n# Title\n\n<!-- c -->\n## Sub\n+++\n**Bold** _text_ `here`\nlater";
    assert_eq!(snippet_from_body(body), "Bold text here");
    assert_eq!(snippet_from_body("no title line\nstuff"), "");
    assert_eq!(snippet_from_body("# T\n***\n  ok  "), "ok");
}

#[test]
fn body_snippet_is_cut_at_120_characters() {
    let long = "a".repeat(130);
    let snip = snippet_from_body(&format!("# T\n{}", long));
    assert_eq!(snip, format!("{}…", "a".repeat(120)));
    let exact = "b".repeat(120);
    assert_eq!(snippet_from_body(&format!("# T\n{}", exact)), exact);
    let wide = "é".repeat(70);
    assert_eq!(snippet_from_body(&format!("# T\n{}", wide)), wide);
    let cyrillic = "я".repeat(61);
    assert_eq!(snippet_from_body(&format!("# T\n{}", cyrillic)), cyrillic);
    let long_wide = "é".repeat(121);
    assert_eq!(snippet_from_body(&format!("# T\n{}", long_wide)), format!("{}…", "é".repeat(120)));
}

#[test]
fn article_snippet_uses_first_non_empty_paragraph() {
    assert_eq!(snippet_from_article(&para_article(vec!["   ", " Hello there "])), "Hello there");
    assert_eq!(snippet_from_article(&para_article(vec![])), "");
    let long = "a".repeat(130);
    assert_eq!(snippet_from_article(&para_article(vec![&long])), format!("{}…", "a".repeat(119)));
    let wide = "é".repeat(70);
    assert_eq!(snippet_from_article(&para_article(vec![&wide])), format!("{}…", "é".repeat(69)));
}

// ── Scanning ──────────────────────────────────────────────────────────────────

#[test]
fn meta_from_raw_reads_title_and_slug() {
    let m = meta_from_raw(&"a.md".to_string(), &"+++\nslug = \"zz\"\n+++\n# Alpha\n".to_string()).unwrap();
    assert_eq!((m.title.as_str(), m.slug.as_str(), m.path.as_str()), ("Alpha", "zz", "a.md"));
    let m2 = meta_from_raw(&"b.md".to_string(), &"# Beta Post\n".to_string()).unwrap();
    assert_eq!(m2.slug, "beta-post");
    assert!(meta_from_raw(&"c.md".to_string(), &"no title".to_string()).is_none());
}

#[test]
fn scan_skips_untitled_files_and_sorts_by_slug() {
    let fs = files(&[
        ("b.md", "# Beta\n"),
        ("a.md", "+++\nslug = \"zz\"\n+++\n# Alpha\n"),
        ("c.md", "no title"),
        ("d.md", "# Alpha Two\n"),
    ]);
    let metas: Vec<FileMeta> = scan(&fs);
    let slugs: Vec<&str> = metas.iter().map(|m| m.slug.as_str()).collect();
    assert_eq!(slugs, vec!["alpha-two", "beta", "zz"]);
    assert_eq!(metas[2].path, "a.md");
}

#[test]
fn scan_is_stable_for_equal_slugs() {
    let fs = files(&[("x.md", "# Same\n"), ("y.md", "# Same\n")]);
    let metas = scan(&fs);
    assert_eq!(metas[0].path, "x.md");
    assert_eq!(metas[1].path, "y.md");
}

#[test]
fn scan_as_meta_adds_body_snippets() {
    let fs = files(&[("p.md", "+++\nslug = \"p\"\n+++\n# Post\n\nFirst *line* here.\n")]);
    let rows = scan_as_meta(&fs);
    assert_eq!(rows.len(), 1);
    assert_eq!(rows[0].title, "Post");
    assert_eq!(rows[0].slug, "p");
    assert_eq!(rows[0].snippet, "First line here.");
}

// ── Sidebar ───────────────────────────────────────────────────────────────────

fn meta(slug: &str) -> ArticleMeta {
    ArticleMeta { title: slug.to_uppercase(), slug: slug.to_string(), snippet: String::new() }
}

#[test]
fn sidebar_excludes_current_article_and_caps_the_count() {
    let metas = vec![meta("a"), meta("b"), meta("c"), meta("d")];
    let cards = sidebar_from_metas(metas, "b", 10, 99);
    assert_eq!(cards.len(), 3);
    assert!(cards.iter().all(|c| c.slug != "b"));
    let mut slugs: Vec<String> = cards.iter().map(|c| c.slug.clone()).collect();
    slugs.sort();
    assert_eq!(slugs, vec!["a", "c", "d"]);
    assert_eq!(cards.iter().find(|c| c.slug == "a").unwrap().title, "A");

    let capped = sidebar_from_metas(vec![meta("a"), meta("b"), meta("c")], "x", 2, 5);
    assert_eq!(capped.len(), 2);
    assert!(sidebar_from_metas(vec![meta("a")], "a", 4, 1).is_empty());
}

// ── Repository decisions ──────────────────────────────────────────────────────

#[test]
fn repository_needs_a_directory() {
    assert!(matches!(FsArticleRepository::new("content".into(), false), Err(RepoError::NotADirectory)));
    let repo = FsArticleRepository::new("content".into(), true).unwrap();
    assert_eq!(repo.dir(), "content");
}

#[test]
fn save_checks_content_article_and_slug() {
    assert!(matches!(FsArticleRepository::check_save("  \n"), Err(RepoError::EmptyContent)));
    assert!(matches!(
        FsArticleRepository::check_save("just text"),
        Err(RepoError::InvalidArticle(ArticleError::NoTitle))
    ));
    assert!(matches!(
        FsArticleRepository::check_save("+++\nslug = \"Bad Slug\"\n+++\n# T\n"),
        Err(RepoError::InvalidSlug(SlugError::InvalidChars))
    ));
    assert_eq!(FsArticleRepository::check_save("# Good Title\nbody").unwrap(), "good-title");
}

#[test]
fn delete_checks_slug_characters() {
    assert!(FsArticleRepository::check_delete("ok-slug").is_ok());
    assert!(matches!(
        FsArticleRepository::check_delete("../etc"),
        Err(RepoError::InvalidSlug(SlugError::InvalidChars))
    ));
}

#[test]
fn read_checks_slug_characters() {
    assert!(FsArticleRepository::check_get("hello-world-2").is_ok());
    for bad in ["../etc/passwd", "a/b", "a\\b", "x.md", "..", "Upper"] {
        assert!(matches!(
            FsArticleRepository::check_get(bad),
            Err(RepoError::InvalidSlug(SlugError::InvalidChars))
        ));
    }
}

#[test]
fn random_slug_comes_from_the_scan() {
    assert!(matches!(FsArticleRepository::pick_random_slug(&vec![]), Err(RepoError::NoArticles)));
    let metas = scan(&files(&[("a.md", "# A\n"), ("b.md", "# B\n")]));
    let s = FsArticleRepository::pick_random_slug(&metas).unwrap();
    assert!(s == "a" || s == "b");
}

#[test]
fn only_md_files_are_articles() {
    assert!(is_article_file("content/post.md"));
    assert!(!is_article_file("content/post.MD"));
    assert!(!is_article_file("content/post.txt"));
    assert!(!is_article_file("content/.md"));
    assert!(!is_article_file("content/md"));
}
