//! HTML rendering support.
//!
//! `views`      — view-model structs consumed by the page template.
//! `builder`    — domain-model → view-model conversion.
//! `pagination` — splitting an article's sections into pages.
//! `renderer`   — the interface to the HTML template engine.

pub mod views;
pub mod builder;
pub mod pagination;
pub mod renderer;

use std::collections::HashMap;

use vstd::prelude::*;

use crate::config::types::{copy_footer, PaginationConfig, SiteConfig, ThemeConfig};
use crate::deep_copy::{copy_sections, copy_stories};
use crate::domain::{sections_model, stories_model, ContentBundle, Section, SectionM};
use crate::render::builder::{
    build_section_views_from, build_toc_paged, page_or_first, section_views_spec, toc_spec,
    PageMap,
};
use crate::render::pagination::{
    build_page_map, distinct_heading_ids, lemma_page_map_finds_section_page,
    lemma_paginate_at_least_one_page, page_map_entries, pages_model, paginate, paginate_spec,
};
use crate::render::views::{
    page_content_str, section_views_model, toc_model, AdminArticleEntry, PageContent, PageView,
};

verus! {

/// The pages an article is shown in: paginated when the feature is on, one
/// page with every section otherwise.
pub open spec fn article_pages(secs: Seq<SectionM>, cfg: PaginationConfig) -> Seq<Seq<SectionM>> {
    if cfg.enabled {
        paginate_spec(secs, cfg.symbol_limit as nat)
    } else {
        seq![secs]
    }
}

/// The 1-based page shown for a request: clamped into `1..=total`.
pub open spec fn clamp_page(requested: usize, total: nat) -> nat {
    if requested < 1 {
        1
    } else if requested > total {
        total
    } else {
        requested as nat
    }
}

/// The page-map entries the table of contents links with: those of the
/// pages when pagination is on, none otherwise.
pub open spec fn article_page_entries(secs: Seq<SectionM>, cfg: PaginationConfig) -> Seq<
    (Seq<char>, usize),
> {
    if cfg.enabled {
        page_map_entries(article_pages(secs, cfg))
    } else {
        seq![]
    }
}

/// With distinct heading ids, the table of contents links each heading to
/// the page its section is shown on (page 1 when pagination is off).
pub proof fn lemma_toc_links_to_section_page(
    secs: Seq<SectionM>,
    cfg: PaginationConfig,
    k: int,
    j: int,
)
    requires
        distinct_heading_ids(secs),
        secs.len() < usize::MAX,
        0 <= k < article_pages(secs, cfg).len(),
        0 <= j < article_pages(secs, cfg)[k].len(),
        article_pages(secs, cfg)[k][j].heading is Some,
    ensures
        (page_or_first(article_page_entries(secs, cfg)))(
            article_pages(secs, cfg)[k][j].heading.unwrap().id,
        ) == k + 1,
{
    if cfg.enabled {
        lemma_page_map_finds_section_page(secs, cfg.symbol_limit as nat, k, j);
    }
}

/// Build a `PageView` for a fully-loaded article page.
///
/// `requested_page` is 1-based. When pagination is disabled there is a
/// single page. Out-of-range values are clamped into the valid pages.
pub fn article_view(
    site: &SiteConfig,
    theme: &ThemeConfig,
    bundle: &ContentBundle,
    is_mobile: bool,
    is_admin: bool,
    static_base: &str,
    strings: HashMap<String, String>,
    pagination_cfg: &PaginationConfig,
    requested_page: usize,
) -> (view: PageView)
    ensures
        ({
            let secs = sections_model(bundle.article.sections@);
            let pages = article_pages(secs, *pagination_cfg);
            let current = clamp_page(requested_page, pages.len());
            &&& view.total_pages == pages.len()
            &&& view.current_page == current
            &&& 1 <= current <= pages.len()
            &&& view.has_prev == (current > 1)
            &&& view.has_next == (current < pages.len())
            &&& section_views_model(view.sections@) == section_views_spec(pages[current - 1])
            &&& toc_model(view.toc@) == toc_spec(
                secs,
                page_or_first(article_page_entries(secs, *pagination_cfg)),
            )
        }),
        stories_model(view.stories@) == stories_model(bundle.stories@),
        view.site_title@ == site.title@,
        view.page_title@ == bundle.article.title@,
        view.theme@ == theme.name@,
        view.year == site.footer_year,
        view.is_mobile == is_mobile,
        view.is_admin == is_admin,
        view.footer.model() == site.footer.model(),
        view.content@ == page_content_str(PageContent::Article),
        view.static_base@ == static_base@,
        view.strings == strings,
        view.article_slug@ == bundle.article.slug@,
        view.article_author@ == bundle.article.author@,
        view.article_published@ == bundle.article.published@,
        view.article_description@ == bundle.article.description@,
        view.article_keywords@ == bundle.article.keywords@,
        view.article_cover@ == bundle.article.cover@,
        view.article_og_title@ == bundle.article.og_title@,
        view.article_category@ == bundle.article.category@,
        view.article_tags@ == bundle.article.tags@,
        view.article_reading_time@ == bundle.article.reading_time@,
        view.admin_articles@.len() == 0,
{
    let all_sections = &bundle.article.sections;
    let ghost secs = sections_model(all_sections@);

    // Paginate, or treat everything as one page.
    let pages: Vec<Vec<Section>> = if pagination_cfg.enabled {
        paginate(all_sections, pagination_cfg.symbol_limit)
    } else {
        let mut one: Vec<Vec<Section>> = Vec::new();
        one.push(copy_sections(all_sections));
        assert(pages_model(one@) =~= seq![secs]);
        one
    };
    proof {
        lemma_paginate_at_least_one_page(secs, pagination_cfg.symbol_limit as nat);
        assert(pages_model(pages@).len() == pages@.len());
    }

    let total_pages = pages.len();
    let current_page = if requested_page < 1 {
        1
    } else if requested_page > total_pages {
        total_pages
    } else {
        requested_page
    };
    let page_sections = &pages[current_page - 1];
    assert(pages_model(pages@)[current_page - 1] == sections_model(page_sections@));

    // Page-aware table of contents.
    let page_map = if pagination_cfg.enabled {
        build_page_map(&pages)
    } else {
        PageMap::new()
    };
    assert(page_map.model() =~= article_page_entries(secs, *pagination_cfg));
    let toc = build_toc_paged(&bundle.article, &page_map);

    let mut view = PageView::base(
        site.title.clone(),
        bundle.article.title.clone(),
        theme.name.clone(),
        site.footer_year,
        is_mobile,
        is_admin,
        copy_footer(&site.footer),
        PageContent::Article,
        String::from_str(static_base),
        strings,
    );
    view.toc = toc;
    view.sections = build_section_views_from(page_sections, static_base);
    view.stories = copy_stories(&bundle.stories);
    view.article_slug = bundle.article.slug.clone();
    view.article_author = bundle.article.author.clone();
    view.article_published = bundle.article.published.clone();
    view.article_description = bundle.article.description.clone();
    view.article_keywords = bundle.article.keywords.clone();
    view.article_cover = bundle.article.cover.clone();
    view.article_og_title = bundle.article.og_title.clone();
    view.article_category = bundle.article.category.clone();
    view.article_tags = bundle.article.tags.clone();
    view.article_reading_time = bundle.article.reading_time.clone();
    view.current_page = current_page;
    view.total_pages = total_pages;
    view.has_prev = current_page > 1;
    view.has_next = current_page < total_pages;
    view
}

/// Build a `PageView` for the empty-state page (no articles yet).
pub fn empty_view(
    site: &SiteConfig,
    theme: &ThemeConfig,
    is_mobile: bool,
    is_admin: bool,
    static_base: &str,
    strings: HashMap<String, String>,
) -> (view: PageView)
    ensures
        view.site_title@ == site.title@,
        view.page_title@ == site.title@,
        view.theme@ == theme.name@,
        view.year == site.footer_year,
        view.is_mobile == is_mobile,
        view.is_admin == is_admin,
        view.footer.model() == site.footer.model(),
        view.content@ == page_content_str(PageContent::Empty),
        view.static_base@ == static_base@,
        view.strings == strings,
        view.sections@.len() == 0,
        view.toc@.len() == 0,
        view.stories@.len() == 0,
        view.admin_articles@.len() == 0,
        view.current_page == 1,
        view.total_pages == 1,
        !view.has_prev,
        !view.has_next,
        view.article_slug@.len() == 0,
        view.article_author@.len() == 0,
        view.article_published@.len() == 0,
        view.article_description@.len() == 0,
        view.article_keywords@.len() == 0,
        view.article_cover@.len() == 0,
        view.article_og_title@.len() == 0,
        view.article_category@.len() == 0,
        view.article_tags@.len() == 0,
        view.article_reading_time@.len() == 0,
{
    PageView::base(
        site.title.clone(),
        site.title.clone(),
        theme.name.clone(),
        site.footer_year,
        is_mobile,
        is_admin,
        copy_footer(&site.footer),
        PageContent::Empty,
        String::from_str(static_base),
        strings,
    )
}

/// Build a `PageView` for the admin article list page.
pub fn admin_view(
    site: &SiteConfig,
    theme: &ThemeConfig,
    is_mobile: bool,
    articles: Vec<AdminArticleEntry>,
    static_base: &str,
    strings: HashMap<String, String>,
) -> (view: PageView)
    ensures
        view.site_title@ == site.title@,
        view.page_title@ == "Articles"@,
        view.theme@ == theme.name@,
        view.year == site.footer_year,
        view.is_mobile == is_mobile,
        view.is_admin,
        view.footer.model() == site.footer.model(),
        view.content@ == page_content_str(PageContent::Admin),
        view.static_base@ == static_base@,
        view.strings == strings,
        view.admin_articles@ == articles@,
        view.sections@.len() == 0,
        view.toc@.len() == 0,
        view.stories@.len() == 0,
        view.current_page == 1,
        view.total_pages == 1,
        !view.has_prev,
        !view.has_next,
        view.article_slug@.len() == 0,
        view.article_author@.len() == 0,
        view.article_published@.len() == 0,
        view.article_description@.len() == 0,
        view.article_keywords@.len() == 0,
        view.article_cover@.len() == 0,
        view.article_og_title@.len() == 0,
        view.article_category@.len() == 0,
        view.article_tags@.len() == 0,
        view.article_reading_time@.len() == 0,
{
    let mut view = PageView::base(
        site.title.clone(),
        String::from_str("Articles"),
        theme.name.clone(),
        site.footer_year,
        is_mobile,
        true,
        copy_footer(&site.footer),
        PageContent::Admin,
        String::from_str(static_base),
        strings,
    );
    view.admin_articles = articles;
    view
}

} // verus!
