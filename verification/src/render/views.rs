//! View models consumed by the page template.

use std::collections::HashMap;

use vstd::prelude::*;

pub use crate::domain::StoryHeader;
use crate::config::types::FooterConfig;

verus! {

// ── Page mode ─────────────────────────────────────────────────────────────────

/// Which content slot the single-frame template should render.
#[derive(Debug, Clone, Copy, PartialEq, Eq, Structural)]
pub enum PageContent {
    Article,
    Empty,
    Admin,
}

pub open spec fn page_content_str(c: PageContent) -> Seq<char> {
    match c {
        PageContent::Article => "article"@,
        PageContent::Empty => "empty"@,
        PageContent::Admin => "admin"@,
    }
}

impl PageContent {
    /// String tag used in the template for `{% if content == "..." %}` branches
    /// and as the `page--{mode}` body class.
    pub fn as_str(&self) -> (r: &'static str)
        ensures
            r@ == page_content_str(*self),
    {
        match self {
            PageContent::Article => "article",
            PageContent::Empty => "empty",
            PageContent::Admin => "admin",
        }
    }
}

// ── Top-level page view ───────────────────────────────────────────────────────

/// Everything the single page frame needs, for any page mode.
pub struct PageView {
    // Always present.
    pub site_title: String,
    pub page_title: String,
    pub theme: String,
    pub year: u16,
    pub is_mobile: bool,
    pub is_admin: bool,
    pub footer: FooterConfig,
    pub content: String,
    // Article mode only (empty otherwise).
    pub article_slug: String,
    pub article_author: String,
    pub article_published: String,
    pub article_description: String,
    pub article_keywords: String,
    pub article_cover: String,
    pub article_og_title: String,
    pub article_category: String,
    pub article_tags: String,
    pub article_reading_time: String,
    pub sections: Vec<SectionView>,
    pub toc: Vec<TocEntry>,
    pub stories: Vec<StoryHeader>,
    // Pagination (article mode only).
    pub current_page: usize,
    pub total_pages: usize,
    pub has_prev: bool,
    pub has_next: bool,
    // Admin list mode only (empty otherwise).
    pub admin_articles: Vec<AdminArticleEntry>,
    pub static_base: String,
    pub strings: HashMap<String, String>,
}

impl PageView {
    /// A page with the fields every mode has; the article, pagination and
    /// admin fields are empty, with one page.
    pub fn base(
        site_title: String,
        page_title: String,
        theme: String,
        year: u16,
        is_mobile: bool,
        is_admin: bool,
        footer: FooterConfig,
        content: PageContent,
        static_base: String,
        strings: HashMap<String, String>,
    ) -> (r: PageView)
        ensures
            r.site_title@ == site_title@,
            r.page_title@ == page_title@,
            r.theme@ == theme@,
            r.year == year,
            r.is_mobile == is_mobile,
            r.is_admin == is_admin,
            r.footer.model() == footer.model(),
            r.content@ == page_content_str(content),
            r.static_base@ == static_base@,
            r.strings == strings,
            r.article_slug@.len() == 0,
            r.article_author@.len() == 0,
            r.article_published@.len() == 0,
            r.article_description@.len() == 0,
            r.article_keywords@.len() == 0,
            r.article_cover@.len() == 0,
            r.article_og_title@.len() == 0,
            r.article_category@.len() == 0,
            r.article_tags@.len() == 0,
            r.article_reading_time@.len() == 0,
            r.sections@.len() == 0,
            r.toc@.len() == 0,
            r.stories@.len() == 0,
            r.current_page == 1,
            r.total_pages == 1,
            !r.has_prev,
            !r.has_next,
            r.admin_articles@.len() == 0,
    {
        PageView {
            site_title,
            page_title,
            theme,
            year,
            is_mobile,
            is_admin,
            footer,
            content: String::from_str(content.as_str()),
            article_slug: String::new(),
            article_author: String::new(),
            article_published: String::new(),
            article_description: String::new(),
            article_keywords: String::new(),
            article_cover: String::new(),
            article_og_title: String::new(),
            article_category: String::new(),
            article_tags: String::new(),
            article_reading_time: String::new(),
            sections: Vec::new(),
            toc: Vec::new(),
            stories: Vec::new(),
            current_page: 1,
            total_pages: 1,
            has_prev: false,
            has_next: false,
            admin_articles: Vec::new(),
            static_base,
            strings,
        }
    }
}

// ── Admin article entry ───────────────────────────────────────────────────────

/// Lightweight row shown in the admin article list.
#[derive(Debug)]
pub struct AdminArticleEntry {
    pub slug: String,
    pub title: String,
    pub preview: String,
}

// ── TOC ───────────────────────────────────────────────────────────────────────

/// One entry in the table of contents.
#[derive(Debug)]
pub struct TocEntry {
    pub anchor: String,
    pub label: String,
    /// `"h2"` | `"h3"` | `"h4"` | `"h5"` | `"h6"`
    pub level: String,
    /// 1-based page number this heading lives on (always 1 when pagination off).
    pub page: usize,
}

pub struct TocM {
    pub anchor: Seq<char>,
    pub label: Seq<char>,
    pub level: Seq<char>,
    pub page: usize,
}

impl TocEntry {
    pub open spec fn model(&self) -> TocM {
        TocM { anchor: self.anchor@, label: self.label@, level: self.level@, page: self.page }
    }
}

pub open spec fn toc_model(s: Seq<TocEntry>) -> Seq<TocM> {
    s.map_values(|t: TocEntry| t.model())
}

// ── Inlines ───────────────────────────────────────────────────────────────────

/// A rendered inline node.
///
/// `kind`: `"text"` | `"softbreak"` | `"hardbreak"` | `"code"` |
///         `"strong"` | `"em"` | `"link"` | `"image"`
#[derive(Debug)]
pub struct InlineView {
    pub kind: String,
    pub text: String,
    pub children: Vec<InlineView>,
    pub href: String,
    pub link_title: String,
    pub src: String,
    pub alt: String,
    pub img_title: String,
}

pub struct InlineViewM {
    pub kind: Seq<char>,
    pub text: Seq<char>,
    pub children: Seq<InlineViewM>,
    pub href: Seq<char>,
    pub link_title: Seq<char>,
    pub src: Seq<char>,
    pub alt: Seq<char>,
    pub img_title: Seq<char>,
}

impl InlineView {
    pub open spec fn model(&self) -> InlineViewM
        decreases self,
    {
        InlineViewM {
            kind: self.kind@,
            text: self.text@,
            children: inline_views_model(self.children@),
            href: self.href@,
            link_title: self.link_title@,
            src: self.src@,
            alt: self.alt@,
            img_title: self.img_title@,
        }
    }

    /// A node of the given kind with every field empty.
    pub fn empty() -> (r: InlineView)
        ensures
            r.model() == empty_inline_view(),
    {
        let r = InlineView {
            kind: String::new(),
            text: String::new(),
            children: Vec::new(),
            href: String::new(),
            link_title: String::new(),
            src: String::new(),
            alt: String::new(),
            img_title: String::new(),
        };
        assert(inline_views_model(r.children@) =~= Seq::<InlineViewM>::empty());
        r
    }

    /// A childless node of the given kind holding `text`.
    pub fn leaf(kind: &str, text: &str) -> (r: InlineView)
        ensures
            r.model() == (InlineViewM { kind: kind@, text: text@, ..empty_inline_view() }),
    {
        InlineView { kind: String::from_str(kind), text: String::from_str(text), ..InlineView::empty() }
    }

    /// A node of the given kind holding child nodes.
    pub fn with_children(kind: &str, children: Vec<InlineView>) -> (r: InlineView)
        ensures
            r.model() == (InlineViewM {
                kind: kind@,
                children: inline_views_model(children@),
                ..empty_inline_view()
            }),
    {
        InlineView { kind: String::from_str(kind), children, ..InlineView::empty() }
    }
}

pub open spec fn empty_inline_view() -> InlineViewM {
    InlineViewM {
        kind: seq![],
        text: seq![],
        children: seq![],
        href: seq![],
        link_title: seq![],
        src: seq![],
        alt: seq![],
        img_title: seq![],
    }
}

pub open spec fn inline_views_model(s: Seq<InlineView>) -> Seq<InlineViewM>
    decreases s,
{
    if s.len() == 0 {
        seq![]
    } else {
        inline_views_model(s.drop_last()).push(s.last().model())
    }
}

pub open spec fn inline_view_cells_model(s: Seq<Vec<InlineView>>) -> Seq<Seq<InlineViewM>>
    decreases s,
{
    if s.len() == 0 {
        seq![]
    } else {
        inline_view_cells_model(s.drop_last()).push(inline_views_model(s.last()@))
    }
}

pub open spec fn inline_view_rows_model(s: Seq<Vec<Vec<InlineView>>>) -> Seq<Seq<Seq<InlineViewM>>>
    decreases s,
{
    if s.len() == 0 {
        seq![]
    } else {
        inline_view_rows_model(s.drop_last()).push(inline_view_cells_model(s.last()@))
    }
}

// ── Blocks ────────────────────────────────────────────────────────────────────

/// A block-level view node.
///
/// `kind`: `"paragraph"` | `"ad"` | `"list"` | `"table"` |
///         `"blockquote"` | `"rule"` | `"code"`
#[derive(Debug)]
pub struct BlockView {
    pub kind: String,
    pub inlines: Vec<InlineView>,
    pub slot: String,
    pub ordered: bool,
    pub items: Vec<ListItemView>,
    pub headers: Vec<Vec<InlineView>>,
    pub rows: Vec<Vec<Vec<InlineView>>>,
    pub children: Vec<BlockView>,
    pub lang: String,
    pub code: String,
}

#[derive(Debug)]
pub struct ListItemView {
    pub blocks: Vec<BlockView>,
}

pub struct BlockViewM {
    pub kind: Seq<char>,
    pub inlines: Seq<InlineViewM>,
    pub slot: Seq<char>,
    pub ordered: bool,
    /// Each item is the sequence of its blocks.
    pub items: Seq<Seq<BlockViewM>>,
    pub headers: Seq<Seq<InlineViewM>>,
    pub rows: Seq<Seq<Seq<InlineViewM>>>,
    pub children: Seq<BlockViewM>,
    pub lang: Seq<char>,
    pub code: Seq<char>,
}

impl BlockView {
    pub open spec fn model(&self) -> BlockViewM
        decreases self,
    {
        BlockViewM {
            kind: self.kind@,
            inlines: inline_views_model(self.inlines@),
            slot: self.slot@,
            ordered: self.ordered,
            items: item_views_model(self.items@),
            headers: inline_view_cells_model(self.headers@),
            rows: inline_view_rows_model(self.rows@),
            children: block_views_model(self.children@),
            lang: self.lang@,
            code: self.code@,
        }
    }

    /// A block of no kind with every field empty.
    pub fn empty() -> (r: BlockView)
        ensures
            r.model() == empty_block_view(),
    {
        let r = BlockView {
            kind: String::new(),
            inlines: Vec::new(),
            slot: String::new(),
            ordered: false,
            items: Vec::new(),
            headers: Vec::new(),
            rows: Vec::new(),
            children: Vec::new(),
            lang: String::new(),
            code: String::new(),
        };
        assert(inline_views_model(r.inlines@) =~= Seq::<InlineViewM>::empty());
        assert(item_views_model(r.items@) =~= Seq::<Seq<BlockViewM>>::empty());
        assert(inline_view_cells_model(r.headers@) =~= Seq::<Seq<InlineViewM>>::empty());
        assert(inline_view_rows_model(r.rows@) =~= Seq::<Seq<Seq<InlineViewM>>>::empty());
        assert(block_views_model(r.children@) =~= Seq::<BlockViewM>::empty());
        r
    }
}

pub open spec fn empty_block_view() -> BlockViewM {
    BlockViewM {
        kind: seq![],
        inlines: seq![],
        slot: seq![],
        ordered: false,
        items: seq![],
        headers: seq![],
        rows: seq![],
        children: seq![],
        lang: seq![],
        code: seq![],
    }
}

pub open spec fn block_views_model(s: Seq<BlockView>) -> Seq<BlockViewM>
    decreases s,
{
    if s.len() == 0 {
        seq![]
    } else {
        block_views_model(s.drop_last()).push(s.last().model())
    }
}

pub open spec fn item_views_model(s: Seq<ListItemView>) -> Seq<Seq<BlockViewM>>
    decreases s,
{
    if s.len() == 0 {
        seq![]
    } else {
        item_views_model(s.drop_last()).push(block_views_model(s.last().blocks@))
    }
}

// ── Sections ──────────────────────────────────────────────────────────────────

/// A section view — maps 1-to-1 with `domain::Section`.
#[derive(Debug)]
pub struct SectionView {
    pub has_heading: bool,
    pub heading_level: String,
    pub heading_id: String,
    pub heading_text: String,
    pub blocks: Vec<BlockView>,
}

pub struct SectionViewM {
    pub has_heading: bool,
    pub heading_level: Seq<char>,
    pub heading_id: Seq<char>,
    pub heading_text: Seq<char>,
    pub blocks: Seq<BlockViewM>,
}

impl SectionView {
    pub open spec fn model(&self) -> SectionViewM {
        SectionViewM {
            has_heading: self.has_heading,
            heading_level: self.heading_level@,
            heading_id: self.heading_id@,
            heading_text: self.heading_text@,
            blocks: block_views_model(self.blocks@),
        }
    }
}

pub open spec fn section_views_model(s: Seq<SectionView>) -> Seq<SectionViewM> {
    s.map_values(|v: SectionView| v.model())
}

// ── Model lemmas ──────────────────────────────────────────────────────────────

pub broadcast proof fn lemma_inline_views_model_push(s: Seq<InlineView>, x: InlineView)
    ensures
        #[trigger] inline_views_model(s.push(x)) == inline_views_model(s).push(x.model()),
{
    assert(s.push(x).drop_last() =~= s);
}

pub broadcast proof fn lemma_inline_view_cells_model_push(s: Seq<Vec<InlineView>>, x: Vec<InlineView>)
    ensures
        #[trigger] inline_view_cells_model(s.push(x)) == inline_view_cells_model(s).push(
            inline_views_model(x@),
        ),
{
    assert(s.push(x).drop_last() =~= s);
}

pub broadcast proof fn lemma_inline_view_rows_model_push(
    s: Seq<Vec<Vec<InlineView>>>,
    x: Vec<Vec<InlineView>>,
)
    ensures
        #[trigger] inline_view_rows_model(s.push(x)) == inline_view_rows_model(s).push(
            inline_view_cells_model(x@),
        ),
{
    assert(s.push(x).drop_last() =~= s);
}

pub broadcast proof fn lemma_block_views_model_push(s: Seq<BlockView>, x: BlockView)
    ensures
        #[trigger] block_views_model(s.push(x)) == block_views_model(s).push(x.model()),
{
    assert(s.push(x).drop_last() =~= s);
}

pub broadcast proof fn lemma_item_views_model_push(s: Seq<ListItemView>, x: ListItemView)
    ensures
        #[trigger] item_views_model(s.push(x)) == item_views_model(s).push(
            block_views_model(x.blocks@),
        ),
{
    assert(s.push(x).drop_last() =~= s);
}

pub broadcast group group_view_model_lemmas {
    lemma_inline_views_model_push,
    lemma_inline_view_cells_model_push,
    lemma_inline_view_rows_model_push,
    lemma_block_views_model_push,
    lemma_item_views_model_push,
}

} // verus!
