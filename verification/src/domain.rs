//! Domain model.
//!
//! The document structure that articles are parsed into, and its
//! mathematical model: every `String` is seen through its characters and every
//! `Vec` through its sequence of element models.

use vstd::prelude::*;

verus! {

// ── Inline content ────────────────────────────────────────────────────────────

#[derive(Debug)]
pub enum Inline {
    Text(String),
    SoftBreak,
    HardBreak,
    /// Inline `code` span.
    Code(String),
    Strong(Vec<Inline>),
    Em(Vec<Inline>),
    Link { href: String, title: String, children: Vec<Inline> },
    Image { src: String, alt: String, title: String },
}

// ── Block content ─────────────────────────────────────────────────────────────

/// A block-level element inside a section.
#[derive(Debug)]
pub enum Block {
    Paragraph(Vec<Inline>),
    /// Advertisement placeholder, identified by slot name.
    Ad(String),
    /// Ordered or unordered list.
    List { ordered: bool, items: Vec<ListItem> },
    /// GFM table.
    Table { headers: Vec<Vec<Inline>>, rows: Vec<Vec<Vec<Inline>>> },
    /// Block quote.
    BlockQuote(Vec<Block>),
    /// Thematic break `<hr>`.
    Rule,
    /// Fenced code block.
    CodeBlock { lang: String, code: String },
}

#[derive(Debug)]
pub struct ListItem {
    /// A list item can contain paragraphs, nested lists, etc.
    pub blocks: Vec<Block>,
}

// ── Article structure ─────────────────────────────────────────────────────────

/// A logical section of an article.
///
/// A section begins at a heading (h2–h6) and contains the blocks up to the
/// next heading. The intro section before the first heading has
/// `heading: None`.
#[derive(Debug)]
pub struct Section {
    pub heading: Option<Heading>,
    pub blocks: Vec<Block>,
}

#[derive(Debug)]
pub struct Heading {
    /// 2..=6 (h1 is consumed as the article title)
    pub level: u8,
    /// URL-safe id derived from the heading text (for anchor links / TOC).
    pub id: String,
    /// Plain-text label shown in the TOC.
    pub text: String,
}

/// A fully-parsed article ready for rendering.
#[derive(Debug)]
pub struct Article {
    pub title: String,
    pub slug: String,
    pub author: String,
    pub published: String,
    pub description: String,
    pub keywords: String,
    pub cover: String,
    pub og_title: String,
    pub category: String,
    pub tags: String,
    pub reading_time: String,
    pub featured: bool,
    pub sections: Vec<Section>,
}

/// Lightweight card shown in the sidebar — no body content.
#[derive(Debug)]
pub struct StoryHeader {
    pub title: String,
    pub slug: String,
    pub snippet: String,
}

/// Everything a single page render needs.
pub struct ContentBundle {
    pub article: Article,
    pub stories: Vec<StoryHeader>,
}

// ── Models ────────────────────────────────────────────────────────────────────

pub enum InlineM {
    Text(Seq<char>),
    SoftBreak,
    HardBreak,
    Code(Seq<char>),
    Strong(Seq<InlineM>),
    Em(Seq<InlineM>),
    Link { href: Seq<char>, title: Seq<char>, children: Seq<InlineM> },
    Image { src: Seq<char>, alt: Seq<char>, title: Seq<char> },
}

pub enum BlockM {
    Paragraph(Seq<InlineM>),
    Ad(Seq<char>),
    /// Each item is the sequence of its blocks.
    List { ordered: bool, items: Seq<Seq<BlockM>> },
    Table { headers: Seq<Seq<InlineM>>, rows: Seq<Seq<Seq<InlineM>>> },
    BlockQuote(Seq<BlockM>),
    Rule,
    CodeBlock { lang: Seq<char>, code: Seq<char> },
}

pub struct HeadingM {
    pub level: u8,
    pub id: Seq<char>,
    pub text: Seq<char>,
}

pub struct SectionM {
    pub heading: Option<HeadingM>,
    pub blocks: Seq<BlockM>,
}

pub struct ArticleM {
    pub title: Seq<char>,
    pub slug: Seq<char>,
    pub author: Seq<char>,
    pub published: Seq<char>,
    pub description: Seq<char>,
    pub keywords: Seq<char>,
    pub cover: Seq<char>,
    pub og_title: Seq<char>,
    pub category: Seq<char>,
    pub tags: Seq<char>,
    pub reading_time: Seq<char>,
    pub featured: bool,
    pub sections: Seq<SectionM>,
}

pub struct StoryM {
    pub title: Seq<char>,
    pub slug: Seq<char>,
    pub snippet: Seq<char>,
}

impl Inline {
    pub open spec fn model(&self) -> InlineM
        decreases self,
    {
        match self {
            Inline::Text(t) => InlineM::Text(t@),
            Inline::SoftBreak => InlineM::SoftBreak,
            Inline::HardBreak => InlineM::HardBreak,
            Inline::Code(t) => InlineM::Code(t@),
            Inline::Strong(ch) => InlineM::Strong(inlines_model(ch@)),
            Inline::Em(ch) => InlineM::Em(inlines_model(ch@)),
            Inline::Link { href, title, children } => InlineM::Link {
                href: href@,
                title: title@,
                children: inlines_model(children@),
            },
            Inline::Image { src, alt, title } => InlineM::Image {
                src: src@,
                alt: alt@,
                title: title@,
            },
        }
    }
}

pub open spec fn inlines_model(s: Seq<Inline>) -> Seq<InlineM>
    decreases s,
{
    if s.len() == 0 {
        seq![]
    } else {
        inlines_model(s.drop_last()).push(s.last().model())
    }
}

pub open spec fn cells_model(s: Seq<Vec<Inline>>) -> Seq<Seq<InlineM>>
    decreases s,
{
    if s.len() == 0 {
        seq![]
    } else {
        cells_model(s.drop_last()).push(inlines_model(s.last()@))
    }
}

pub open spec fn rows_model(s: Seq<Vec<Vec<Inline>>>) -> Seq<Seq<Seq<InlineM>>>
    decreases s,
{
    if s.len() == 0 {
        seq![]
    } else {
        rows_model(s.drop_last()).push(cells_model(s.last()@))
    }
}

impl Block {
    pub open spec fn model(&self) -> BlockM
        decreases self,
    {
        match self {
            Block::Paragraph(inl) => BlockM::Paragraph(inlines_model(inl@)),
            Block::Ad(slot) => BlockM::Ad(slot@),
            Block::List { ordered, items } => BlockM::List {
                ordered: *ordered,
                items: items_model(items@),
            },
            Block::Table { headers, rows } => BlockM::Table {
                headers: cells_model(headers@),
                rows: rows_model(rows@),
            },
            Block::BlockQuote(bs) => BlockM::BlockQuote(blocks_model(bs@)),
            Block::Rule => BlockM::Rule,
            Block::CodeBlock { lang, code } => BlockM::CodeBlock { lang: lang@, code: code@ },
        }
    }
}

pub open spec fn blocks_model(s: Seq<Block>) -> Seq<BlockM>
    decreases s,
{
    if s.len() == 0 {
        seq![]
    } else {
        blocks_model(s.drop_last()).push(s.last().model())
    }
}

pub open spec fn items_model(s: Seq<ListItem>) -> Seq<Seq<BlockM>>
    decreases s,
{
    if s.len() == 0 {
        seq![]
    } else {
        items_model(s.drop_last()).push(blocks_model(s.last().blocks@))
    }
}

impl Heading {
    pub open spec fn model(&self) -> HeadingM {
        HeadingM { level: self.level, id: self.id@, text: self.text@ }
    }
}

impl Section {
    pub open spec fn model(&self) -> SectionM {
        SectionM {
            heading: match self.heading {
                Some(h) => Some(h.model()),
                None => None,
            },
            blocks: blocks_model(self.blocks@),
        }
    }
}

pub open spec fn sections_model(s: Seq<Section>) -> Seq<SectionM>
    decreases s.len(),
{
    if s.len() == 0 {
        seq![]
    } else {
        sections_model(s.drop_last()).push(s.last().model())
    }
}

impl Article {
    pub open spec fn model(&self) -> ArticleM {
        ArticleM {
            title: self.title@,
            slug: self.slug@,
            author: self.author@,
            published: self.published@,
            description: self.description@,
            keywords: self.keywords@,
            cover: self.cover@,
            og_title: self.og_title@,
            category: self.category@,
            tags: self.tags@,
            reading_time: self.reading_time@,
            featured: self.featured,
            sections: sections_model(self.sections@),
        }
    }
}

impl StoryHeader {
    pub open spec fn model(&self) -> StoryM {
        StoryM { title: self.title@, slug: self.slug@, snippet: self.snippet@ }
    }
}

pub open spec fn stories_model(s: Seq<StoryHeader>) -> Seq<StoryM>
    decreases s.len(),
{
    if s.len() == 0 {
        seq![]
    } else {
        stories_model(s.drop_last()).push(s.last().model())
    }
}

// ── Model lemmas ──────────────────────────────────────────────────────────────

pub broadcast proof fn lemma_inlines_model_push(s: Seq<Inline>, x: Inline)
    ensures
        #[trigger] inlines_model(s.push(x)) == inlines_model(s).push(x.model()),
{
    assert(s.push(x).drop_last() =~= s);
}

pub broadcast proof fn lemma_inlines_model_len(s: Seq<Inline>)
    ensures
        #[trigger] inlines_model(s).len() == s.len(),
    decreases s.len(),
{
    if s.len() > 0 {
        lemma_inlines_model_len(s.drop_last());
    }
}

pub proof fn lemma_inlines_model_index(s: Seq<Inline>, i: int)
    requires
        0 <= i < s.len(),
    ensures
        inlines_model(s)[i] == s[i].model(),
    decreases s.len(),
{
    lemma_inlines_model_len(s.drop_last());
    if i < s.len() - 1 {
        lemma_inlines_model_index(s.drop_last(), i);
    }
}

pub broadcast proof fn lemma_cells_model_push(s: Seq<Vec<Inline>>, x: Vec<Inline>)
    ensures
        #[trigger] cells_model(s.push(x)) == cells_model(s).push(inlines_model(x@)),
{
    assert(s.push(x).drop_last() =~= s);
}

pub broadcast proof fn lemma_cells_model_len(s: Seq<Vec<Inline>>)
    ensures
        #[trigger] cells_model(s).len() == s.len(),
    decreases s.len(),
{
    if s.len() > 0 {
        lemma_cells_model_len(s.drop_last());
    }
}

pub broadcast proof fn lemma_rows_model_push(s: Seq<Vec<Vec<Inline>>>, x: Vec<Vec<Inline>>)
    ensures
        #[trigger] rows_model(s.push(x)) == rows_model(s).push(cells_model(x@)),
{
    assert(s.push(x).drop_last() =~= s);
}

pub broadcast proof fn lemma_blocks_model_push(s: Seq<Block>, x: Block)
    ensures
        #[trigger] blocks_model(s.push(x)) == blocks_model(s).push(x.model()),
{
    assert(s.push(x).drop_last() =~= s);
}

pub broadcast proof fn lemma_blocks_model_len(s: Seq<Block>)
    ensures
        #[trigger] blocks_model(s).len() == s.len(),
    decreases s.len(),
{
    if s.len() > 0 {
        lemma_blocks_model_len(s.drop_last());
    }
}

pub proof fn lemma_blocks_model_index(s: Seq<Block>, i: int)
    requires
        0 <= i < s.len(),
    ensures
        blocks_model(s)[i] == s[i].model(),
    decreases s.len(),
{
    lemma_blocks_model_len(s.drop_last());
    if i < s.len() - 1 {
        lemma_blocks_model_index(s.drop_last(), i);
    }
}

pub broadcast proof fn lemma_items_model_push(s: Seq<ListItem>, x: ListItem)
    ensures
        #[trigger] items_model(s.push(x)) == items_model(s).push(blocks_model(x.blocks@)),
{
    assert(s.push(x).drop_last() =~= s);
}

pub broadcast proof fn lemma_sections_model_push(s: Seq<Section>, x: Section)
    ensures
        #[trigger] sections_model(s.push(x)) == sections_model(s).push(x.model()),
{
    assert(s.push(x).drop_last() =~= s);
}

pub broadcast proof fn lemma_sections_model_len(s: Seq<Section>)
    ensures
        #[trigger] sections_model(s).len() == s.len(),
    decreases s.len(),
{
    if s.len() > 0 {
        lemma_sections_model_len(s.drop_last());
    }
}

pub proof fn lemma_sections_model_index(s: Seq<Section>, i: int)
    requires
        0 <= i < s.len(),
    ensures
        sections_model(s)[i] == s[i].model(),
    decreases s.len(),
{
    lemma_sections_model_len(s.drop_last());
    if i < s.len() - 1 {
        lemma_sections_model_index(s.drop_last(), i);
    }
}

pub broadcast proof fn lemma_stories_model_push(s: Seq<StoryHeader>, x: StoryHeader)
    ensures
        #[trigger] stories_model(s.push(x)) == stories_model(s).push(x.model()),
{
    assert(s.push(x).drop_last() =~= s);
}

pub broadcast group group_model_lemmas {
    lemma_inlines_model_push,
    lemma_inlines_model_len,
    lemma_cells_model_push,
    lemma_cells_model_len,
    lemma_rows_model_push,
    lemma_blocks_model_push,
    lemma_blocks_model_len,
    lemma_items_model_push,
    lemma_sections_model_push,
    lemma_sections_model_len,
    lemma_stories_model_push,
}

} // verus!
