//! Domain-model → view-model conversion.

use vstd::prelude::*;

use crate::domain::{
    blocks_model, cells_model, group_model_lemmas, inlines_model, items_model, rows_model,
    sections_model, Article, Block, BlockM, HeadingM, Inline, InlineM, ListItem, Section,
    SectionM,
};
use crate::render::views::{
    block_views_model, empty_block_view, empty_inline_view, group_view_model_lemmas,
    inline_view_cells_model, inline_view_rows_model, inline_views_model, item_views_model,
    section_views_model, toc_model, BlockView, BlockViewM, InlineView, InlineViewM, ListItemView,
    SectionView, SectionViewM, TocEntry, TocM,
};
use crate::text::{decimal, push_char, push_decimal};

verus! {

broadcast use {group_model_lemmas, group_view_model_lemmas};

// ── Spec ─────────────────────────────────────────────────────────────────────

pub open spec fn inline_view_spec(i: InlineM) -> InlineViewM
    decreases i,
{
    match i {
        InlineM::Text(t) => InlineViewM { kind: "text"@, text: t, ..empty_inline_view() },
        InlineM::Code(t) => InlineViewM { kind: "code"@, text: t, ..empty_inline_view() },
        InlineM::SoftBreak => InlineViewM { kind: "softbreak"@, ..empty_inline_view() },
        InlineM::HardBreak => InlineViewM { kind: "hardbreak"@, ..empty_inline_view() },
        InlineM::Strong(ch) => InlineViewM {
            kind: "strong"@,
            children: inline_views_spec(ch),
            ..empty_inline_view()
        },
        InlineM::Em(ch) => InlineViewM {
            kind: "em"@,
            children: inline_views_spec(ch),
            ..empty_inline_view()
        },
        InlineM::Link { href, title, children } => InlineViewM {
            kind: "link"@,
            href,
            link_title: title,
            children: inline_views_spec(children),
            ..empty_inline_view()
        },
        InlineM::Image { src, alt, title } => InlineViewM {
            kind: "image"@,
            src,
            alt,
            img_title: title,
            ..empty_inline_view()
        },
    }
}

pub open spec fn inline_views_spec(s: Seq<InlineM>) -> Seq<InlineViewM>
    decreases s,
{
    if s.len() == 0 {
        seq![]
    } else {
        inline_views_spec(s.drop_last()).push(inline_view_spec(s.last()))
    }
}

pub open spec fn cell_views_spec(s: Seq<Seq<InlineM>>) -> Seq<Seq<InlineViewM>>
    decreases s.len(),
{
    if s.len() == 0 {
        seq![]
    } else {
        cell_views_spec(s.drop_last()).push(inline_views_spec(s.last()))
    }
}

pub open spec fn row_views_spec(s: Seq<Seq<Seq<InlineM>>>) -> Seq<Seq<Seq<InlineViewM>>>
    decreases s.len(),
{
    if s.len() == 0 {
        seq![]
    } else {
        row_views_spec(s.drop_last()).push(cell_views_spec(s.last()))
    }
}

pub open spec fn block_view_spec(b: BlockM) -> BlockViewM
    decreases b,
{
    match b {
        BlockM::Paragraph(inl) => BlockViewM {
            kind: "paragraph"@,
            inlines: inline_views_spec(inl),
            ..empty_block_view()
        },
        BlockM::Ad(slot) => BlockViewM { kind: "ad"@, slot, ..empty_block_view() },
        BlockM::List { ordered, items } => BlockViewM {
            kind: "list"@,
            ordered,
            items: item_views_spec(items),
            ..empty_block_view()
        },
        BlockM::Table { headers, rows } => BlockViewM {
            kind: "table"@,
            headers: cell_views_spec(headers),
            rows: row_views_spec(rows),
            ..empty_block_view()
        },
        BlockM::BlockQuote(bs) => BlockViewM {
            kind: "blockquote"@,
            children: block_views_spec(bs),
            ..empty_block_view()
        },
        BlockM::Rule => BlockViewM { kind: "rule"@, ..empty_block_view() },
        BlockM::CodeBlock { lang, code } => BlockViewM {
            kind: "code"@,
            lang,
            code,
            ..empty_block_view()
        },
    }
}

pub open spec fn block_views_spec(s: Seq<BlockM>) -> Seq<BlockViewM>
    decreases s,
{
    if s.len() == 0 {
        seq![]
    } else {
        block_views_spec(s.drop_last()).push(block_view_spec(s.last()))
    }
}

pub open spec fn item_views_spec(s: Seq<Seq<BlockM>>) -> Seq<Seq<BlockViewM>>
    decreases s,
{
    if s.len() == 0 {
        seq![]
    } else {
        item_views_spec(s.drop_last()).push(block_views_spec(s.last()))
    }
}

/// `h<level>`.
pub open spec fn heading_level_str(level: u8) -> Seq<char> {
    seq!['h'] + decimal(level as nat)
}

pub open spec fn section_view_spec(s: SectionM) -> SectionViewM {
    SectionViewM {
        has_heading: s.heading is Some,
        heading_level: match s.heading {
            Some(h) => heading_level_str(h.level),
            None => seq![],
        },
        heading_id: match s.heading {
            Some(h) => h.id,
            None => seq![],
        },
        heading_text: match s.heading {
            Some(h) => h.text,
            None => seq![],
        },
        blocks: block_views_spec(s.blocks),
    }
}

pub open spec fn section_views_spec(s: Seq<SectionM>) -> Seq<SectionViewM> {
    s.map_values(|x: SectionM| section_view_spec(x))
}

/// Table-of-contents entries of the sections that have a heading, in order;
/// `page` gives each heading's page.
pub open spec fn toc_spec(s: Seq<SectionM>, page: spec_fn(Seq<char>) -> usize) -> Seq<TocM>
    decreases s.len(),
{
    if s.len() == 0 {
        seq![]
    } else {
        toc_spec(s.drop_last(), page) + match s.last().heading {
            Some(h) => seq![
                TocM {
                    anchor: h.id,
                    label: h.text,
                    level: heading_level_str(h.level),
                    page: page(h.id),
                },
            ],
            None => seq![],
        }
    }
}

// ── Laws of the views ────────────────────────────────────────────────────────

/// The views of a run of inlines are the views of its inlines, one each, in
/// order.
pub proof fn lemma_inline_views_each(s: Seq<InlineM>)
    ensures
        inline_views_spec(s).len() == s.len(),
        forall|k: int| 0 <= k < s.len() ==> #[trigger] inline_views_spec(s)[k] == inline_view_spec(s[k]),
    decreases s.len(),
{
    if s.len() > 0 {
        lemma_inline_views_each(s.drop_last());
    }
}

/// The views of a run of blocks are the views of its blocks, one each, in
/// order.
pub proof fn lemma_block_views_each(s: Seq<BlockM>)
    ensures
        block_views_spec(s).len() == s.len(),
        forall|k: int| 0 <= k < s.len() ==> #[trigger] block_views_spec(s)[k] == block_view_spec(s[k]),
    decreases s.len(),
{
    if s.len() > 0 {
        lemma_block_views_each(s.drop_last());
    }
}

/// Each kind of inline gets a view of its own kind that carries what the
/// template shows of it: the text of text and code spans, the children of
/// strong, emphasis and links (each child by its own view), the target and
/// title of links, and the source, alt text and title of images.
pub proof fn lemma_inline_view_by_kind(i: InlineM)
    ensures
        ({
            let v = inline_view_spec(i);
            match i {
                InlineM::Text(t) => v.kind == "text"@ && v.text == t,
                InlineM::Code(t) => v.kind == "code"@ && v.text == t,
                InlineM::SoftBreak => v.kind == "softbreak"@,
                InlineM::HardBreak => v.kind == "hardbreak"@,
                InlineM::Strong(ch) => v.kind == "strong"@ && v.children.len() == ch.len() && (
                forall|k: int| 0 <= k < ch.len() ==> v.children[k] == inline_view_spec(ch[k])),
                InlineM::Em(ch) => v.kind == "em"@ && v.children.len() == ch.len() && (forall|
                    k: int,
                | 0 <= k < ch.len() ==> v.children[k] == inline_view_spec(ch[k])),
                InlineM::Link { href, title, children } => v.kind == "link"@ && v.href == href
                    && v.link_title == title && v.children.len() == children.len() && (forall|
                    k: int,
                | 0 <= k < children.len() ==> v.children[k] == inline_view_spec(children[k])),
                InlineM::Image { src, alt, title } => v.kind == "image"@ && v.src == src && v.alt
                    == alt && v.img_title == title,
            }
        }),
{
    match i {
        InlineM::Strong(ch) => lemma_inline_views_each(ch),
        InlineM::Em(ch) => lemma_inline_views_each(ch),
        InlineM::Link { children, .. } => lemma_inline_views_each(children),
        _ => {},
    }
}

/// Each kind of block gets a view of its own kind that carries what the
/// template shows of it: a paragraph's inlines (each by its own view), an ad's
/// slot, whether a list is numbered and its items (each by the views of its
/// blocks), a table's header cells and rows, a quote's blocks (each by its own view), and a code
/// block's language and code.
pub proof fn lemma_block_view_by_kind(b: BlockM)
    ensures
        ({
            let v = block_view_spec(b);
            match b {
                BlockM::Paragraph(inl) => v.kind == "paragraph"@ && v.inlines.len() == inl.len()
                    && (forall|k: int| 0 <= k < inl.len() ==> v.inlines[k] == inline_view_spec(inl[k])),
                BlockM::Ad(slot) => v.kind == "ad"@ && v.slot == slot,
                BlockM::List { ordered, items } => v.kind == "list"@ && v.ordered == ordered
                    && v.items.len() == items.len() && (forall|k: int|
                    0 <= k < items.len() ==> v.items[k] == block_views_spec(items[k])),
                BlockM::Table { headers, rows } => v.kind == "table"@ && v.headers.len()
                    == headers.len() && v.rows.len() == rows.len() && (forall|k: int|
                    0 <= k < headers.len() ==> v.headers[k] == inline_views_spec(headers[k]))
                    && (forall|k: int| 0 <= k < rows.len() ==> v.rows[k] == cell_views_spec(rows[k])),
                BlockM::BlockQuote(bs) => v.kind == "blockquote"@ && v.children.len() == bs.len()
                    && (forall|k: int| 0 <= k < bs.len() ==> v.children[k] == block_view_spec(bs[k])),
                BlockM::Rule => v.kind == "rule"@,
                BlockM::CodeBlock { lang, code } => v.kind == "code"@ && v.lang == lang && v.code
                    == code,
            }
        }),
{
    match b {
        BlockM::Paragraph(inl) => lemma_inline_views_each(inl),
        BlockM::List { items, .. } => lemma_item_views_len(items),
        BlockM::Table { headers, rows } => {
            lemma_cell_views_len(headers);
            lemma_row_views_len(rows);
        },
        BlockM::BlockQuote(bs) => lemma_block_views_each(bs),
        _ => {},
    }
}

proof fn lemma_item_views_len(s: Seq<Seq<BlockM>>)
    ensures
        item_views_spec(s).len() == s.len(),
        forall|k: int| 0 <= k < s.len() ==> #[trigger] item_views_spec(s)[k] == block_views_spec(s[k]),
    decreases s.len(),
{
    if s.len() > 0 {
        lemma_item_views_len(s.drop_last());
    }
}

proof fn lemma_cell_views_len(s: Seq<Seq<InlineM>>)
    ensures
        cell_views_spec(s).len() == s.len(),
        forall|k: int| 0 <= k < s.len() ==> #[trigger] cell_views_spec(s)[k] == inline_views_spec(s[k]),
    decreases s.len(),
{
    if s.len() > 0 {
        lemma_cell_views_len(s.drop_last());
    }
}

proof fn lemma_row_views_len(s: Seq<Seq<Seq<InlineM>>>)
    ensures
        row_views_spec(s).len() == s.len(),
        forall|k: int| 0 <= k < s.len() ==> #[trigger] row_views_spec(s)[k] == cell_views_spec(s[k]),
    decreases s.len(),
{
    if s.len() > 0 {
        lemma_row_views_len(s.drop_last());
    }
}

// ── Page map ─────────────────────────────────────────────────────────────────

/// Section anchor ids with the 1-based page each lives on, in page order;
/// a later entry for the same id supersedes an earlier one.
#[derive(Debug)]
pub struct PageMap {
    pub entries: Vec<(String, usize)>,
}

pub open spec fn page_entries_model(s: Seq<(String, usize)>) -> Seq<(Seq<char>, usize)> {
    s.map_values(|p: (String, usize)| (p.0@, p.1))
}

impl PageMap {
    pub open spec fn model(&self) -> Seq<(Seq<char>, usize)> {
        page_entries_model(self.entries@)
    }

    /// An empty map.
    pub fn new() -> (r: PageMap)
        ensures
            r.model().len() == 0,
    {
        PageMap { entries: Vec::new() }
    }

    /// The page of `id`: that of the last entry for it.
    pub fn get(&self, id: &String) -> (r: Option<usize>)
        ensures
            r == page_lookup(self.model(), id@),
    {
        let mut i = self.entries.len();
        assert(self.model().take(i as int) =~= self.model());
        while i > 0
            invariant
                i <= self.entries@.len(),
                page_lookup(self.model(), id@) == page_lookup(self.model().take(i as int), id@),
            decreases i,
        {
            let e = &self.entries[i - 1];
            proof {
                assert(self.model().take(i as int).drop_last() =~= self.model().take(i - 1));
            }
            if string_eq(&e.0, id) {
                return Some(e.1);
            }
            i = i - 1;
        }
        None
    }
}

/// The page of the last entry for `id`.
pub open spec fn page_lookup(s: Seq<(Seq<char>, usize)>, id: Seq<char>) -> Option<usize>
    decreases s.len(),
{
    if s.len() == 0 {
        None
    } else if s.last().0 == id {
        Some(s.last().1)
    } else {
        page_lookup(s.drop_last(), id)
    }
}

fn string_eq(a: &String, b: &String) -> (r: bool)
    ensures
        r == (a@ == b@),
{
    *a == *b
}

/// The page of `id` in a page map, 1 when it has none.
pub open spec fn page_or_first(m: Seq<(Seq<char>, usize)>) -> spec_fn(Seq<char>) -> usize {
    |id: Seq<char>|
        match page_lookup(m, id) {
            Some(p) => p,
            None => 1,
        }
}

// ── Executable ───────────────────────────────────────────────────────────────

fn heading_level_string(level: u8) -> (r: String)
    ensures
        r@ == heading_level_str(level),
{
    let mut s = String::new();
    push_char(&mut s, 'h');
    push_decimal(&mut s, level as u64);
    s
}

/// Table-of-contents entries of the article's headed sections; every entry is
/// on page 1.
pub fn build_toc(article: &Article) -> (r: Vec<TocEntry>)
    ensures
        toc_model(r@) == toc_spec(sections_model(article.sections@), |id: Seq<char>| 1usize),
{
    let m = PageMap::new();
    let r = build_toc_paged(article, &m);
    proof {
        assert(page_or_first(m.model()) =~= (|id: Seq<char>| 1usize)) by {
            assert forall|id: Seq<char>| page_lookup(m.model(), id) is None by {}
        }
    }
    r
}

/// Table-of-contents entries of the article's headed sections, each on the
/// page `page_map` gives its anchor (page 1 when it gives none).
pub fn build_toc_paged(article: &Article, page_map: &PageMap) -> (r: Vec<TocEntry>)
    ensures
        toc_model(r@) == toc_spec(sections_model(article.sections@), page_or_first(page_map.model())),
{
    let secs = &article.sections;
    let ghost page = page_or_first(page_map.model());
    let mut out: Vec<TocEntry> = Vec::new();
    let mut i: usize = 0;
    while i < secs.len()
        invariant
            i <= secs@.len(),
            page == page_or_first(page_map.model()),
            toc_model(out@) == toc_spec(sections_model(secs@.take(i as int)), page),
        decreases secs@.len() - i,
    {
        let ghost before = out@;
        let s = &secs[i];
        proof {
            assert(secs@.take(i + 1) =~= secs@.take(i as int).push(secs@[i as int]));
            assert(sections_model(secs@.take(i + 1)).drop_last() =~= sections_model(
                secs@.take(i as int),
            ));
        }
        match &s.heading {
            Some(h) => {
                let p = match page_map.get(&h.id) {
                    Some(p) => p,
                    None => 1,
                };
                out.push(
                    TocEntry {
                        anchor: h.id.clone(),
                        label: h.text.clone(),
                        level: heading_level_string(h.level),
                        page: p,
                    },
                );
                assert(toc_model(out@) =~= toc_model(before) + toc_model(out@).subrange(
                    before.len() as int,
                    out@.len() as int,
                ));
            },
            None => {
                assert(toc_model(out@) =~= toc_model(before) + Seq::<TocM>::empty());
            },
        }
        i = i + 1;
    }
    assert(secs@.take(secs@.len() as int) =~= secs@);
    out
}

/// Section views of all of the article's sections.
pub fn build_section_views(article: &Article, static_base: &str) -> (r: Vec<SectionView>)
    ensures
        section_views_model(r@) == section_views_spec(sections_model(article.sections@)),
{
    build_section_views_from(&article.sections, static_base)
}

/// Section views of the given sections.
pub fn build_section_views_from(sections: &Vec<Section>, static_base: &str) -> (r: Vec<
    SectionView,
>)
    ensures
        section_views_model(r@) == section_views_spec(sections_model(sections@)),
{
    let mut out: Vec<SectionView> = Vec::new();
    let mut i: usize = 0;
    while i < sections.len()
        invariant
            i <= sections@.len(),
            section_views_model(out@) == section_views_spec(sections_model(sections@.take(i as int))),
        decreases sections@.len() - i,
    {
        let ghost before = out@;
        let v = section_view(&sections[i], static_base);
        out.push(v);
        proof {
            assert(sections@.take(i + 1) =~= sections@.take(i as int).push(sections@[i as int]));
            let prev = sections_model(sections@.take(i as int));
            assert(sections_model(sections@.take(i + 1)) == prev.push(sections@[i as int].model()));
            assert(section_views_model(out@) =~= section_views_model(before).push(v.model()));
            assert(section_views_spec(prev.push(sections@[i as int].model())) =~= section_views_spec(
                prev,
            ).push(section_view_spec(sections@[i as int].model())));
        }
        i = i + 1;
    }
    assert(sections@.take(sections@.len() as int) =~= sections@);
    out
}

/// The view of one section.
pub fn section_view(s: &Section, static_base: &str) -> (r: SectionView)
    ensures
        r.model() == section_view_spec(s.model()),
{
    let (has_heading, heading_level, heading_id, heading_text) = match &s.heading {
        Some(h) => (true, heading_level_string(h.level), h.id.clone(), h.text.clone()),
        None => (false, String::new(), String::new(), String::new()),
    };
    SectionView {
        has_heading,
        heading_level,
        heading_id,
        heading_text,
        blocks: block_views(&s.blocks, static_base),
    }
}

fn block_views(v: &Vec<Block>, static_base: &str) -> (r: Vec<BlockView>)
    ensures
        block_views_model(r@) == block_views_spec(blocks_model(v@)),
    decreases v,
{
    let mut out: Vec<BlockView> = Vec::new();
    let mut i: usize = 0;
    while i < v.len()
        invariant
            i <= v@.len(),
            block_views_model(out@) == block_views_spec(blocks_model(v@.take(i as int))),
        decreases v@.len() - i,
    {
        assert(decreases_to!(v => v@[i as int]));
        out.push(block_view(&v[i], static_base));
        proof {
            assert(v@.take(i + 1) =~= v@.take(i as int).push(v@[i as int]));
            assert(blocks_model(v@.take(i + 1)).drop_last() =~= blocks_model(v@.take(i as int)));
        }
        i = i + 1;
    }
    assert(v@.take(v@.len() as int) =~= v@);
    out
}

fn item_views(v: &Vec<ListItem>, static_base: &str) -> (r: Vec<ListItemView>)
    ensures
        item_views_model(r@) == item_views_spec(items_model(v@)),
    decreases v,
{
    let mut out: Vec<ListItemView> = Vec::new();
    let mut i: usize = 0;
    while i < v.len()
        invariant
            i <= v@.len(),
            item_views_model(out@) == item_views_spec(items_model(v@.take(i as int))),
        decreases v@.len() - i,
    {
        assert(decreases_to!(v => v@[i as int]));
        assert(decreases_to!(v@[i as int] => v@[i as int].blocks));
        out.push(ListItemView { blocks: block_views(&v[i].blocks, static_base) });
        proof {
            assert(v@.take(i + 1) =~= v@.take(i as int).push(v@[i as int]));
            assert(items_model(v@.take(i + 1)).drop_last() =~= items_model(v@.take(i as int)));
        }
        i = i + 1;
    }
    assert(v@.take(v@.len() as int) =~= v@);
    out
}

fn inline_views(v: &Vec<Inline>, static_base: &str) -> (r: Vec<InlineView>)
    ensures
        inline_views_model(r@) == inline_views_spec(inlines_model(v@)),
    decreases v,
{
    let mut out: Vec<InlineView> = Vec::new();
    let mut i: usize = 0;
    while i < v.len()
        invariant
            i <= v@.len(),
            inline_views_model(out@) == inline_views_spec(inlines_model(v@.take(i as int))),
        decreases v@.len() - i,
    {
        assert(decreases_to!(v => v@[i as int]));
        out.push(inline_view(&v[i], static_base));
        proof {
            assert(v@.take(i + 1) =~= v@.take(i as int).push(v@[i as int]));
            assert(inlines_model(v@.take(i + 1)).drop_last() =~= inlines_model(v@.take(i as int)));
        }
        i = i + 1;
    }
    assert(v@.take(v@.len() as int) =~= v@);
    out
}

fn cell_views(v: &Vec<Vec<Inline>>, static_base: &str) -> (r: Vec<Vec<InlineView>>)
    ensures
        inline_view_cells_model(r@) == cell_views_spec(cells_model(v@)),
{
    let mut out: Vec<Vec<InlineView>> = Vec::new();
    let mut i: usize = 0;
    while i < v.len()
        invariant
            i <= v@.len(),
            inline_view_cells_model(out@) == cell_views_spec(cells_model(v@.take(i as int))),
        decreases v@.len() - i,
    {
        out.push(inline_views(&v[i], static_base));
        proof {
            assert(v@.take(i + 1) =~= v@.take(i as int).push(v@[i as int]));
            assert(cells_model(v@.take(i + 1)).drop_last() =~= cells_model(v@.take(i as int)));
        }
        i = i + 1;
    }
    assert(v@.take(v@.len() as int) =~= v@);
    out
}

fn row_views(v: &Vec<Vec<Vec<Inline>>>, static_base: &str) -> (r: Vec<Vec<Vec<InlineView>>>)
    ensures
        inline_view_rows_model(r@) == row_views_spec(rows_model(v@)),
{
    let mut out: Vec<Vec<Vec<InlineView>>> = Vec::new();
    let mut i: usize = 0;
    while i < v.len()
        invariant
            i <= v@.len(),
            inline_view_rows_model(out@) == row_views_spec(rows_model(v@.take(i as int))),
        decreases v@.len() - i,
    {
        out.push(cell_views(&v[i], static_base));
        proof {
            assert(v@.take(i + 1) =~= v@.take(i as int).push(v@[i as int]));
            assert(rows_model(v@.take(i + 1)).drop_last() =~= rows_model(v@.take(i as int)));
        }
        i = i + 1;
    }
    assert(v@.take(v@.len() as int) =~= v@);
    out
}

/// The view of one block.
pub fn block_view(b: &Block, static_base: &str) -> (r: BlockView)
    ensures
        r.model() == block_view_spec(b.model()),
    decreases b,
{
    match b {
        Block::Paragraph(inlines) => BlockView {
            kind: String::from_str("paragraph"),
            inlines: inline_views(inlines, static_base),
            ..BlockView::empty()
        },
        Block::Ad(slot) => BlockView {
            kind: String::from_str("ad"),
            slot: slot.clone(),
            ..BlockView::empty()
        },
        Block::List { ordered, items } => BlockView {
            kind: String::from_str("list"),
            ordered: *ordered,
            items: item_views(items, static_base),
            ..BlockView::empty()
        },
        Block::Table { headers, rows } => BlockView {
            kind: String::from_str("table"),
            headers: cell_views(headers, static_base),
            rows: row_views(rows, static_base),
            ..BlockView::empty()
        },
        Block::BlockQuote(blocks) => BlockView {
            kind: String::from_str("blockquote"),
            children: block_views(blocks, static_base),
            ..BlockView::empty()
        },
        Block::Rule => BlockView { kind: String::from_str("rule"), ..BlockView::empty() },
        Block::CodeBlock { lang, code } => BlockView {
            kind: String::from_str("code"),
            lang: lang.clone(),
            code: code.clone(),
            ..BlockView::empty()
        },
    }
}

/// The view of one inline.
pub fn inline_view(i: &Inline, static_base: &str) -> (r: InlineView)
    ensures
        r.model() == inline_view_spec(i.model()),
    decreases i,
{
    match i {
        Inline::Text(t) => InlineView::leaf("text", t.as_str()),
        Inline::Code(t) => InlineView::leaf("code", t.as_str()),
        Inline::SoftBreak => InlineView {
            kind: String::from_str("softbreak"),
            ..InlineView::empty()
        },
        Inline::HardBreak => InlineView {
            kind: String::from_str("hardbreak"),
            ..InlineView::empty()
        },
        Inline::Strong(ch) => InlineView::with_children("strong", inline_views(ch, static_base)),
        Inline::Em(ch) => InlineView::with_children("em", inline_views(ch, static_base)),
        Inline::Link { href, title, children } => InlineView {
            kind: String::from_str("link"),
            href: href.clone(),
            link_title: title.clone(),
            children: inline_views(children, static_base),
            ..InlineView::empty()
        },
        Inline::Image { src, alt, title } => InlineView {
            kind: String::from_str("image"),
            src: src.clone(),
            alt: alt.clone(),
            img_title: title.clone(),
            ..InlineView::empty()
        },
    }
}

} // verus!
