//! Deep copies of document values, with the guarantee that a copy has the
//! same model as the value it copies.

use vstd::prelude::*;

use crate::domain::{
    blocks_model, cells_model, group_model_lemmas, inlines_model, items_model, rows_model,
    sections_model, stories_model, Block, Heading, Inline, ListItem, Section, StoryHeader,
};

verus! {

broadcast use group_model_lemmas;

// ── Copies ────────────────────────────────────────────────────────────────────

/// A deep copy of an inline.
pub fn copy_inline(i: &Inline) -> (r: Inline)
    ensures
        r.model() == i.model(),
    decreases i,
{
    match i {
        Inline::Text(t) => Inline::Text(t.clone()),
        Inline::SoftBreak => Inline::SoftBreak,
        Inline::HardBreak => Inline::HardBreak,
        Inline::Code(t) => Inline::Code(t.clone()),
        Inline::Strong(ch) => Inline::Strong(copy_inlines(ch)),
        Inline::Em(ch) => Inline::Em(copy_inlines(ch)),
        Inline::Link { href, title, children } => Inline::Link {
            href: href.clone(),
            title: title.clone(),
            children: copy_inlines(children),
        },
        Inline::Image { src, alt, title } => Inline::Image {
            src: src.clone(),
            alt: alt.clone(),
            title: title.clone(),
        },
    }
}

/// A deep copy of a run of inlines.
pub fn copy_inlines(v: &Vec<Inline>) -> (r: Vec<Inline>)
    ensures
        inlines_model(r@) == inlines_model(v@),
    decreases v,
{
    let mut out: Vec<Inline> = Vec::new();
    let mut i: usize = 0;
    while i < v.len()
        invariant
            i <= v@.len(),
            inlines_model(out@) == inlines_model(v@.take(i as int)),
        decreases v@.len() - i,
    {
        assert(decreases_to!(v => v@[i as int]));
        out.push(copy_inline(&v[i]));
        assert(v@.take(i + 1) =~= v@.take(i as int).push(v@[i as int]));
        i = i + 1;
    }
    assert(v@.take(v@.len() as int) =~= v@);
    out
}

/// A deep copy of table cells.
pub fn copy_cells(v: &Vec<Vec<Inline>>) -> (r: Vec<Vec<Inline>>)
    ensures
        cells_model(r@) == cells_model(v@),
{
    let mut out: Vec<Vec<Inline>> = Vec::new();
    let mut i: usize = 0;
    while i < v.len()
        invariant
            i <= v@.len(),
            cells_model(out@) == cells_model(v@.take(i as int)),
        decreases v@.len() - i,
    {
        out.push(copy_inlines(&v[i]));
        assert(v@.take(i + 1) =~= v@.take(i as int).push(v@[i as int]));
        i = i + 1;
    }
    assert(v@.take(v@.len() as int) =~= v@);
    out
}

/// A deep copy of table rows.
pub fn copy_rows(v: &Vec<Vec<Vec<Inline>>>) -> (r: Vec<Vec<Vec<Inline>>>)
    ensures
        rows_model(r@) == rows_model(v@),
{
    let mut out: Vec<Vec<Vec<Inline>>> = Vec::new();
    let mut i: usize = 0;
    while i < v.len()
        invariant
            i <= v@.len(),
            rows_model(out@) == rows_model(v@.take(i as int)),
        decreases v@.len() - i,
    {
        out.push(copy_cells(&v[i]));
        assert(v@.take(i + 1) =~= v@.take(i as int).push(v@[i as int]));
        i = i + 1;
    }
    assert(v@.take(v@.len() as int) =~= v@);
    out
}

/// A deep copy of a block.
pub fn copy_block(b: &Block) -> (r: Block)
    ensures
        r.model() == b.model(),
    decreases b,
{
    match b {
        Block::Paragraph(inl) => Block::Paragraph(copy_inlines(inl)),
        Block::Ad(slot) => Block::Ad(slot.clone()),
        Block::List { ordered, items } => Block::List { ordered: *ordered, items: copy_items(items) },
        Block::Table { headers, rows } => Block::Table {
            headers: copy_cells(headers),
            rows: copy_rows(rows),
        },
        Block::BlockQuote(bs) => Block::BlockQuote(copy_blocks(bs)),
        Block::Rule => Block::Rule,
        Block::CodeBlock { lang, code } => Block::CodeBlock { lang: lang.clone(), code: code.clone() },
    }
}

/// A deep copy of a run of blocks.
pub fn copy_blocks(v: &Vec<Block>) -> (r: Vec<Block>)
    ensures
        blocks_model(r@) == blocks_model(v@),
    decreases v,
{
    let mut out: Vec<Block> = Vec::new();
    let mut i: usize = 0;
    while i < v.len()
        invariant
            i <= v@.len(),
            blocks_model(out@) == blocks_model(v@.take(i as int)),
        decreases v@.len() - i,
    {
        assert(decreases_to!(v => v@[i as int]));
        out.push(copy_block(&v[i]));
        assert(v@.take(i + 1) =~= v@.take(i as int).push(v@[i as int]));
        i = i + 1;
    }
    assert(v@.take(v@.len() as int) =~= v@);
    out
}

/// A deep copy of list items.
pub fn copy_items(v: &Vec<ListItem>) -> (r: Vec<ListItem>)
    ensures
        items_model(r@) == items_model(v@),
    decreases v,
{
    let mut out: Vec<ListItem> = Vec::new();
    let mut i: usize = 0;
    while i < v.len()
        invariant
            i <= v@.len(),
            items_model(out@) == items_model(v@.take(i as int)),
        decreases v@.len() - i,
    {
        assert(decreases_to!(v => v@[i as int]));
        assert(decreases_to!(v@[i as int] => v@[i as int].blocks));
        out.push(ListItem { blocks: copy_blocks(&v[i].blocks) });
        assert(v@.take(i + 1) =~= v@.take(i as int).push(v@[i as int]));
        i = i + 1;
    }
    assert(v@.take(v@.len() as int) =~= v@);
    out
}

/// A copy of a heading.
pub fn copy_heading(h: &Heading) -> (r: Heading)
    ensures
        r.model() == h.model(),
{
    Heading { level: h.level, id: h.id.clone(), text: h.text.clone() }
}

/// A deep copy of a section.
pub fn copy_section(s: &Section) -> (r: Section)
    ensures
        r.model() == s.model(),
{
    let heading = match &s.heading {
        Some(h) => Some(copy_heading(h)),
        None => None,
    };
    Section { heading, blocks: copy_blocks(&s.blocks) }
}

/// A deep copy of sections.
pub fn copy_sections(v: &Vec<Section>) -> (r: Vec<Section>)
    ensures
        sections_model(r@) == sections_model(v@),
{
    let mut out: Vec<Section> = Vec::new();
    let mut i: usize = 0;
    while i < v.len()
        invariant
            i <= v@.len(),
            sections_model(out@) == sections_model(v@.take(i as int)),
        decreases v@.len() - i,
    {
        out.push(copy_section(&v[i]));
        assert(v@.take(i + 1) =~= v@.take(i as int).push(v@[i as int]));
        i = i + 1;
    }
    assert(v@.take(v@.len() as int) =~= v@);
    out
}

/// A copy of a sidebar card.
pub fn copy_story(s: &StoryHeader) -> (r: StoryHeader)
    ensures
        r.model() == s.model(),
{
    StoryHeader { title: s.title.clone(), slug: s.slug.clone(), snippet: s.snippet.clone() }
}

/// A copy of sidebar cards.
pub fn copy_stories(v: &Vec<StoryHeader>) -> (r: Vec<StoryHeader>)
    ensures
        stories_model(r@) == stories_model(v@),
{
    let mut out: Vec<StoryHeader> = Vec::new();
    let mut i: usize = 0;
    while i < v.len()
        invariant
            i <= v@.len(),
            stories_model(out@) == stories_model(v@.take(i as int)),
        decreases v@.len() - i,
    {
        out.push(copy_story(&v[i]));
        assert(v@.take(i + 1) =~= v@.take(i as int).push(v@[i as int]));
        i = i + 1;
    }
    assert(v@.take(v@.len() as int) =~= v@);
    out
}

} // verus!
