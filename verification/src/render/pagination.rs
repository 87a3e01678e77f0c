//! Article pagination.
//!
//! Splits a flat section list into pages based on plain-text symbol count.
//! A page boundary always falls *between* sections — a section is never split
//! mid-way. The section that pushes the running total over `limit` ends the
//! current page; the next section starts the next page.

use vstd::prelude::*;

use crate::deep_copy::copy_section;
use crate::domain::{
    blocks_model, cells_model, group_model_lemmas, inlines_model, items_model, rows_model,
    sections_model, Block, BlockM, Inline, InlineM, ListItem, Section, SectionM,
};
use crate::render::builder::{page_entries_model, page_lookup, PageMap};

verus! {

broadcast use group_model_lemmas;

// ── Symbol counts ─────────────────────────────────────────────────────────────

/// Readable characters of an inline: text and code spans count, images and
/// line breaks do not.
pub open spec fn inline_symbols(i: InlineM) -> nat
    decreases i,
{
    match i {
        InlineM::Text(t) => t.len(),
        InlineM::Code(t) => t.len(),
        InlineM::Strong(ch) => inlines_symbols(ch),
        InlineM::Em(ch) => inlines_symbols(ch),
        InlineM::Link { children, .. } => inlines_symbols(children),
        _ => 0,
    }
}

pub open spec fn inlines_symbols(s: Seq<InlineM>) -> nat
    decreases s,
{
    if s.len() == 0 {
        0
    } else {
        inlines_symbols(s.drop_last()) + inline_symbols(s.last())
    }
}

pub open spec fn cells_symbols(s: Seq<Seq<InlineM>>) -> nat
    decreases s.len(),
{
    if s.len() == 0 {
        0
    } else {
        cells_symbols(s.drop_last()) + inlines_symbols(s.last())
    }
}

pub open spec fn rows_symbols(s: Seq<Seq<Seq<InlineM>>>) -> nat
    decreases s.len(),
{
    if s.len() == 0 {
        0
    } else {
        rows_symbols(s.drop_last()) + cells_symbols(s.last())
    }
}

/// Readable characters of a block: ads and rules count nothing.
pub open spec fn block_symbols(b: BlockM) -> nat
    decreases b,
{
    match b {
        BlockM::Paragraph(inl) => inlines_symbols(inl),
        BlockM::CodeBlock { code, .. } => code.len(),
        BlockM::List { items, .. } => items_symbols(items),
        BlockM::Table { headers, rows } => cells_symbols(headers) + rows_symbols(rows),
        BlockM::BlockQuote(bs) => blocks_symbols(bs),
        BlockM::Ad(_) => 0,
        BlockM::Rule => 0,
    }
}

pub open spec fn blocks_symbols(s: Seq<BlockM>) -> nat
    decreases s,
{
    if s.len() == 0 {
        0
    } else {
        blocks_symbols(s.drop_last()) + block_symbols(s.last())
    }
}

pub open spec fn items_symbols(s: Seq<Seq<BlockM>>) -> nat
    decreases s,
{
    if s.len() == 0 {
        0
    } else {
        items_symbols(s.drop_last()) + blocks_symbols(s.last())
    }
}

/// Heading text plus the readable characters of every block.
pub open spec fn section_symbols(s: SectionM) -> nat {
    (match s.heading {
        Some(h) => h.text.len(),
        None => 0,
    }) + blocks_symbols(s.blocks)
}

pub open spec fn sections_symbols(s: Seq<SectionM>) -> nat
    decreases s.len(),
{
    if s.len() == 0 {
        0
    } else {
        sections_symbols(s.drop_last()) + section_symbols(s.last())
    }
}

/// `n` as a machine integer, when it fits in one.
pub open spec fn fit(n: nat) -> Option<usize> {
    if n <= usize::MAX {
        Some(n as usize)
    } else {
        None
    }
}

// ── Pagination spec ───────────────────────────────────────────────────────────

/// Pages closed so far, the open page, and the open page's symbol count.
pub type PaginateState = (Seq<Seq<SectionM>>, Seq<SectionM>, nat);

/// Add one section to the open page; close it once its total exceeds `limit`.
pub open spec fn paginate_step(st: PaginateState, s: SectionM, limit: nat) -> PaginateState {
    let cur = st.1.push(s);
    let run = st.2 + section_symbols(s);
    if run > limit {
        (st.0.push(cur), seq![], 0)
    } else {
        (st.0, cur, run)
    }
}

pub open spec fn paginate_state(s: Seq<SectionM>, limit: nat) -> PaginateState
    decreases s.len(),
{
    if s.len() == 0 {
        (seq![], seq![], 0)
    } else {
        paginate_step(paginate_state(s.drop_last(), limit), s.last(), limit)
    }
}

/// The pages of `s`: the closed pages, then the open one if it holds a
/// section; a single empty page when that leaves none.
pub open spec fn paginate_spec(s: Seq<SectionM>, limit: nat) -> Seq<Seq<SectionM>> {
    let st = paginate_state(s, limit);
    let pages = if st.1.len() > 0 {
        st.0.push(st.1)
    } else {
        st.0
    };
    if pages.len() == 0 {
        seq![seq![]]
    } else {
        pages
    }
}

/// The sections of all pages, in page order.
pub open spec fn flatten_pages(p: Seq<Seq<SectionM>>) -> Seq<SectionM>
    decreases p.len(),
{
    if p.len() == 0 {
        seq![]
    } else {
        flatten_pages(p.drop_last()) + p.last()
    }
}

pub open spec fn pages_model(p: Seq<Vec<Section>>) -> Seq<Seq<SectionM>> {
    p.map_values(|v: Vec<Section>| sections_model(v@))
}

/// Page-map entries of one page: the anchor of each headed section, in
/// order, with the page number.
pub open spec fn section_entries(secs: Seq<SectionM>, page: usize) -> Seq<(Seq<char>, usize)>
    decreases secs.len(),
{
    if secs.len() == 0 {
        seq![]
    } else {
        section_entries(secs.drop_last(), page) + match secs.last().heading {
            Some(h) => seq![(h.id, page)],
            None => seq![],
        }
    }
}

/// Page-map entries of all pages; pages are numbered from 1.
pub open spec fn page_map_entries(pages: Seq<Seq<SectionM>>) -> Seq<(Seq<char>, usize)>
    decreases pages.len(),
{
    if pages.len() == 0 {
        seq![]
    } else {
        page_map_entries(pages.drop_last()) + section_entries(
            pages.last(),
            pages.len() as usize,
        )
    }
}

// ── Laws ──────────────────────────────────────────────────────────────────────

proof fn lemma_paginate_state_inv(s: Seq<SectionM>, limit: nat)
    ensures
        ({
            let st = paginate_state(s, limit);
            &&& flatten_pages(st.0) + st.1 == s
            &&& st.2 == sections_symbols(st.1)
            &&& st.2 <= limit
            &&& forall|k: int|
                0 <= k < st.0.len() ==> {
                    &&& (#[trigger] st.0[k]).len() > 0
                    &&& sections_symbols(st.0[k]) > limit
                    &&& sections_symbols(st.0[k].drop_last()) <= limit
                }
        }),
    decreases s.len(),
{
    if s.len() > 0 {
        let prev = paginate_state(s.drop_last(), limit);
        lemma_paginate_state_inv(s.drop_last(), limit);
        let x = s.last();
        let cur = prev.1.push(x);
        assert(cur.drop_last() =~= prev.1);
        assert(flatten_pages(prev.0) + cur =~= (flatten_pages(prev.0) + prev.1).push(x));
        assert(s.drop_last().push(x) =~= s);
        if prev.2 + section_symbols(x) > limit {
            let pages = prev.0.push(cur);
            assert(pages.drop_last() =~= prev.0);
            assert(flatten_pages(pages) + seq![] =~= s);
            assert forall|k: int| 0 <= k < pages.len() implies {
                &&& (#[trigger] pages[k]).len() > 0
                &&& sections_symbols(pages[k]) > limit
                &&& sections_symbols(pages[k].drop_last()) <= limit
            } by {
                if k < prev.0.len() {
                    assert(pages[k] == prev.0[k]);
                }
            }
        }
    }
}

/// Every readable character inside a list counts: an empty list counts
/// nothing, and adding an item adds exactly the characters of its blocks,
/// whether the list is ordered or not.
pub proof fn lemma_list_symbols_add_item(ordered: bool, items: Seq<Seq<BlockM>>, bs: Seq<BlockM>)
    ensures
        block_symbols(BlockM::List { ordered, items: seq![] }) == 0,
        block_symbols(BlockM::List { ordered, items: items.push(bs) }) == block_symbols(
            BlockM::List { ordered, items },
        ) + blocks_symbols(bs),
        block_symbols(BlockM::List { ordered: !ordered, items }) == block_symbols(
            BlockM::List { ordered, items },
        ),
{
    assert(items.push(bs).drop_last() =~= items);
}

/// Readable characters of inlines: text and code spans count their
/// characters, bold, emphasis and links count their children, images and
/// line breaks count nothing; a run counts the sum of its inlines.
pub proof fn lemma_inline_symbols_by_kind(i: InlineM, s: Seq<InlineM>)
    ensures
        match i {
            InlineM::Text(t) => inline_symbols(i) == t.len(),
            InlineM::Code(t) => inline_symbols(i) == t.len(),
            InlineM::Strong(ch) => inline_symbols(i) == inlines_symbols(ch),
            InlineM::Em(ch) => inline_symbols(i) == inlines_symbols(ch),
            InlineM::Link { children, .. } => inline_symbols(i) == inlines_symbols(children),
            _ => inline_symbols(i) == 0,
        },
        inlines_symbols(seq![]) == 0,
        inlines_symbols(s.push(i)) == inlines_symbols(s) + inline_symbols(i),
{
    assert(s.push(i).drop_last() =~= s);
}

/// Readable characters of blocks: a paragraph counts its inlines, a code
/// block its code, a quote its blocks, ads and rules nothing; a run counts
/// the sum of its blocks.
pub proof fn lemma_block_symbols_by_kind(b: BlockM, s: Seq<BlockM>)
    ensures
        match b {
            BlockM::Paragraph(inl) => block_symbols(b) == inlines_symbols(inl),
            BlockM::CodeBlock { code, .. } => block_symbols(b) == code.len(),
            BlockM::BlockQuote(bs) => block_symbols(b) == blocks_symbols(bs),
            BlockM::Ad(_) => block_symbols(b) == 0,
            BlockM::Rule => block_symbols(b) == 0,
            _ => true,
        },
        blocks_symbols(seq![]) == 0,
        blocks_symbols(s.push(b)) == blocks_symbols(s) + block_symbols(b),
{
    assert(s.push(b).drop_last() =~= s);
}

proof fn lemma_blocks_symbols_append(a: Seq<BlockM>, b: Seq<BlockM>)
    ensures
        blocks_symbols(a + b) == blocks_symbols(a) + blocks_symbols(b),
    decreases b.len(),
{
    if b.len() == 0 {
        assert(a + b =~= a);
    } else {
        lemma_blocks_symbols_append(a, b.drop_last());
        assert((a + b).drop_last() =~= a + b.drop_last());
    }
}

/// A list counts as many readable characters as a quote that holds the
/// blocks of all its items, in order.
pub proof fn lemma_list_counts_like_quote(ordered: bool, items: Seq<Seq<BlockM>>)
    ensures
        block_symbols(BlockM::List { ordered, items }) == block_symbols(
            BlockM::BlockQuote(items.flatten()),
        ),
    decreases items.len(),
{
    if items.len() == 0 {
        assert(items.flatten() =~= Seq::<BlockM>::empty());
    } else {
        let init = items.drop_last();
        lemma_list_counts_like_quote(ordered, init);
        assert(init.push(items.last()) =~= items);
        init.lemma_flatten_push(items.last());
        lemma_blocks_symbols_append(init.flatten(), items.last());
    }
}

proof fn lemma_sections_symbols_drop_last(s: Seq<SectionM>)
    requires
        s.len() > 0,
    ensures
        sections_symbols(s.drop_last()) <= sections_symbols(s),
{
}

/// Pagination neither drops, repeats nor reorders a section: the pages,
/// read in order, give back the section list.
pub proof fn lemma_paginate_keeps_sections(s: Seq<SectionM>, limit: nat)
    ensures
        flatten_pages(paginate_spec(s, limit)) == s,
{
    lemma_paginate_state_inv(s, limit);
    let st = paginate_state(s, limit);
    if st.1.len() > 0 {
        let pages = st.0.push(st.1);
        assert(pages.drop_last() =~= st.0);
    } else {
        assert(flatten_pages(st.0) =~= s);
        if st.0.len() == 0 {
            let one: Seq<Seq<SectionM>> = seq![seq![]];
            assert(one.drop_last() =~= Seq::<Seq<SectionM>>::empty());
            assert(flatten_pages(one) =~= s);
        }
    }
}

/// There is always at least one page.
pub proof fn lemma_paginate_at_least_one_page(s: Seq<SectionM>, limit: nat)
    ensures
        paginate_spec(s, limit).len() >= 1,
{
}

/// Every page but the last goes over `limit`, and only because of its last
/// section: without it, no page goes over. When there are sections, no page
/// is empty (with none, the one page is empty).
pub proof fn lemma_paginate_page_bounds(s: Seq<SectionM>, limit: nat)
    ensures
        ({
            let pages = paginate_spec(s, limit);
            &&& forall|k: int|
                0 <= k < pages.len() - 1 ==> sections_symbols(#[trigger] pages[k]) > limit
            &&& forall|k: int|
                0 <= k < pages.len() && pages[k].len() > 0 ==> sections_symbols(
                    (#[trigger] pages[k]).drop_last(),
                ) <= limit
            &&& s.len() > 0 ==> forall|k: int| 0 <= k < pages.len() ==> (#[trigger] pages[k]).len() > 0
        }),
{
    lemma_paginate_state_inv(s, limit);
    let st = paginate_state(s, limit);
    let pages = paginate_spec(s, limit);
    if st.1.len() > 0 {
        lemma_sections_symbols_drop_last(st.1);
        assert forall|k: int| 0 <= k < pages.len() implies sections_symbols(
            (#[trigger] pages[k]).drop_last(),
        ) <= limit && pages[k].len() > 0 by {
            if k < st.0.len() {
                assert(pages[k] == st.0[k]);
            }
        }
        assert forall|k: int| 0 <= k < pages.len() - 1 implies sections_symbols(
            #[trigger] pages[k],
        ) > limit by {
            assert(pages[k] == st.0[k]);
        }
    } else if st.0.len() == 0 {
        assert(flatten_pages(st.0) =~= Seq::<SectionM>::empty());
    }
}

/// When the whole list is within `limit`, it is a single page.
pub proof fn lemma_paginate_within_limit(s: Seq<SectionM>, limit: nat)
    requires
        sections_symbols(s) <= limit,
    ensures
        paginate_spec(s, limit) == seq![s],
    decreases s.len(),
{
    lemma_paginate_state_within(s, limit);
    if s.len() == 0 {
        assert(paginate_spec(s, limit) =~= seq![s]);
    }
}

proof fn lemma_paginate_state_within(s: Seq<SectionM>, limit: nat)
    requires
        sections_symbols(s) <= limit,
    ensures
        paginate_state(s, limit) == (Seq::<Seq<SectionM>>::empty(), s, sections_symbols(s)),
    decreases s.len(),
{
    if s.len() > 0 {
        lemma_paginate_state_within(s.drop_last(), limit);
        assert(s.drop_last().push(s.last()) =~= s);
    }
}

/// Sections `i` and `l` both have a heading, with the same id.
pub open spec fn same_heading_id(a: SectionM, b: SectionM) -> bool {
    a.heading is Some && b.heading is Some && a.heading.unwrap().id == b.heading.unwrap().id
}

/// No two headed sections share an id.
pub open spec fn distinct_heading_ids(s: Seq<SectionM>) -> bool {
    forall|i: int, l: int| 0 <= i < l < s.len() ==> !same_heading_id(#[trigger] s[i], #[trigger] s[l])
}

proof fn lemma_lookup_concat(a: Seq<(Seq<char>, usize)>, b: Seq<(Seq<char>, usize)>, id: Seq<char>)
    ensures
        page_lookup(a + b, id) == (match page_lookup(b, id) {
            Some(p) => Some(p),
            None => page_lookup(a, id),
        }),
    decreases b.len(),
{
    if b.len() == 0 {
        assert(a + b =~= a);
    } else {
        assert((a + b).drop_last() =~= a + b.drop_last());
        assert((a + b).last() == b.last());
        lemma_lookup_concat(a, b.drop_last(), id);
    }
}

/// Some section of `page` has a heading with this id.
pub open spec fn page_has_id(page: Seq<SectionM>, id: Seq<char>) -> bool {
    exists|j: int|
        0 <= j < page.len() && (#[trigger] page[j]).heading is Some && page[j].heading.unwrap().id
            == id
}

proof fn lemma_section_entries_lookup(page: Seq<SectionM>, n: usize, id: Seq<char>)
    ensures
        page_lookup(section_entries(page, n), id) == (if page_has_id(page, id) {
            Some(n)
        } else {
            None
        }),
    decreases page.len(),
{
    if page.len() > 0 {
        let d = page.drop_last();
        let x = page.last();
        lemma_section_entries_lookup(d, n, id);
        let tail: Seq<(Seq<char>, usize)> = match x.heading {
            Some(h) => seq![(h.id, n)],
            None => seq![],
        };
        assert(section_entries(page, n) == section_entries(d, n) + tail);
        lemma_lookup_concat(section_entries(d, n), tail, id);
        let last_matches = x.heading is Some && x.heading.unwrap().id == id;
        if last_matches {
            assert(tail.last() == (id, n));
            assert(page_lookup(tail, id) == Some(n));
            assert(page[page.len() - 1] == x);
            assert(page_has_id(page, id));
        } else {
            if x.heading is Some {
                assert(tail.drop_last() =~= Seq::<(Seq<char>, usize)>::empty());
                assert(tail.last() == (x.heading.unwrap().id, n));
                assert(tail.last().0 != id);
                assert(page_lookup(tail.drop_last(), id) is None);
            } else {
                assert(tail.len() == 0);
            }
            assert(page_lookup(tail, id) is None);
            if page_has_id(d, id) {
                let j = choose|j: int|
                    0 <= j < d.len() && (#[trigger] d[j]).heading is Some && d[j].heading.unwrap().id
                        == id;
                assert(page[j] == d[j]);
                assert(page_has_id(page, id));
            }
            if page_has_id(page, id) {
                let j = choose|j: int|
                    0 <= j < page.len() && (#[trigger] page[j]).heading is Some
                        && page[j].heading.unwrap().id == id;
                assert(j != page.len() - 1);
                assert(d[j] == page[j]);
                assert(page_has_id(d, id));
            }
        }
    }
}

proof fn lemma_flatten_index(p: Seq<Seq<SectionM>>, k: int, j: int)
    requires
        0 <= k < p.len(),
        0 <= j < p[k].len(),
    ensures
        exists|q: int| 0 <= q < flatten_pages(p).len() && flatten_pages(p)[q] == p[k][j],
    decreases p.len(),
{
    let d = p.drop_last();
    if k == p.len() - 1 {
        let q = flatten_pages(d).len() + j;
        assert(flatten_pages(p)[q] == p.last()[j]);
    } else {
        assert(d[k] == p[k]);
        lemma_flatten_index(d, k, j);
        let q = choose|q: int| 0 <= q < flatten_pages(d).len() && flatten_pages(d)[q] == d[k][j];
        assert(flatten_pages(p)[q] == flatten_pages(d)[q]);
    }
}

proof fn lemma_pages_lookup(p: Seq<Seq<SectionM>>, k: int, j: int)
    requires
        distinct_heading_ids(flatten_pages(p)),
        0 <= k < p.len(),
        0 <= j < p[k].len(),
        p[k][j].heading is Some,
        p.len() <= usize::MAX,
    ensures
        page_lookup(page_map_entries(p), p[k][j].heading.unwrap().id) == Some((k + 1) as usize),
    decreases p.len(),
{
    let id = p[k][j].heading.unwrap().id;
    let d = p.drop_last();
    let n = p.len() as usize;
    let f = flatten_pages(p);
    let fd = flatten_pages(d);
    lemma_lookup_concat(page_map_entries(d), section_entries(p.last(), n), id);
    lemma_section_entries_lookup(p.last(), n, id);
    if k == p.len() - 1 {
        assert(p.last()[j] == p[k][j]);
    } else {
        assert(d[k] == p[k]);
        assert(distinct_heading_ids(fd)) by {
            assert forall|i: int, l: int| 0 <= i < l < fd.len() implies !same_heading_id(
                #[trigger] fd[i],
                #[trigger] fd[l],
            ) by {
                assert(f[i] == fd[i]);
                assert(f[l] == fd[l]);
            }
        }
        lemma_pages_lookup(d, k, j);
        lemma_flatten_index(d, k, j);
        let q = choose|q: int| 0 <= q < fd.len() && fd[q] == d[k][j];
        if page_has_id(p.last(), id) {
            let m = choose|m: int|
                0 <= m < p.last().len() && (#[trigger] p.last()[m]).heading is Some
                    && p.last()[m].heading.unwrap().id == id;
            assert(f[q] == fd[q]);
            assert(f[fd.len() + m] == p.last()[m]);
            assert(same_heading_id(f[q], f[fd.len() + m]));
        }
    }
}

/// With distinct heading ids, the page map gives each heading the number of
/// the page its section is on.
pub proof fn lemma_page_map_finds_section_page(s: Seq<SectionM>, limit: nat, k: int, j: int)
    requires
        distinct_heading_ids(s),
        s.len() < usize::MAX,
        0 <= k < paginate_spec(s, limit).len(),
        0 <= j < paginate_spec(s, limit)[k].len(),
        paginate_spec(s, limit)[k][j].heading is Some,
    ensures
        page_lookup(
            page_map_entries(paginate_spec(s, limit)),
            paginate_spec(s, limit)[k][j].heading.unwrap().id,
        ) == Some((k + 1) as usize),
        k + 1 <= usize::MAX,
{
    lemma_paginate_keeps_sections(s, limit);
    lemma_paginate_len_bound(s, limit);
    lemma_pages_lookup(paginate_spec(s, limit), k, j);
}

proof fn lemma_paginate_len_bound(s: Seq<SectionM>, limit: nat)
    ensures
        paginate_spec(s, limit).len() <= s.len() + 1,
{
    lemma_paginate_state_inv(s, limit);
    lemma_flatten_len_bound(paginate_state(s, limit).0);
}

proof fn lemma_flatten_len_bound(p: Seq<Seq<SectionM>>)
    requires
        forall|k: int| 0 <= k < p.len() ==> (#[trigger] p[k]).len() > 0,
    ensures
        p.len() <= flatten_pages(p).len(),
    decreases p.len(),
{
    if p.len() > 0 {
        assert forall|k: int| 0 <= k < p.drop_last().len() implies (#[trigger] p.drop_last()[k]).len() > 0 by {
            assert(p.drop_last()[k] == p[k]);
        }
        lemma_flatten_len_bound(p.drop_last());
        assert(p[p.len() - 1].len() > 0);
    }
}

// ── Prefix bounds ─────────────────────────────────────────────────────────────

proof fn lemma_inlines_prefix(v: Seq<Inline>, k: int)
    requires
        0 <= k <= v.len(),
    ensures
        inlines_symbols(inlines_model(v.take(k))) <= inlines_symbols(inlines_model(v)),
    decreases v.len(),
{
    if k < v.len() {
        assert(v.take(k) =~= v.drop_last().take(k));
        assert(inlines_model(v).drop_last() =~= inlines_model(v.drop_last()));
        lemma_inlines_prefix(v.drop_last(), k);
    } else {
        assert(v.take(k) =~= v);
    }
}

proof fn lemma_cells_prefix(v: Seq<Vec<Inline>>, k: int)
    requires
        0 <= k <= v.len(),
    ensures
        cells_symbols(cells_model(v.take(k))) <= cells_symbols(cells_model(v)),
    decreases v.len(),
{
    if k < v.len() {
        assert(v.take(k) =~= v.drop_last().take(k));
        assert(cells_model(v).drop_last() =~= cells_model(v.drop_last()));
        lemma_cells_prefix(v.drop_last(), k);
    } else {
        assert(v.take(k) =~= v);
    }
}

proof fn lemma_rows_prefix(v: Seq<Vec<Vec<Inline>>>, k: int)
    requires
        0 <= k <= v.len(),
    ensures
        rows_symbols(rows_model(v.take(k))) <= rows_symbols(rows_model(v)),
    decreases v.len(),
{
    if k < v.len() {
        assert(v.take(k) =~= v.drop_last().take(k));
        assert(rows_model(v).drop_last() =~= rows_model(v.drop_last()));
        lemma_rows_prefix(v.drop_last(), k);
    } else {
        assert(v.take(k) =~= v);
    }
}

proof fn lemma_blocks_prefix(v: Seq<Block>, k: int)
    requires
        0 <= k <= v.len(),
    ensures
        blocks_symbols(blocks_model(v.take(k))) <= blocks_symbols(blocks_model(v)),
    decreases v.len(),
{
    if k < v.len() {
        assert(v.take(k) =~= v.drop_last().take(k));
        assert(blocks_model(v).drop_last() =~= blocks_model(v.drop_last()));
        lemma_blocks_prefix(v.drop_last(), k);
    } else {
        assert(v.take(k) =~= v);
    }
}

proof fn lemma_items_prefix(v: Seq<ListItem>, k: int)
    requires
        0 <= k <= v.len(),
    ensures
        items_symbols(items_model(v.take(k))) <= items_symbols(items_model(v)),
    decreases v.len(),
{
    if k < v.len() {
        assert(v.take(k) =~= v.drop_last().take(k));
        assert(items_model(v).drop_last() =~= items_model(v.drop_last()));
        lemma_items_prefix(v.drop_last(), k);
    } else {
        assert(v.take(k) =~= v);
    }
}

// ── Counting ──────────────────────────────────────────────────────────────────

/// `acc + x`, where `c` is `x` when it fits; `None` when the sum does not fit.
fn add_fit(acc: usize, c: Option<usize>, Ghost(x): Ghost<nat>) -> (r: Option<usize>)
    requires
        c == fit(x),
    ensures
        r == fit(acc as nat + x),
{
    match c {
        None => None,
        Some(n) => acc.checked_add(n),
    }
}

/// Symbol count of one inline; `None` when it does not fit in a `usize`.
pub fn inline_symbol_count(i: &Inline) -> (r: Option<usize>)
    ensures
        r == fit(inline_symbols(i.model())),
    decreases i,
{
    match i {
        Inline::Text(t) => Some(t.as_str().unicode_len()),
        Inline::Code(t) => Some(t.as_str().unicode_len()),
        Inline::Strong(ch) => inlines_symbol_count(ch),
        Inline::Em(ch) => inlines_symbol_count(ch),
        Inline::Link { children, .. } => inlines_symbol_count(children),
        _ => Some(0),
    }
}

fn inlines_symbol_count(v: &Vec<Inline>) -> (r: Option<usize>)
    ensures
        r == fit(inlines_symbols(inlines_model(v@))),
    decreases v,
{
    let mut acc: usize = 0;
    let mut i: usize = 0;
    while i < v.len()
        invariant
            i <= v@.len(),
            acc == inlines_symbols(inlines_model(v@.take(i as int))),
        decreases v@.len() - i,
    {
        assert(decreases_to!(v => v@[i as int]));
        let c = inline_symbol_count(&v[i]);
        proof {
            assert(v@.take(i + 1) =~= v@.take(i as int).push(v@[i as int]));
            assert(inlines_model(v@.take(i + 1)).drop_last() =~= inlines_model(v@.take(i as int)));
            lemma_inlines_prefix(v@, i + 1);
        }
        match add_fit(acc, c, Ghost(inline_symbols(v@[i as int].model()))) {
            None => return None,
            Some(s) => acc = s,
        }
        i = i + 1;
    }
    assert(v@.take(v@.len() as int) =~= v@);
    Some(acc)
}

fn cells_symbol_count(v: &Vec<Vec<Inline>>) -> (r: Option<usize>)
    ensures
        r == fit(cells_symbols(cells_model(v@))),
{
    let mut acc: usize = 0;
    let mut i: usize = 0;
    while i < v.len()
        invariant
            i <= v@.len(),
            acc == cells_symbols(cells_model(v@.take(i as int))),
        decreases v@.len() - i,
    {
        let c = inlines_symbol_count(&v[i]);
        proof {
            assert(v@.take(i + 1) =~= v@.take(i as int).push(v@[i as int]));
            assert(cells_model(v@.take(i + 1)).drop_last() =~= cells_model(v@.take(i as int)));
            lemma_cells_prefix(v@, i + 1);
        }
        match add_fit(acc, c, Ghost(inlines_symbols(inlines_model(v@[i as int]@)))) {
            None => return None,
            Some(s) => acc = s,
        }
        i = i + 1;
    }
    assert(v@.take(v@.len() as int) =~= v@);
    Some(acc)
}

fn rows_symbol_count(v: &Vec<Vec<Vec<Inline>>>) -> (r: Option<usize>)
    ensures
        r == fit(rows_symbols(rows_model(v@))),
{
    let mut acc: usize = 0;
    let mut i: usize = 0;
    while i < v.len()
        invariant
            i <= v@.len(),
            acc == rows_symbols(rows_model(v@.take(i as int))),
        decreases v@.len() - i,
    {
        let c = cells_symbol_count(&v[i]);
        proof {
            assert(v@.take(i + 1) =~= v@.take(i as int).push(v@[i as int]));
            assert(rows_model(v@.take(i + 1)).drop_last() =~= rows_model(v@.take(i as int)));
            lemma_rows_prefix(v@, i + 1);
        }
        match add_fit(acc, c, Ghost(cells_symbols(cells_model(v@[i as int]@)))) {
            None => return None,
            Some(s) => acc = s,
        }
        i = i + 1;
    }
    assert(v@.take(v@.len() as int) =~= v@);
    Some(acc)
}

/// Symbol count of one block; `None` when it does not fit in a `usize`.
pub fn block_symbol_count(b: &Block) -> (r: Option<usize>)
    ensures
        r == fit(block_symbols(b.model())),
    decreases b,
{
    match b {
        Block::Paragraph(inlines) => inlines_symbol_count(inlines),
        Block::CodeBlock { code, .. } => Some(code.as_str().unicode_len()),
        Block::List { items, .. } => items_symbol_count(items),
        Block::Table { headers, rows } => {
            let h = cells_symbol_count(headers);
            let r = rows_symbol_count(rows);
            match h {
                None => None,
                Some(hn) => add_fit(hn, r, Ghost(rows_symbols(rows_model(rows@)))),
            }
        },
        Block::BlockQuote(blocks) => blocks_symbol_count(blocks),
        Block::Ad(_) => Some(0),
        Block::Rule => Some(0),
    }
}

fn blocks_symbol_count(v: &Vec<Block>) -> (r: Option<usize>)
    ensures
        r == fit(blocks_symbols(blocks_model(v@))),
    decreases v,
{
    let mut acc: usize = 0;
    let mut i: usize = 0;
    while i < v.len()
        invariant
            i <= v@.len(),
            acc == blocks_symbols(blocks_model(v@.take(i as int))),
        decreases v@.len() - i,
    {
        assert(decreases_to!(v => v@[i as int]));
        let c = block_symbol_count(&v[i]);
        proof {
            assert(v@.take(i + 1) =~= v@.take(i as int).push(v@[i as int]));
            assert(blocks_model(v@.take(i + 1)).drop_last() =~= blocks_model(v@.take(i as int)));
            lemma_blocks_prefix(v@, i + 1);
        }
        match add_fit(acc, c, Ghost(block_symbols(v@[i as int].model()))) {
            None => return None,
            Some(s) => acc = s,
        }
        i = i + 1;
    }
    assert(v@.take(v@.len() as int) =~= v@);
    Some(acc)
}

fn items_symbol_count(v: &Vec<ListItem>) -> (r: Option<usize>)
    ensures
        r == fit(items_symbols(items_model(v@))),
    decreases v,
{
    let mut acc: usize = 0;
    let mut i: usize = 0;
    while i < v.len()
        invariant
            i <= v@.len(),
            acc == items_symbols(items_model(v@.take(i as int))),
        decreases v@.len() - i,
    {
        assert(decreases_to!(v => v@[i as int]));
        assert(decreases_to!(v@[i as int] => v@[i as int].blocks));
        let c = blocks_symbol_count(&v[i].blocks);
        proof {
            assert(v@.take(i + 1) =~= v@.take(i as int).push(v@[i as int]));
            assert(items_model(v@.take(i + 1)).drop_last() =~= items_model(v@.take(i as int)));
            lemma_items_prefix(v@, i + 1);
        }
        match add_fit(acc, c, Ghost(blocks_symbols(blocks_model(v@[i as int].blocks@)))) {
            None => return None,
            Some(s) => acc = s,
        }
        i = i + 1;
    }
    assert(v@.take(v@.len() as int) =~= v@);
    Some(acc)
}

/// Symbol count of one section; `None` when it does not fit in a `usize`.
pub fn section_symbol_count(s: &Section) -> (r: Option<usize>)
    ensures
        r == fit(section_symbols(s.model())),
{
    let heading_count: usize = match &s.heading {
        Some(h) => h.text.as_str().unicode_len(),
        None => 0,
    };
    let blocks_count = blocks_symbol_count(&s.blocks);
    add_fit(heading_count, blocks_count, Ghost(blocks_symbols(blocks_model(s.blocks@))))
}

// ── Paginating ────────────────────────────────────────────────────────────────

/// Split `sections` into pages, each closed by the section that takes its
/// plain-text symbol count over `limit`.
///
/// Returns at least one page (the full section list if it never exceeds
/// the limit).
pub fn paginate(sections: &Vec<Section>, limit: usize) -> (pages: Vec<Vec<Section>>)
    ensures
        pages_model(pages@) == paginate_spec(sections_model(sections@), limit as nat),
{
    let mut pages: Vec<Vec<Section>> = Vec::new();
    let mut current: Vec<Section> = Vec::new();
    let mut running: usize = 0;
    let mut i: usize = 0;
    while i < sections.len()
        invariant
            i <= sections@.len(),
            running <= limit,
            paginate_state(sections_model(sections@.take(i as int)), limit as nat) == (
                pages_model(pages@),
                sections_model(current@),
                running as nat,
            ),
        decreases sections@.len() - i,
    {
        let ghost prev_pages = pages@;
        let ghost prev_current = current@;
        let count = section_symbol_count(&sections[i]);
        let copy = copy_section(&sections[i]);
        current.push(copy);
        proof {
            assert(sections@.take(i + 1) =~= sections@.take(i as int).push(sections@[i as int]));
            assert(sections_model(sections@.take(i + 1)).drop_last() =~= sections_model(
                sections@.take(i as int),
            ));
        }
        let over = match count {
            None => true,
            Some(n) => n > limit - running,
        };
        if over {
            pages.push(current);
            current = Vec::new();
            running = 0;
            proof {
                assert(pages_model(pages@) =~= pages_model(prev_pages).push(
                    sections_model(prev_current.push(copy)),
                ));
                assert(sections_model(current@) =~= Seq::<SectionM>::empty());
            }
        } else {
            running = running + count.unwrap();
            assert(pages@ =~= prev_pages);
        }
        i = i + 1;
    }
    assert(sections@.take(sections@.len() as int) =~= sections@);
    let ghost closed = pages@;
    if current.len() > 0 {
        let ghost cur = current@;
        pages.push(current);
        assert(pages_model(pages@) =~= pages_model(closed).push(sections_model(cur)));
    }
    if pages.len() == 0 {
        pages.push(Vec::new());
        assert(pages_model(pages@) =~= seq![Seq::<SectionM>::empty()]);
    }
    pages
}

/// Map each section anchor id to the 1-based number of the page it lives
/// on, for page-aware table-of-contents links. Sections with no heading
/// contribute nothing; a later entry for an id supersedes an earlier one.
pub fn build_page_map(pages: &Vec<Vec<Section>>) -> (r: PageMap)
    ensures
        r.model() == page_map_entries(pages_model(pages@)),
{
    let mut map = PageMap::new();
    let mut k: usize = 0;
    while k < pages.len()
        invariant
            k <= pages@.len(),
            map.model() == page_map_entries(pages_model(pages@.take(k as int))),
        decreases pages@.len() - k,
    {
        let page = &pages[k];
        let page_num = k + 1;
        let ghost before = map.model();
        let mut j: usize = 0;
        while j < page.len()
            invariant
                j <= page@.len(),
                page == pages@[k as int],
                map.model() == before + section_entries(
                    sections_model(page@.take(j as int)),
                    page_num,
                ),
            decreases page@.len() - j,
        {
            let ghost mid = map.entries@;
            proof {
                assert(page@.take(j + 1) =~= page@.take(j as int).push(page@[j as int]));
                assert(sections_model(page@.take(j + 1)).drop_last() =~= sections_model(
                    page@.take(j as int),
                ));
            }
            match &page[j].heading {
                Some(h) => {
                    map.entries.push((h.id.clone(), page_num));
                    assert(map.model() =~= page_entries_model(mid).push((h.id@, page_num)));
                    assert(map.model() =~= before + section_entries(
                        sections_model(page@.take(j + 1)),
                        page_num,
                    ));
                },
                None => {
                    assert(map.model() =~= before + section_entries(
                        sections_model(page@.take(j + 1)),
                        page_num,
                    ));
                },
            }
            j = j + 1;
        }
        proof {
            assert(page@.take(page@.len() as int) =~= page@);
            assert(pages@.take(k + 1) =~= pages@.take(k as int).push(pages@[k as int]));
            assert(pages_model(pages@.take(k + 1)).drop_last() =~= pages_model(
                pages@.take(k as int),
            ));
            assert(pages_model(pages@.take(k + 1)).last() == sections_model(page@));
        }
        k = k + 1;
    }
    assert(pages@.take(pages@.len() as int) =~= pages@);
    map
}

} // verus!
