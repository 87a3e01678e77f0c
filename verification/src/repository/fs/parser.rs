//! Markdown-to-domain-model parser.
//!
//! The Markdown text is turned into a flat event stream by `pulldown-cmark`
//! (see `markdown`); the stream is then consumed here, position by position,
//! into sections, blocks and inlines.
//!
//! Every consumer below takes the events and a start position and returns what
//! it built together with the position it stopped at. An event that closes a
//! span while no span is open is passed over.

use vstd::prelude::*;
use vstd::utf8::encode_utf8;

use crate::domain::{
    ArticleM, blocks_model, cells_model, group_model_lemmas, inlines_model, items_model, rows_model,
    sections_model, Article, Block, BlockM, Heading, HeadingM, Inline, InlineM, ListItem, Section,
    SectionM,
};
use crate::repository::fs::front_matter::{split, split_spec, value, value_spec};
use crate::repository::fs::markdown::{
    events_model, heading_level_ok, heading_levels_valid, markdown_events, parse_markdown, EventM,
    MdEvent, MdTag, MdTagEnd, TagM, ENABLE_SMART_PUNCTUATION, ENABLE_STRIKETHROUGH, ENABLE_TABLES,
};
use crate::repository::fs::util::{slugify, slugify_spec};
use crate::text::{
    chars_of, ends_with, push_char, starts_with, string_of, trim_bounds, trim_ws,
};

verus! {

broadcast use group_model_lemmas;

// ── Plain text ────────────────────────────────────────────────────────────────

/// The readable text of inlines: text and code verbatim, nested spans by their
/// children, images by their alt text, line breaks as one space.
pub open spec fn plain_text(s: Seq<InlineM>) -> Seq<char>
    decreases s,
{
    if s.len() == 0 {
        seq![]
    } else {
        plain_text(s.drop_last()) + inline_plain(s.last())
    }
}

pub open spec fn inline_plain(i: InlineM) -> Seq<char>
    decreases i,
{
    match i {
        InlineM::Text(t) => t,
        InlineM::Code(t) => t,
        InlineM::Strong(ch) => plain_text(ch),
        InlineM::Em(ch) => plain_text(ch),
        InlineM::Link { children, .. } => plain_text(children),
        InlineM::Image { alt, .. } => alt,
        InlineM::SoftBreak => seq![' '],
        InlineM::HardBreak => seq![' '],
    }
}

pub proof fn lemma_plain_text_push(s: Seq<InlineM>, x: InlineM)
    ensures
        plain_text(s.push(x)) == plain_text(s) + inline_plain(x),
{
    assert(s.push(x).drop_last() =~= s);
}

// ── Inline collection ─────────────────────────────────────────────────────────

/// Inlines being collected: the open span frames below the innermost one, the
/// innermost frame, and the targets of the open links and images.
#[verifier::ext_equal]
pub struct InlState {
    pub saved: Seq<Seq<InlineM>>,
    pub top: Seq<InlineM>,
    pub links: Seq<(Seq<char>, Seq<char>)>,
    pub imgs: Seq<(Seq<char>, Seq<char>)>,
}

pub open spec fn init_state() -> InlState {
    InlState { saved: seq![], top: seq![], links: seq![], imgs: seq![] }
}

pub open spec fn push_inline(st: InlState, x: InlineM) -> InlState {
    InlState { top: st.top.push(x), ..st }
}

pub open spec fn open_frame(st: InlState) -> InlState {
    InlState { saved: st.saved.push(st.top), top: seq![], ..st }
}

/// Closes the innermost frame; `x` (built from it) joins the enclosing frame.
pub open spec fn close_frame(st: InlState, x: InlineM) -> InlState {
    InlState { saved: st.saved.drop_last(), top: st.saved.last().push(x), ..st }
}

pub open spec fn last_or_empty(s: Seq<(Seq<char>, Seq<char>)>) -> (Seq<char>, Seq<char>) {
    if s.len() > 0 {
        s.last()
    } else {
        (seq![], seq![])
    }
}

pub open spec fn drop_last_or_empty(s: Seq<(Seq<char>, Seq<char>)>) -> Seq<(Seq<char>, Seq<char>)> {
    if s.len() > 0 {
        s.drop_last()
    } else {
        s
    }
}

/// One inline event; a span end while no span is open changes nothing.
pub open spec fn inline_step(st: InlState, e: EventM) -> InlState {
    match e {
        EventM::Text(t) => push_inline(st, InlineM::Text(t)),
        EventM::Code(t) => push_inline(st, InlineM::Code(t)),
        EventM::SoftBreak => push_inline(st, InlineM::SoftBreak),
        EventM::HardBreak => push_inline(st, InlineM::HardBreak),
        EventM::Html(h) => push_inline(st, InlineM::Text(h)),
        EventM::InlineHtml(h) => push_inline(st, InlineM::Text(h)),
        EventM::Start(TagM::Strong) => open_frame(st),
        EventM::Start(TagM::Emphasis) => open_frame(st),
        EventM::Start(TagM::Link { dest_url, title }) => open_frame(
            InlState { links: st.links.push((dest_url, title)), ..st },
        ),
        EventM::Start(TagM::Image { dest_url, title }) => open_frame(
            InlState { imgs: st.imgs.push((dest_url, title)), ..st },
        ),
        EventM::End(MdTagEnd::Strong) => if st.saved.len() == 0 {
            st
        } else {
            close_frame(st, InlineM::Strong(st.top))
        },
        EventM::End(MdTagEnd::Emphasis) => if st.saved.len() == 0 {
            st
        } else {
            close_frame(st, InlineM::Em(st.top))
        },
        EventM::End(MdTagEnd::Link) => if st.saved.len() == 0 {
            st
        } else {
            let (href, title) = last_or_empty(st.links);
            close_frame(
                InlState { links: drop_last_or_empty(st.links), ..st },
                InlineM::Link { href, title, children: st.top },
            )
        },
        EventM::End(MdTagEnd::Image) => if st.saved.len() == 0 {
            st
        } else {
            let (src, title) = last_or_empty(st.imgs);
            close_frame(
                InlState { imgs: drop_last_or_empty(st.imgs), ..st },
                InlineM::Image { src, alt: plain_text(st.top), title },
            )
        },
        _ => st,
    }
}

/// Inlines from `pos` up to the event `End(end)`: the innermost frame at that
/// point and the position of the end event (the length when there is none).
pub open spec fn collect_inlines_from(ev: Seq<EventM>, pos: int, end: MdTagEnd, st: InlState) -> (
    Seq<InlineM>,
    int,
)
    decreases ev.len() - pos,
{
    if pos < 0 || pos >= ev.len() {
        (st.top, ev.len() as int)
    } else if ev[pos] == EventM::End(end) {
        (st.top, pos)
    } else {
        collect_inlines_from(ev, pos + 1, end, inline_step(st, ev[pos]))
    }
}

pub open spec fn collect_inlines_spec(ev: Seq<EventM>, pos: int, end: MdTagEnd) -> (
    Seq<InlineM>,
    int,
) {
    collect_inlines_from(ev, pos, end, init_state())
}

/// Events that end a run of loose inline content.
pub open spec fn is_run_break(e: EventM) -> bool {
    match e {
        EventM::Start(TagM::Paragraph) => true,
        EventM::Start(TagM::Heading(_)) => true,
        EventM::Start(TagM::List(_)) => true,
        EventM::Start(TagM::BlockQuote) => true,
        EventM::Start(TagM::CodeBlock(_)) => true,
        EventM::Start(TagM::Table) => true,
        EventM::Rule => true,
        EventM::End(MdTagEnd::Strong) => false,
        EventM::End(MdTagEnd::Emphasis) => false,
        EventM::End(MdTagEnd::Link) => false,
        EventM::End(MdTagEnd::Image) => false,
        EventM::End(_) => true,
        _ => false,
    }
}

/// Loose inline content (as in tight list items) from `pos` up to the next
/// block start, rule or end of an enclosing element.
pub open spec fn inline_run_from(ev: Seq<EventM>, pos: int, st: InlState) -> (Seq<InlineM>, int)
    decreases ev.len() - pos,
{
    if pos < 0 || pos >= ev.len() {
        (st.top, ev.len() as int)
    } else if is_run_break(ev[pos]) {
        (st.top, pos)
    } else {
        inline_run_from(ev, pos + 1, inline_step(st, ev[pos]))
    }
}

/// Every soft break immediately followed by a link becomes a hard break.
pub open spec fn normalize_breaks_spec(s: Seq<InlineM>) -> Seq<InlineM> {
    Seq::new(
        s.len(),
        |i: int|
            if s[i] is SoftBreak && i + 1 < s.len() && s[i + 1] is Link {
                InlineM::HardBreak
            } else {
                s[i]
            },
    )
}

// ── Block structure (spec) ────────────────────────────────────────────────────

/// The position after an end event found at `e`, never past the end.
pub open spec fn next_after(e: int, len: int) -> int {
    if e + 1 < len {
        e + 1
    } else {
        len
    }
}

/// Where a scan that stood at `pos` continues: at `next` when that lies ahead
/// (at most at the end), else at the following event.
pub open spec fn step_to(pos: int, next: int, len: int) -> int {
    if next <= pos {
        pos + 1
    } else if next > len {
        len
    } else {
        next
    }
}

/// The slot of an `<!-- ad: slot -->` comment.
pub open spec fn ad_slot(h: Seq<char>) -> Option<Seq<char>> {
    let t = trim_ws(h);
    if !starts_with(t, seq!['<', '!', '-', '-']) {
        None
    } else {
        let a = t.skip(4);
        if !ends_with(a, seq!['-', '-', '>']) {
            None
        } else {
            let inner = trim_ws(a.take(a.len() - 3));
            if !starts_with(inner, seq!['a', 'd', ':']) {
                None
            } else {
                Some(trim_ws(inner.skip(3)))
            }
        }
    }
}

pub open spec fn push_opt(s: Seq<BlockM>, b: Option<BlockM>) -> Seq<BlockM> {
    match b {
        Some(x) => s.push(x),
        None => s,
    }
}

/// A table being collected: header cells, body rows, whether the header is
/// open, and the cells of the current row.
#[verifier::ext_equal]
pub struct TableState {
    pub headers: Seq<Seq<InlineM>>,
    pub rows: Seq<Seq<Seq<InlineM>>>,
    pub in_head: bool,
    pub row: Seq<Seq<InlineM>>,
}

pub open spec fn init_table() -> TableState {
    TableState { headers: seq![], rows: seq![], in_head: false, row: seq![] }
}

pub open spec fn table_block(st: TableState) -> BlockM {
    BlockM::Table { headers: st.headers, rows: st.rows }
}

/// A table from `pos` up to its end event: the cells collected while the
/// header is open become the header when it closes; each row closed outside
/// the header becomes a body row.
pub open spec fn table_from(ev: Seq<EventM>, pos: int, st: TableState) -> (BlockM, int)
    decreases ev.len() - pos,
{
    if pos < 0 || pos >= ev.len() {
        (table_block(st), ev.len() as int)
    } else {
        match ev[pos] {
            EventM::End(MdTagEnd::Table) => (table_block(st), pos),
            EventM::Start(TagM::TableHead) => table_from(
                ev,
                pos + 1,
                TableState { in_head: true, row: seq![], ..st },
            ),
            EventM::End(MdTagEnd::TableHead) => table_from(
                ev,
                pos + 1,
                TableState { headers: st.row, in_head: false, row: seq![], ..st },
            ),
            EventM::Start(TagM::TableRow) => table_from(ev, pos + 1, TableState { row: seq![], ..st }),
            EventM::End(MdTagEnd::TableRow) => if st.in_head {
                table_from(ev, pos + 1, st)
            } else {
                table_from(ev, pos + 1, TableState { rows: st.rows.push(st.row), row: seq![], ..st })
            },
            EventM::Start(TagM::TableCell) => {
                let (cell, e) = collect_inlines_spec(ev, pos + 1, MdTagEnd::TableCell);
                table_from(
                    ev,
                    step_to(pos, next_after(e, ev.len() as int), ev.len() as int),
                    TableState { row: st.row.push(cell), ..st },
                )
            },
            _ => table_from(ev, pos + 1, st),
        }
    }
}

/// The text of a code block from `pos` up to its end event.
pub open spec fn code_text_from(ev: Seq<EventM>, pos: int, acc: Seq<char>) -> (Seq<char>, int)
    decreases ev.len() - pos,
{
    if pos < 0 || pos >= ev.len() {
        (acc, ev.len() as int)
    } else {
        match ev[pos] {
            EventM::End(MdTagEnd::CodeBlock) => (acc, pos),
            EventM::Text(t) => code_text_from(ev, pos + 1, acc + t),
            _ => code_text_from(ev, pos + 1, acc),
        }
    }
}

/// One block starting at `pos`, with the position after it.
pub open spec fn parse_block_spec(ev: Seq<EventM>, pos: int) -> (Option<BlockM>, int)
    decreases ev.len() - pos, 0int,
{
    let len = ev.len() as int;
    if pos < 0 || pos >= len {
        (None, pos)
    } else {
        match ev[pos] {
            EventM::Start(TagM::Paragraph) => {
                let (inl, e) = collect_inlines_spec(ev, pos + 1, MdTagEnd::Paragraph);
                (paragraph_spec(inl), next_after(e, len))
            },
            EventM::Html(h) => (ad_block(h), pos + 1),
            EventM::InlineHtml(h) => (ad_block(h), pos + 1),
            EventM::Start(TagM::List(first)) => {
                let (items, e) = list_items_from(ev, pos + 1, seq![]);
                (Some(BlockM::List { ordered: first is Some, items }), next_after(e, len))
            },
            EventM::Start(TagM::Table) => {
                let (t, e) = table_from(ev, pos + 1, init_table());
                (Some(t), next_after(e, len))
            },
            EventM::Start(TagM::BlockQuote) => {
                let (bs, e) = block_children_from(ev, pos + 1, MdTagEnd::BlockQuote, seq![]);
                (Some(BlockM::BlockQuote(bs)), next_after(e, len))
            },
            EventM::Start(TagM::CodeBlock(kind)) => {
                let lang = match kind {
                    Some(l) => l,
                    None => seq![],
                };
                let (code, e) = code_text_from(ev, pos + 1, seq![]);
                (Some(BlockM::CodeBlock { lang, code }), next_after(e, len))
            },
            EventM::Rule => (Some(BlockM::Rule), pos + 1),
            EventM::Text(_) | EventM::Code(_) | EventM::SoftBreak | EventM::HardBreak
            | EventM::Start(TagM::Strong) | EventM::Start(TagM::Emphasis) | EventM::Start(
                TagM::Link { .. },
            ) | EventM::Start(TagM::Image { .. }) => {
                let (inl, e) = inline_run_from(ev, pos, init_state());
                (paragraph_spec(inl), e)
            },
            _ => (None, pos + 1),
        }
    }
}

/// A list start makes a list block, numbered exactly when the start carries
/// the number of its first item, whatever that number is.
pub proof fn lemma_list_start_makes_list(ev: Seq<EventM>, pos: int, first: Option<u64>)
    requires
        0 <= pos < ev.len(),
        ev[pos] == EventM::Start(TagM::List(first)),
    ensures
        parse_block_spec(ev, pos).0 matches Some(BlockM::List { ordered, .. }) && ordered == (
        first is Some),
{
}

proof fn lemma_table_from_is_table(ev: Seq<EventM>, pos: int, st: TableState)
    ensures
        table_from(ev, pos, st).0 is Table,
    decreases ev.len() - pos,
{
    if 0 <= pos < ev.len() {
        match ev[pos] {
            EventM::End(MdTagEnd::Table) => {},
            EventM::Start(TagM::TableHead) => lemma_table_from_is_table(
                ev,
                pos + 1,
                TableState { in_head: true, row: seq![], ..st },
            ),
            EventM::End(MdTagEnd::TableHead) => lemma_table_from_is_table(
                ev,
                pos + 1,
                TableState { headers: st.row, in_head: false, row: seq![], ..st },
            ),
            EventM::Start(TagM::TableRow) => lemma_table_from_is_table(
                ev,
                pos + 1,
                TableState { row: seq![], ..st },
            ),
            EventM::End(MdTagEnd::TableRow) => if st.in_head {
                lemma_table_from_is_table(ev, pos + 1, st)
            } else {
                lemma_table_from_is_table(
                    ev,
                    pos + 1,
                    TableState { rows: st.rows.push(st.row), row: seq![], ..st },
                )
            },
            EventM::Start(TagM::TableCell) => {
                let (cell, e) = collect_inlines_spec(ev, pos + 1, MdTagEnd::TableCell);
                lemma_table_from_is_table(
                    ev,
                    step_to(pos, next_after(e, ev.len() as int), ev.len() as int),
                    TableState { row: st.row.push(cell), ..st },
                );
            },
            _ => lemma_table_from_is_table(ev, pos + 1, st),
        }
    }
}

/// Each block start makes a block of its own kind: a quote start a quote, a
/// table start a table, a rule a rule (one event long), a code block start a
/// code block in the fence's language (none for an indented block), and a
/// paragraph start a paragraph or nothing; an end event makes nothing and is
/// passed.
pub proof fn lemma_block_kind_follows_start(ev: Seq<EventM>, pos: int)
    requires
        0 <= pos < ev.len(),
    ensures
        ({
            let (b, next) = parse_block_spec(ev, pos);
            match ev[pos] {
                EventM::Start(TagM::BlockQuote) => b matches Some(BlockM::BlockQuote(_)),
                EventM::Start(TagM::Table) => b matches Some(BlockM::Table { .. }),
                EventM::Rule => b == Some(BlockM::Rule) && next == pos + 1,
                EventM::Start(TagM::CodeBlock(kind)) => b matches Some(
                    BlockM::CodeBlock { lang, .. },
                ) && lang == (match kind {
                    Some(l) => l,
                    None => Seq::<char>::empty(),
                }),
                EventM::Start(TagM::Paragraph) => b is None || b matches Some(
                    BlockM::Paragraph(_),
                ),
                EventM::End(_) => b is None && next == pos + 1,
                _ => true,
            }
        }),
{
    let r = parse_block_spec(ev, pos);
    match ev[pos] {
        EventM::Start(TagM::Paragraph) => {
            let (inl, e) = collect_inlines_spec(ev, pos + 1, MdTagEnd::Paragraph);
            assert(r.0 == paragraph_spec(inl));
            assert(r.0 is None || r.0 matches Some(BlockM::Paragraph(_)));
        },
        EventM::Start(TagM::BlockQuote) => {
            assert(r.0 matches Some(BlockM::BlockQuote(_)));
        },
        EventM::Start(TagM::Table) => {
            lemma_table_from_is_table(ev, pos + 1, init_table());
        },
        EventM::Rule => {
            assert(r.0 == Some(BlockM::Rule));
        },
        EventM::Start(TagM::CodeBlock(kind)) => {
            assert(r.0 matches Some(BlockM::CodeBlock { .. }));
        },
        EventM::End(_) => {
            assert(r.0 is None);
            assert(r.1 == pos + 1);
        },
        _ => {},
    }
}

/// A paragraph of the given inlines (line breaks before links made hard), or
/// nothing when there are none.
pub open spec fn paragraph_spec(inl: Seq<InlineM>) -> Option<BlockM> {
    let n = normalize_breaks_spec(inl);
    if n.len() == 0 {
        None
    } else {
        Some(BlockM::Paragraph(n))
    }
}

/// An ad slot block when the HTML is an ad comment.
pub open spec fn ad_block(h: Seq<char>) -> Option<BlockM> {
    match ad_slot(h) {
        Some(slot) => Some(BlockM::Ad(slot)),
        None => None,
    }
}

/// Blocks from `pos` up to the event `End(end)`, appended to `acc`.
pub open spec fn block_children_from(
    ev: Seq<EventM>,
    pos: int,
    end: MdTagEnd,
    acc: Seq<BlockM>,
) -> (Seq<BlockM>, int)
    decreases ev.len() - pos, 1int,
{
    let len = ev.len() as int;
    if pos < 0 || pos >= len {
        (acc, len)
    } else if ev[pos] == EventM::End(end) {
        (acc, pos)
    } else {
        let (b, next) = parse_block_spec(ev, pos);
        block_children_from(ev, step_to(pos, next, len), end, push_opt(acc, b))
    }
}

/// List items from `pos` up to the list's end event, appended to `acc`.
pub open spec fn list_items_from(ev: Seq<EventM>, pos: int, acc: Seq<Seq<BlockM>>) -> (
    Seq<Seq<BlockM>>,
    int,
)
    decreases ev.len() - pos, 0int,
{
    let len = ev.len() as int;
    if pos < 0 || pos >= len {
        (acc, len)
    } else {
        match ev[pos] {
            EventM::End(MdTagEnd::List(_)) => (acc, pos),
            EventM::Start(TagM::Item) => {
                let (bs, e) = block_children_from(ev, pos + 1, MdTagEnd::Item, seq![]);
                list_items_from(ev, step_to(pos, next_after(e, len), len), acc.push(bs))
            },
            _ => list_items_from(ev, pos + 1, acc),
        }
    }
}

/// The leading section is dropped when it has neither heading nor blocks.
pub open spec fn drop_empty_intro(secs: Seq<SectionM>) -> Seq<SectionM> {
    if secs.len() > 0 && secs[0].heading is None && secs[0].blocks.len() == 0 {
        secs.drop_first()
    } else {
        secs
    }
}

/// Title and sections from `pos` on: the first non-empty level-1 heading is
/// the title; every other heading opens a new section whose id is the slug of
/// its text; all other blocks join the current section.
pub open spec fn body_from(
    ev: Seq<EventM>,
    pos: int,
    title: Seq<char>,
    done: Seq<SectionM>,
    cur: SectionM,
) -> (Seq<char>, Seq<SectionM>)
    decreases ev.len() - pos,
{
    let len = ev.len() as int;
    if pos < 0 || pos >= len {
        (title, drop_empty_intro(done.push(cur)))
    } else {
        match ev[pos] {
            EventM::Start(TagM::Heading(level)) => {
                let (inl, e) = collect_inlines_spec(ev, pos + 1, MdTagEnd::Heading(level));
                let np = step_to(pos, next_after(e, len), len);
                let text = plain_text(inl);
                if level == 1 {
                    body_from(
                        ev,
                        np,
                        if title.len() == 0 {
                            text
                        } else {
                            title
                        },
                        done,
                        cur,
                    )
                } else {
                    body_from(
                        ev,
                        np,
                        title,
                        done.push(cur),
                        SectionM {
                            heading: Some(HeadingM { level, id: slugify_spec(text), text }),
                            blocks: seq![],
                        },
                    )
                }
            },
            _ => {
                let (b, next) = parse_block_spec(ev, pos);
                body_from(
                    ev,
                    step_to(pos, next, len),
                    title,
                    done,
                    SectionM { heading: cur.heading, blocks: push_opt(cur.blocks, b) },
                )
            },
        }
    }
}

/// Title and sections of a whole event stream.
pub open spec fn parse_body_spec(ev: Seq<EventM>) -> (Seq<char>, Seq<SectionM>) {
    body_from(ev, 0, seq![], seq![], SectionM { heading: None, blocks: seq![] })
}

/// A section heading has a level in `2..=6` and the slug of its text as id.
pub open spec fn section_heading_ok(s: SectionM) -> bool {
    match s.heading {
        Some(h) => 2 <= h.level <= 6 && h.id == slugify_spec(h.text),
        None => true,
    }
}

/// The shape of an article's sections: every heading is well formed, every
/// section has a heading or blocks, and only the first may lack a heading.
pub open spec fn well_shaped_sections(ss: Seq<SectionM>) -> bool {
    forall|i: int|
        0 <= i < ss.len() ==> {
            &&& section_heading_ok(#[trigger] ss[i])
            &&& (ss[i].heading is Some || ss[i].blocks.len() > 0)
            &&& (i > 0 ==> ss[i].heading is Some)
        }
}

/// The sections read from an event stream whose heading levels lie in
/// `1..=6` are well shaped: each heading has a level in `2..=6` and the slug
/// of its text as id, no section is empty, and only the first may lack a
/// heading.
pub proof fn lemma_body_sections_well_shaped(
    ev: Seq<EventM>,
    pos: int,
    title: Seq<char>,
    done: Seq<SectionM>,
    cur: SectionM,
)
    requires
        heading_levels_valid(ev),
        forall|i: int|
            0 <= i < done.len() ==> section_heading_ok(#[trigger] done[i]) && (i > 0
                ==> done[i].heading is Some),
        section_heading_ok(cur),
        done.len() > 0 ==> cur.heading is Some,
    ensures
        well_shaped_sections(body_from(ev, pos, title, done, cur).1),
    decreases ev.len() - pos,
{
    let len = ev.len() as int;
    if pos < 0 || pos >= len {
        let s = done.push(cur);
        assert(forall|i: int| 0 <= i < s.len() ==> section_heading_ok(#[trigger] s[i]) && (i > 0
            ==> s[i].heading is Some)) by {
            assert forall|i: int| 0 <= i < s.len() implies section_heading_ok(#[trigger] s[i]) && (i
                > 0 ==> s[i].heading is Some) by {
                if i < done.len() {
                    assert(s[i] == done[i]);
                }
            }
        }
        let secs = drop_empty_intro(s);
        assert forall|i: int| 0 <= i < secs.len() implies {
            &&& section_heading_ok(#[trigger] secs[i])
            &&& (secs[i].heading is Some || secs[i].blocks.len() > 0)
            &&& (i > 0 ==> secs[i].heading is Some)
        } by {
            if s.len() > 0 && s[0].heading is None && s[0].blocks.len() == 0 {
                assert(secs[i] == s[i + 1]);
            } else {
                assert(secs[i] == s[i]);
            }
        }
    } else {
        assert(heading_level_ok(ev[pos]));
        match ev[pos] {
            EventM::Start(TagM::Heading(level)) => {
                let (inl, e) = collect_inlines_spec(ev, pos + 1, MdTagEnd::Heading(level));
                let np = step_to(pos, next_after(e, len), len);
                let text = plain_text(inl);
                if level == 1 {
                    lemma_body_sections_well_shaped(
                        ev,
                        np,
                        if title.len() == 0 {
                            text
                        } else {
                            title
                        },
                        done,
                        cur,
                    );
                } else {
                    let d2 = done.push(cur);
                    assert forall|i: int| 0 <= i < d2.len() implies section_heading_ok(
                        #[trigger] d2[i],
                    ) && (i > 0 ==> d2[i].heading is Some) by {
                        if i < done.len() {
                            assert(d2[i] == done[i]);
                        }
                    }
                    lemma_body_sections_well_shaped(
                        ev,
                        np,
                        title,
                        d2,
                        SectionM {
                            heading: Some(HeadingM { level, id: slugify_spec(text), text }),
                            blocks: seq![],
                        },
                    );
                }
            },
            _ => {
                let (b, next) = parse_block_spec(ev, pos);
                lemma_body_sections_well_shaped(
                    ev,
                    step_to(pos, next, len),
                    title,
                    done,
                    SectionM { heading: cur.heading, blocks: push_opt(cur.blocks, b) },
                );
            },
        }
    }
}

/// The text of the first level-1 heading, read from `pos` on.
pub open spec fn title_from(ev: Seq<EventM>, pos: int, in_h1: bool, acc: Seq<char>) -> Seq<char>
    decreases ev.len() - pos,
{
    if pos < 0 || pos >= ev.len() {
        acc
    } else {
        match ev[pos] {
            EventM::Start(TagM::Heading(1)) => title_from(ev, pos + 1, true, acc),
            EventM::End(MdTagEnd::Heading(_)) => if in_h1 {
                acc
            } else {
                title_from(ev, pos + 1, in_h1, acc)
            },
            EventM::Text(t) => if in_h1 {
                title_from(ev, pos + 1, in_h1, acc + t)
            } else {
                title_from(ev, pos + 1, in_h1, acc)
            },
            _ => title_from(ev, pos + 1, in_h1, acc),
        }
    }
}

// ── Inline executable ────────────────────────────────────────────────────────

pub open spec fn pairs_model(s: Seq<(String, String)>) -> Seq<(Seq<char>, Seq<char>)> {
    s.map_values(|p: (String, String)| (p.0@, p.1@))
}

pub open spec fn state_model(
    saved: Seq<Vec<Inline>>,
    top: Seq<Inline>,
    links: Seq<(String, String)>,
    imgs: Seq<(String, String)>,
) -> InlState {
    InlState {
        saved: cells_model(saved),
        top: inlines_model(top),
        links: pairs_model(links),
        imgs: pairs_model(imgs),
    }
}

/// Plain text of one inline.
pub fn inline_to_plain_text(i: &Inline) -> (r: String)
    ensures
        r@ == inline_plain(i.model()),
    decreases i,
{
    match i {
        Inline::Text(t) => t.clone(),
        Inline::Code(t) => t.clone(),
        Inline::Strong(ch) => inlines_to_plain_text(ch),
        Inline::Em(ch) => inlines_to_plain_text(ch),
        Inline::Link { children, .. } => inlines_to_plain_text(children),
        Inline::Image { alt, .. } => alt.clone(),
        Inline::SoftBreak | Inline::HardBreak => {
            let mut s = String::new();
            push_char(&mut s, ' ');
            assert(s@ =~= seq![' ']);
            s
        },
    }
}

/// Plain text of a run of inlines: text and code verbatim, nested spans by
/// their children, images by their alt text, line breaks as one space.
pub fn inlines_to_plain_text(inlines: &Vec<Inline>) -> (r: String)
    ensures
        r@ == plain_text(inlines_model(inlines@)),
    decreases inlines,
{
    let mut out = String::new();
    let mut i: usize = 0;
    while i < inlines.len()
        invariant
            i <= inlines@.len(),
            out@ == plain_text(inlines_model(inlines@.take(i as int))),
        decreases inlines@.len() - i,
    {
        assert(decreases_to!(inlines => inlines@[i as int]));
        let piece = inline_to_plain_text(&inlines[i]);
        out.append(piece.as_str());
        proof {
            assert(inlines@.take(i + 1) =~= inlines@.take(i as int).push(inlines@[i as int]));
            lemma_plain_text_push(inlines_model(inlines@.take(i as int)), inlines@[i as int].model());
        }
        i = i + 1;
    }
    assert(inlines@.take(inlines@.len() as int) =~= inlines@);
    out
}

fn empty_pair() -> (r: (String, String))
    ensures
        r.0@ == Seq::<char>::empty(),
        r.1@ == Seq::<char>::empty(),
{
    (String::new(), String::new())
}

/// Applies one inline event to the collection state.
fn inline_step_exec(
    saved: &mut Vec<Vec<Inline>>,
    top: &mut Vec<Inline>,
    links: &mut Vec<(String, String)>,
    imgs: &mut Vec<(String, String)>,
    e: &MdEvent,
)
    ensures
        inline_step(state_model(old(saved)@, old(top)@, old(links)@, old(imgs)@), e.model())
            == state_model(final(saved)@, final(top)@, final(links)@, final(imgs)@),
{
    let ghost st = state_model(saved@, top@, links@, imgs@);
    match e {
        MdEvent::Text(t) => {
            top.push(Inline::Text(t.clone()));
        },
        MdEvent::Code(t) => {
            top.push(Inline::Code(t.clone()));
        },
        MdEvent::SoftBreak => {
            top.push(Inline::SoftBreak);
        },
        MdEvent::HardBreak => {
            top.push(Inline::HardBreak);
        },
        MdEvent::Html(h) => {
            top.push(Inline::Text(h.clone()));
        },
        MdEvent::InlineHtml(h) => {
            top.push(Inline::Text(h.clone()));
        },
        MdEvent::Start(MdTag::Strong) | MdEvent::Start(MdTag::Emphasis) => {
            let mut frame: Vec<Inline> = Vec::new();
            std::mem::swap(&mut frame, top);
            saved.push(frame);
        },
        MdEvent::Start(MdTag::Link { dest_url, title }) => {
            links.push((dest_url.clone(), title.clone()));
            proof {
                assert(pairs_model(links@) =~= pairs_model(old(links)@).push((dest_url@, title@)));
            }
            let mut frame: Vec<Inline> = Vec::new();
            std::mem::swap(&mut frame, top);
            saved.push(frame);
        },
        MdEvent::Start(MdTag::Image { dest_url, title }) => {
            imgs.push((dest_url.clone(), title.clone()));
            proof {
                assert(pairs_model(imgs@) =~= pairs_model(old(imgs)@).push((dest_url@, title@)));
            }
            let mut frame: Vec<Inline> = Vec::new();
            std::mem::swap(&mut frame, top);
            saved.push(frame);
        },
        MdEvent::End(MdTagEnd::Strong) | MdEvent::End(MdTagEnd::Emphasis) | MdEvent::End(
            MdTagEnd::Link,
        ) | MdEvent::End(MdTagEnd::Image) => {
            if saved.len() == 0 {
                return;
            }
            let ghost old_saved = saved@;
            let mut child = saved.pop().unwrap();
            std::mem::swap(&mut child, top);
            proof {
                assert(old_saved.drop_last() =~= saved@);
                assert(cells_model(old_saved) == cells_model(saved@).push(inlines_model(top@)));
            }
            let x = match e {
                MdEvent::End(MdTagEnd::Strong) => Inline::Strong(child),
                MdEvent::End(MdTagEnd::Emphasis) => Inline::Em(child),
                MdEvent::End(MdTagEnd::Link) => {
                    let ghost old_links = links@;
                    let (href, title) = match links.pop() {
                        Some(p) => p,
                        None => empty_pair(),
                    };
                    proof {
                        if old_links.len() > 0 {
                            assert(pairs_model(links@) =~= pairs_model(old_links).drop_last());
                        }
                    }
                    Inline::Link { href, title, children: child }
                },
                _ => {
                    let alt = inlines_to_plain_text(&child);
                    let ghost old_imgs = imgs@;
                    let (src, title) = match imgs.pop() {
                        Some(p) => p,
                        None => empty_pair(),
                    };
                    proof {
                        if old_imgs.len() > 0 {
                            assert(pairs_model(imgs@) =~= pairs_model(old_imgs).drop_last());
                        }
                    }
                    Inline::Image { src, alt, title }
                },
            };
            top.push(x);
        },
        _ => {},
    }
}

/// Collects inlines from `pos` up to the event `End(end)`; returns them with
/// the position of that event (the number of events when there is none).
pub fn collect_inlines(ev: &Vec<MdEvent>, pos: usize, end: MdTagEnd) -> (r: (Vec<Inline>, usize))
    requires
        pos <= ev@.len(),
    ensures
        collect_inlines_spec(events_model(ev@), pos as int, end) == (inlines_model(r.0@), r.1 as int),
        pos <= r.1 <= ev@.len(),
{
    let ghost em = events_model(ev@);
    let mut saved: Vec<Vec<Inline>> = Vec::new();
    let mut top: Vec<Inline> = Vec::new();
    let mut links: Vec<(String, String)> = Vec::new();
    let mut imgs: Vec<(String, String)> = Vec::new();
    let mut i = pos;
    proof {
        assert(state_model(saved@, top@, links@, imgs@) =~= init_state());
    }
    while i < ev.len()
        invariant
            em == events_model(ev@),
            pos <= i <= ev@.len(),
            collect_inlines_spec(em, pos as int, end) == collect_inlines_from(
                em,
                i as int,
                end,
                state_model(saved@, top@, links@, imgs@),
            ),
        decreases ev@.len() - i,
    {
        if let MdEvent::End(t) = &ev[i] {
            if *t == end {
                return (top, i);
            }
        }
        inline_step_exec(&mut saved, &mut top, &mut links, &mut imgs, &ev[i]);
        i = i + 1;
    }
    (top, ev.len())
}

/// Collects loose inline content from `pos` up to the next run break.
fn inline_run(ev: &Vec<MdEvent>, pos: usize) -> (r: (Vec<Inline>, usize))
    requires
        pos <= ev@.len(),
    ensures
        inline_run_from(events_model(ev@), pos as int, init_state()) == (
            inlines_model(r.0@),
            r.1 as int,
        ),
        pos <= r.1 <= ev@.len(),
{
    let ghost em = events_model(ev@);
    let mut saved: Vec<Vec<Inline>> = Vec::new();
    let mut top: Vec<Inline> = Vec::new();
    let mut links: Vec<(String, String)> = Vec::new();
    let mut imgs: Vec<(String, String)> = Vec::new();
    let mut i = pos;
    proof {
        assert(state_model(saved@, top@, links@, imgs@) =~= init_state());
    }
    while i < ev.len()
        invariant
            em == events_model(ev@),
            pos <= i <= ev@.len(),
            inline_run_from(em, pos as int, init_state()) == inline_run_from(
                em,
                i as int,
                state_model(saved@, top@, links@, imgs@),
            ),
        decreases ev@.len() - i,
    {
        if is_run_break_exec(&ev[i]) {
            return (top, i);
        }
        inline_step_exec(&mut saved, &mut top, &mut links, &mut imgs, &ev[i]);
        i = i + 1;
    }
    (top, ev.len())
}

fn is_run_break_exec(e: &MdEvent) -> (b: bool)
    ensures
        b == is_run_break(e.model()),
{
    match e {
        MdEvent::Start(MdTag::Paragraph) | MdEvent::Start(MdTag::Heading(_)) | MdEvent::Start(
            MdTag::List(_),
        ) | MdEvent::Start(MdTag::BlockQuote) | MdEvent::Start(MdTag::CodeBlock(_))
        | MdEvent::Start(MdTag::Table) | MdEvent::Rule => true,
        MdEvent::End(MdTagEnd::Strong) | MdEvent::End(MdTagEnd::Emphasis) | MdEvent::End(
            MdTagEnd::Link,
        ) | MdEvent::End(MdTagEnd::Image) => false,
        MdEvent::End(_) => true,
        _ => false,
    }
}

/// Promote a soft break to a hard break when it immediately precedes a link.
pub fn normalize_breaks(inlines: Vec<Inline>) -> (r: Vec<Inline>)
    ensures
        inlines_model(r@) == normalize_breaks_spec(inlines_model(inlines@)),
{
    let ghost m = inlines_model(inlines@);
    let n = inlines.len();
    let mut src = inlines;
    let mut rev: Vec<Inline> = Vec::new();
    // Take the inlines off the end so each one can be moved, not copied.
    while src.len() > 0
        invariant
            src@.len() + rev@.len() == n,
            m == inlines_model(src@) + rev_models(rev@),
            n == m.len(),
        decreases src@.len(),
    {
        let ghost before = src@;
        let ghost old_rev = rev@;
        let x = src.pop().unwrap();
        proof {
            assert(before =~= src@.push(x));
            crate::domain::lemma_inlines_model_push(src@, x);
            lemma_rev_models_push(old_rev, x);
            assert(inlines_model(src@).push(x.model()) + rev_models(old_rev) =~= inlines_model(src@)
                + (seq![x.model()] + rev_models(old_rev)));
        }
        rev.push(x);
    }
    assert(inlines_model(src@) =~= Seq::<InlineM>::empty());
    let mut out: Vec<Inline> = Vec::new();
    while rev.len() > 0
        invariant
            out@.len() + rev@.len() == n,
            n == m.len(),
            inlines_model(out@) == normalize_breaks_spec(m).take(out@.len() as int),
            m.subrange(out@.len() as int, n as int) == rev_models(rev@),
        decreases rev@.len(),
    {
        let ghost k = out@.len() as int;
        let ghost before = rev@;
        let x = rev.pop().unwrap();
        proof {
            assert(before.drop_last() =~= rev@);
            lemma_rev_models_push(rev@, x);
            lemma_rev_models_len(rev@);
            assert(m[k] == x.model()) by {
                assert(m.subrange(k, n as int)[0] == rev_models(before)[0]);
            }
            assert(m.subrange(k + 1, n as int) =~= rev_models(rev@)) by {
                assert(rev_models(before) =~= seq![x.model()] + rev_models(rev@));
                assert(m.subrange(k + 1, n as int) =~= m.subrange(k, n as int).drop_first());
            }
        }
        let next_is_link = match rev.last() {
            Some(Inline::Link { .. }) => true,
            _ => false,
        };
        proof {
            if rev@.len() > 0 {
                lemma_rev_models_len(rev@);
                assert(m[k + 1] == m.subrange(k + 1, n as int)[0]);
                lemma_rev_models_first(rev@);
            }
        }
        let y = match x {
            Inline::SoftBreak => if next_is_link {
                Inline::HardBreak
            } else {
                Inline::SoftBreak
            },
            other => other,
        };
        out.push(y);
        proof {
            assert(inlines_model(out@) =~= normalize_breaks_spec(m).take(out@.len() as int));
        }
    }
    assert(normalize_breaks_spec(m).take(n as int) =~= normalize_breaks_spec(m));
    out
}

/// Models of a vector used as a stack: the last element comes first.
pub open spec fn rev_models(s: Seq<Inline>) -> Seq<InlineM>
    decreases s.len(),
{
    if s.len() == 0 {
        seq![]
    } else {
        seq![s.last().model()] + rev_models(s.drop_last())
    }
}

proof fn lemma_rev_models_push(s: Seq<Inline>, x: Inline)
    ensures
        rev_models(s.push(x)) == seq![x.model()] + rev_models(s),
{
    assert(s.push(x).drop_last() =~= s);
}

proof fn lemma_rev_models_len(s: Seq<Inline>)
    ensures
        rev_models(s).len() == s.len(),
    decreases s.len(),
{
    if s.len() > 0 {
        lemma_rev_models_len(s.drop_last());
    }
}

proof fn lemma_rev_models_first(s: Seq<Inline>)
    requires
        s.len() > 0,
    ensures
        rev_models(s)[0] == s.last().model(),
{
}

// ── Block executable ─────────────────────────────────────────────────────────

pub open spec fn opt_block_model(b: Option<Block>) -> Option<BlockM> {
    match b {
        Some(x) => Some(x.model()),
        None => None,
    }
}

fn next_after_exec(e: usize, len: usize) -> (r: usize)
    requires
        e <= len,
    ensures
        r == next_after(e as int, len as int),
        r <= len,
{
    if e < len && e + 1 < len {
        e + 1
    } else {
        len
    }
}

fn step_to_exec(pos: usize, next: usize, len: usize) -> (r: usize)
    requires
        pos < len,
    ensures
        r == step_to(pos as int, next as int, len as int),
        pos < r <= len,
{
    if next <= pos {
        pos + 1
    } else if next > len {
        len
    } else {
        next
    }
}

/// The slot name of an `<!-- ad: slot -->` comment.
pub fn parse_ad_comment(html: &str) -> (r: Option<String>)
    ensures
        r matches Some(s) ==> ad_slot(html@) == Some(s@),
        r is None ==> ad_slot(html@) is None,
{
    let v = chars_of(html);
    let n = v.len();
    proof {
        assert(v@.subrange(0, n as int) =~= html@);
    }
    let (a, b) = trim_bounds(&v, 0, n);
    let ghost t = v@.subrange(a as int, b as int);
    let open_c = vec!['<', '!', '-', '-'];
    if b - a < 4 || !crate::text::range_eq(&v, a, a + 4, &open_c) {
        proof {
            if b - a >= 4 {
                assert(t.subrange(0, 4) =~= v@.subrange(a as int, a + 4));
            }
        }
        return None;
    }
    proof {
        assert(t.subrange(0, 4) =~= v@.subrange(a as int, a + 4));
        assert(t.skip(4) =~= v@.subrange(a + 4, b as int));
    }
    let ghost rest = v@.subrange(a + 4, b as int);
    let close_c = vec!['-', '-', '>'];
    if b - (a + 4) < 3 || !crate::text::range_eq(&v, b - 3, b, &close_c) {
        proof {
            if b - (a + 4) >= 3 {
                assert(rest.subrange(rest.len() - 3, rest.len() as int) =~= v@.subrange(
                    b - 3,
                    b as int,
                ));
            }
        }
        return None;
    }
    proof {
        assert(rest.subrange(rest.len() - 3, rest.len() as int) =~= v@.subrange(b - 3, b as int));
        assert(rest.take(rest.len() - 3) =~= v@.subrange(a + 4, b - 3));
    }
    let (x, y) = trim_bounds(&v, a + 4, b - 3);
    let ghost inner = v@.subrange(x as int, y as int);
    let ad_c = vec!['a', 'd', ':'];
    if y - x < 3 || !crate::text::range_eq(&v, x, x + 3, &ad_c) {
        proof {
            if y - x >= 3 {
                assert(inner.subrange(0, 3) =~= v@.subrange(x as int, x + 3));
            }
        }
        return None;
    }
    proof {
        assert(inner.subrange(0, 3) =~= v@.subrange(x as int, x + 3));
        assert(inner.skip(3) =~= v@.subrange(x + 3, y as int));
    }
    let (p, q) = trim_bounds(&v, x + 3, y);
    Some(string_of(&v, p, q))
}

pub open spec fn table_model(
    headers: Seq<Vec<Inline>>,
    rows: Seq<Vec<Vec<Inline>>>,
    in_head: bool,
    row: Seq<Vec<Inline>>,
) -> TableState {
    TableState {
        headers: cells_model(headers),
        rows: rows_model(rows),
        in_head,
        row: cells_model(row),
    }
}

/// Collects a table from `pos` up to its end event.
fn collect_table(ev: &Vec<MdEvent>, pos: usize) -> (r: (Block, usize))
    requires
        pos <= ev@.len(),
    ensures
        table_from(events_model(ev@), pos as int, init_table()) == (r.0.model(), r.1 as int),
        r.1 <= ev@.len(),
{
    let ghost em = events_model(ev@);
    let len = ev.len();
    let mut headers: Vec<Vec<Inline>> = Vec::new();
    let mut rows: Vec<Vec<Vec<Inline>>> = Vec::new();
    let mut in_head = false;
    let mut row: Vec<Vec<Inline>> = Vec::new();
    let mut i = pos;
    proof {
        assert(table_model(headers@, rows@, in_head, row@) =~= init_table());
    }
    while i < len
        invariant
            em == events_model(ev@),
            len == ev@.len(),
            pos <= i <= len,
            table_from(em, pos as int, init_table()) == table_from(
                em,
                i as int,
                table_model(headers@, rows@, in_head, row@),
            ),
        decreases len - i,
    {
        let ghost st = table_model(headers@, rows@, in_head, row@);
        match &ev[i] {
            MdEvent::End(MdTagEnd::Table) => {
                return (Block::Table { headers, rows }, i);
            },
            MdEvent::Start(MdTag::TableHead) => {
                in_head = true;
                row = Vec::new();
                i = i + 1;
            },
            MdEvent::End(MdTagEnd::TableHead) => {
                headers = Vec::new();
                std::mem::swap(&mut headers, &mut row);
                in_head = false;
                i = i + 1;
            },
            MdEvent::Start(MdTag::TableRow) => {
                row = Vec::new();
                i = i + 1;
            },
            MdEvent::End(MdTagEnd::TableRow) => {
                if !in_head {
                    let mut finished: Vec<Vec<Inline>> = Vec::new();
                    std::mem::swap(&mut finished, &mut row);
                    rows.push(finished);
                }
                i = i + 1;
            },
            MdEvent::Start(MdTag::TableCell) => {
                let (cell, e) = collect_inlines(ev, i + 1, MdTagEnd::TableCell);
                row.push(cell);
                i = step_to_exec(i, next_after_exec(e, len), len);
            },
            _ => {
                i = i + 1;
            },
        }
        proof {
            assert(table_model(headers@, rows@, in_head, row@) =~= table_model(
                headers@,
                rows@,
                in_head,
                row@,
            ));
        }
    }
    (Block::Table { headers, rows }, len)
}

/// The text of a code block from `pos` up to its end event.
fn collect_code_text(ev: &Vec<MdEvent>, pos: usize) -> (r: (String, usize))
    requires
        pos <= ev@.len(),
    ensures
        code_text_from(events_model(ev@), pos as int, seq![]) == (r.0@, r.1 as int),
        r.1 <= ev@.len(),
{
    let ghost em = events_model(ev@);
    let mut code = String::new();
    let mut i = pos;
    while i < ev.len()
        invariant
            em == events_model(ev@),
            pos <= i <= ev@.len(),
            code_text_from(em, pos as int, seq![]) == code_text_from(em, i as int, code@),
        decreases ev@.len() - i,
    {
        match &ev[i] {
            MdEvent::End(MdTagEnd::CodeBlock) => {
                return (code, i);
            },
            MdEvent::Text(t) => {
                code.append(t.as_str());
            },
            _ => {},
        }
        i = i + 1;
    }
    (code, ev.len())
}

fn paragraph_of(inl: Vec<Inline>) -> (r: Option<Block>)
    ensures
        opt_block_model(r) == paragraph_spec(inlines_model(inl@)),
{
    let n = normalize_breaks(inl);
    if n.len() == 0 {
        None
    } else {
        Some(Block::Paragraph(n))
    }
}

/// Parse one block-level element starting at `pos`; returns it (if the events
/// there make one) with the position after it.
pub fn parse_block(ev: &Vec<MdEvent>, pos: usize) -> (r: (Option<Block>, usize))
    requires
        pos < ev@.len(),
    ensures
        parse_block_spec(events_model(ev@), pos as int) == (opt_block_model(r.0), r.1 as int),
        r.1 <= ev@.len(),
    decreases ev@.len() - pos, 0int,
{
    let ghost em = events_model(ev@);
    let len = ev.len();
    match &ev[pos] {
        MdEvent::Start(MdTag::Paragraph) => {
            let (inl, e) = collect_inlines(ev, pos + 1, MdTagEnd::Paragraph);
            (paragraph_of(inl), next_after_exec(e, len))
        },
        MdEvent::Html(h) | MdEvent::InlineHtml(h) => {
            let b = match parse_ad_comment(h.as_str()) {
                Some(slot) => Some(Block::Ad(slot)),
                None => None,
            };
            (b, pos + 1)
        },
        MdEvent::Start(MdTag::List(first)) => {
            let ordered = first.is_some();
            let (items, e) = list_items(ev, pos + 1);
            (Some(Block::List { ordered, items }), next_after_exec(e, len))
        },
        MdEvent::Start(MdTag::Table) => {
            let (t, e) = collect_table(ev, pos + 1);
            (Some(t), next_after_exec(e, len))
        },
        MdEvent::Start(MdTag::BlockQuote) => {
            let (bs, e) = block_children(ev, pos + 1, MdTagEnd::BlockQuote);
            (Some(Block::BlockQuote(bs)), next_after_exec(e, len))
        },
        MdEvent::Start(MdTag::CodeBlock(kind)) => {
            let lang = match kind {
                Some(l) => l.clone(),
                None => String::new(),
            };
            let (code, e) = collect_code_text(ev, pos + 1);
            (Some(Block::CodeBlock { lang, code }), next_after_exec(e, len))
        },
        MdEvent::Rule => (Some(Block::Rule), pos + 1),
        MdEvent::Text(_) | MdEvent::Code(_) | MdEvent::SoftBreak | MdEvent::HardBreak
        | MdEvent::Start(MdTag::Strong) | MdEvent::Start(MdTag::Emphasis) | MdEvent::Start(
            MdTag::Link { .. },
        ) | MdEvent::Start(MdTag::Image { .. }) => {
            let (inl, e) = inline_run(ev, pos);
            (paragraph_of(inl), e)
        },
        _ => (None, pos + 1),
    }
}

/// Collects blocks from `pos` up to the event `End(end)`.
fn block_children(ev: &Vec<MdEvent>, pos: usize, end: MdTagEnd) -> (r: (Vec<Block>, usize))
    requires
        pos <= ev@.len(),
    ensures
        block_children_from(events_model(ev@), pos as int, end, seq![]) == (
            blocks_model(r.0@),
            r.1 as int,
        ),
        r.1 <= ev@.len(),
    decreases ev@.len() - pos, 1int,
{
    let ghost em = events_model(ev@);
    let len = ev.len();
    let mut blocks: Vec<Block> = Vec::new();
    let mut i = pos;
    while i < len
        invariant
            em == events_model(ev@),
            len == ev@.len(),
            pos <= i <= len,
            block_children_from(em, pos as int, end, seq![]) == block_children_from(
                em,
                i as int,
                end,
                blocks_model(blocks@),
            ),
        decreases len - i,
    {
        if let MdEvent::End(t) = &ev[i] {
            if *t == end {
                return (blocks, i);
            }
        }
        let (b, next) = parse_block(ev, i);
        if let Some(x) = b {
            blocks.push(x);
        }
        i = step_to_exec(i, next, len);
    }
    (blocks, len)
}

/// Collects list items from `pos` up to the list's end event.
fn list_items(ev: &Vec<MdEvent>, pos: usize) -> (r: (Vec<ListItem>, usize))
    requires
        pos <= ev@.len(),
    ensures
        list_items_from(events_model(ev@), pos as int, seq![]) == (items_model(r.0@), r.1 as int),
        r.1 <= ev@.len(),
    decreases ev@.len() - pos, 0int,
{
    let ghost em = events_model(ev@);
    let len = ev.len();
    let mut items: Vec<ListItem> = Vec::new();
    let mut i = pos;
    while i < len
        invariant
            em == events_model(ev@),
            len == ev@.len(),
            pos <= i <= len,
            list_items_from(em, pos as int, seq![]) == list_items_from(
                em,
                i as int,
                items_model(items@),
            ),
        decreases len - i,
    {
        match &ev[i] {
            MdEvent::End(MdTagEnd::List(_)) => {
                return (items, i);
            },
            MdEvent::Start(MdTag::Item) => {
                let (blocks, e) = block_children(ev, i + 1, MdTagEnd::Item);
                items.push(ListItem { blocks });
                i = step_to_exec(i, next_after_exec(e, len), len);
            },
            _ => {
                i = i + 1;
            },
        }
    }
    (items, len)
}

// ── Body and article ─────────────────────────────────────────────────────────

/// Title and sections of an event stream.
pub fn parse_events(ev: &Vec<MdEvent>) -> (r: (String, Vec<Section>))
    ensures
        parse_body_spec(events_model(ev@)) == (r.0@, sections_model(r.1@)),
{
    let ghost em = events_model(ev@);
    let len = ev.len();
    let mut title = String::new();
    let mut done: Vec<Section> = Vec::new();
    let mut cur_heading: Option<Heading> = None;
    let mut cur_blocks: Vec<Block> = Vec::new();
    let mut i: usize = 0;
    proof {
        assert(Section { heading: cur_heading, blocks: cur_blocks }.model() =~= SectionM {
            heading: None,
            blocks: seq![],
        });
    }
    while i < len
        invariant
            em == events_model(ev@),
            len == ev@.len(),
            i <= len,
            parse_body_spec(em) == body_from(
                em,
                i as int,
                title@,
                sections_model(done@),
                Section { heading: cur_heading, blocks: cur_blocks }.model(),
            ),
        decreases len - i,
    {
        match &ev[i] {
            MdEvent::Start(MdTag::Heading(level)) => {
                let level = *level;
                let (inl, e) = collect_inlines(ev, i + 1, MdTagEnd::Heading(level));
                let text = inlines_to_plain_text(&inl);
                let np = step_to_exec(i, next_after_exec(e, len), len);
                if level == 1 {
                    if title.as_str().is_empty() {
                        title = text;
                    }
                } else {
                    let mut prev_blocks: Vec<Block> = Vec::new();
                    std::mem::swap(&mut prev_blocks, &mut cur_blocks);
                    let prev = Section { heading: cur_heading, blocks: prev_blocks };
                    done.push(prev);
                    let id = slugify(text.as_str());
                    cur_heading = Some(Heading { level, id, text });
                    proof {
                        assert(Section { heading: cur_heading, blocks: cur_blocks }.model()
                            =~= SectionM {
                            heading: Some(
                                HeadingM {
                                    level,
                                    id: slugify_spec(plain_text(inlines_model(inl@))),
                                    text: plain_text(inlines_model(inl@)),
                                },
                            ),
                            blocks: seq![],
                        });
                    }
                }
                i = np;
            },
            _ => {
                let (b, next) = parse_block(ev, i);
                let ghost old_blocks = cur_blocks@;
                if let Some(x) = b {
                    cur_blocks.push(x);
                }
                proof {
                    assert(blocks_model(cur_blocks@) == push_opt(
                        blocks_model(old_blocks),
                        opt_block_model(b),
                    ));
                }
                i = step_to_exec(i, next, len);
            },
        }
    }
    done.push(Section { heading: cur_heading, blocks: cur_blocks });
    let ghost all = done@;
    if done[0].heading.is_none() && done[0].blocks.len() == 0 {
        proof {
            crate::domain::lemma_sections_model_index(all, 0);
            crate::domain::lemma_blocks_model_len(all[0].blocks@);
        }
        done.remove(0);
        proof {
            lemma_sections_model_drop_first(all);
        }
    } else {
        proof {
            crate::domain::lemma_sections_model_index(all, 0);
            crate::domain::lemma_blocks_model_len(all[0].blocks@);
        }
    }
    (title, done)
}

proof fn lemma_sections_model_drop_first(s: Seq<Section>)
    requires
        s.len() > 0,
    ensures
        sections_model(s.drop_first()) == sections_model(s).drop_first(),
    decreases s.len(),
{
    crate::domain::lemma_sections_model_len(s);
    if s.len() > 1 {
        lemma_sections_model_drop_first(s.drop_last());
        assert(s.drop_first().drop_last() =~= s.drop_last().drop_first());
        crate::domain::lemma_sections_model_len(s.drop_last());
        assert(sections_model(s).drop_first() =~= sections_model(s.drop_last()).drop_first().push(
            s.last().model(),
        ));
    } else {
        assert(s.drop_first() =~= Seq::<Section>::empty());
        assert(sections_model(s).drop_first() =~= Seq::<SectionM>::empty());
    }
}

/// The option bits the article body is parsed with: tables, strikethrough and
/// smart punctuation.
pub open spec fn body_options() -> u32 {
    ENABLE_TABLES | ENABLE_STRIKETHROUGH | ENABLE_SMART_PUNCTUATION
}

/// Title and sections of a Markdown body.
pub fn parse_body(body: &str) -> (r: (String, Vec<Section>))
    ensures
        parse_body_spec(markdown_events(body@, body_options())) == (r.0@, sections_model(r.1@)),
        well_shaped_sections(sections_model(r.1@)),
{
    let ev = parse_markdown(body, ENABLE_TABLES | ENABLE_STRIKETHROUGH | ENABLE_SMART_PUNCTUATION);
    proof {
        lemma_body_sections_well_shaped(
            events_model(ev@),
            0,
            seq![],
            seq![],
            SectionM { heading: None, blocks: seq![] },
        );
    }
    parse_events(&ev)
}

/// The title (text of the first level-1 heading) of an event stream.
pub fn title_of_events(ev: &Vec<MdEvent>) -> (r: String)
    ensures
        r@ == title_from(events_model(ev@), 0, false, seq![]),
{
    let ghost em = events_model(ev@);
    let mut in_h1 = false;
    let mut title = String::new();
    let mut i: usize = 0;
    while i < ev.len()
        invariant
            em == events_model(ev@),
            i <= ev@.len(),
            title_from(em, 0, false, seq![]) == title_from(em, i as int, in_h1, title@),
        decreases ev@.len() - i,
    {
        match &ev[i] {
            MdEvent::Start(MdTag::Heading(1)) => {
                in_h1 = true;
            },
            MdEvent::End(MdTagEnd::Heading(_)) => {
                if in_h1 {
                    return title;
                }
            },
            MdEvent::Text(t) => {
                if in_h1 {
                    title.append(t.as_str());
                }
            },
            _ => {},
        }
        i = i + 1;
    }
    title
}

/// Cheap scan: the title (first H1) of a Markdown body, parsed without
/// extensions.
pub fn extract_title(body: &str) -> (r: String)
    ensures
        r@ == title_from(markdown_events(body@, 0), 0, false, seq![]),
{
    let ev = parse_markdown(body, 0);
    title_of_events(&ev)
}

/// Why a raw article was refused.
#[derive(Debug, PartialEq, Eq, Structural)]
pub enum ArticleError {
    /// The text is empty or only white space.
    Empty,
    /// More than 30% of the first 256 bytes are control characters.
    Binary,
    /// No level-1 heading gives a title.
    NoTitle,
}

pub open spec fn or_empty(v: Option<Seq<char>>) -> Seq<char> {
    match v {
        Some(s) => s,
        None => seq![],
    }
}

/// A byte that marks binary content: a control code other than tab, line
/// feed, vertical tab, form feed and carriage return.
pub open spec fn is_control_byte(b: u8) -> bool {
    b < 0x09 || (0x0d < b && b < 0x20) || b == 0x7f
}

/// How many control bytes `bytes` holds.
pub open spec fn control_count(bytes: Seq<u8>) -> nat
    decreases bytes.len(),
{
    if bytes.len() == 0 {
        0
    } else {
        control_count(bytes.drop_last()) + if is_control_byte(bytes.last()) {
            1nat
        } else {
            0nat
        }
    }
}

/// The bytes that the binary check looks at: the first 256, or all of them
/// when there are fewer.
pub open spec fn binary_sample(bytes: Seq<u8>) -> Seq<u8> {
    if bytes.len() < 256 {
        bytes
    } else {
        bytes.take(256)
    }
}

/// More than 30% of the sampled bytes are control bytes.
pub open spec fn binary_prefix(bytes: Seq<u8>) -> bool {
    10 * control_count(binary_sample(bytes)) > 3 * binary_sample(bytes).len()
}

/// The article a raw text holds: front-matter fields (empty when absent), the
/// body's title and sections, and the slug from front matter or, failing
/// that, from the title. Refused when the trimmed text is empty, when it
/// starts with binary content, or when its body has no title, checked in that
/// order; accepted otherwise.
pub open spec fn parse_article_spec(raw: Seq<char>) -> Result<ArticleM, ArticleError> {
    let (front, body) = split_spec(raw);
    let (title, sections) = parse_body_spec(markdown_events(body, body_options()));
    if trim_ws(raw).len() == 0 {
        Err(ArticleError::Empty)
    } else if binary_prefix(encode_utf8(trim_ws(raw))) {
        Err(ArticleError::Binary)
    } else if title.len() == 0 {
        Err(ArticleError::NoTitle)
    } else {
        let slug_fm = or_empty(value_spec(front, "slug"@));
        Ok(
            ArticleM {
                title,
                slug: if slug_fm.len() == 0 {
                    slugify_spec(title)
                } else {
                    slug_fm
                },
                author: or_empty(value_spec(front, "author"@)),
                published: or_empty(value_spec(front, "published"@)),
                description: or_empty(value_spec(front, "description"@)),
                keywords: or_empty(value_spec(front, "keywords"@)),
                cover: or_empty(value_spec(front, "cover"@)),
                og_title: or_empty(value_spec(front, "og_title"@)),
                category: or_empty(value_spec(front, "category"@)),
                tags: or_empty(value_spec(front, "tags"@)),
                reading_time: or_empty(value_spec(front, "reading_time"@)),
                featured: value_spec(front, "featured"@) == Some(seq!['t', 'r', 'u', 'e']),
                sections,
            },
        )
    }
}

fn value_or_empty(front: &str, key: &str) -> (r: String)
    ensures
        r@ == or_empty(value_spec(front@, key@)),
{
    match value(front, key) {
        Some(v) => v,
        None => String::new(),
    }
}

/// Whether more than 30% of the first 256 bytes of `t` are control bytes.
fn starts_binary(t: &str) -> (b: bool)
    ensures
        b == binary_prefix(encode_utf8(t@)),
{
    let bytes = t.as_bytes();
    let n = if bytes.len() < 256 {
        bytes.len()
    } else {
        256
    };
    let mut count: usize = 0;
    let mut k: usize = 0;
    while k < n
        invariant
            bytes@ == encode_utf8(t@),
            n <= bytes@.len(),
            n <= 256,
            n == bytes@.len() || n == 256,
            k <= n,
            count <= k,
            count == control_count(bytes@.take(k as int)),
        decreases n - k,
    {
        let c = bytes[k];
        proof {
            assert(bytes@.take(k + 1).drop_last() =~= bytes@.take(k as int));
        }
        if c < 0x09 || (0x0d < c && c < 0x20) || c == 0x7f {
            count = count + 1;
        }
        k = k + 1;
    }
    proof {
        assert(binary_sample(bytes@) =~= bytes@.take(n as int));
    }
    10 * count > 3 * n
}

/// Parse a complete raw article (optional front matter, then Markdown).
pub fn parse_article(raw: &str) -> (r: Result<Article, ArticleError>)
    ensures
        r matches Ok(a) ==> parse_article_spec(raw@) == Ok::<ArticleM, ArticleError>(a.model()),
        r matches Err(e) ==> parse_article_spec(raw@) == Err::<ArticleM, ArticleError>(e),
        r matches Ok(a) ==> well_shaped_sections(a.model().sections),
{
    let (front, body) = split(raw);
    let slug_fm = value_or_empty(front, "slug");
    let author = value_or_empty(front, "author");
    let published = value_or_empty(front, "published");
    let description = value_or_empty(front, "description");
    let keywords = value_or_empty(front, "keywords");
    let cover = value_or_empty(front, "cover");
    let og_title = value_or_empty(front, "og_title");
    let category = value_or_empty(front, "category");
    let tags = value_or_empty(front, "tags");
    let reading_time = value_or_empty(front, "reading_time");
    let featured = match value(front, "featured") {
        Some(v) => {
            let cs = chars_of(v.as_str());
            let t = vec!['t', 'r', 'u', 'e'];
            let b = crate::text::range_eq(&cs, 0, cs.len(), &t);
            proof {
                assert(cs@.subrange(0, cs@.len() as int) =~= v@);
                assert(t@ =~= seq!['t', 'r', 'u', 'e']);
            }
            b
        },
        None => false,
    };
    let (title, sections) = parse_body(body);
    let v = chars_of(raw);
    let n = v.len();
    let (a, b) = trim_bounds(&v, 0, n);
    proof {
        assert(v@.subrange(0, n as int) =~= raw@);
    }
    if a == b {
        return Err(ArticleError::Empty);
    }
    let trimmed = raw.substring_char(a, b);
    if starts_binary(trimmed) {
        return Err(ArticleError::Binary);
    }
    if title.as_str().is_empty() {
        return Err(ArticleError::NoTitle);
    }
    let slug = if slug_fm.as_str().is_empty() {
        slugify(title.as_str())
    } else {
        slug_fm
    };
    Ok(
        Article {
            title,
            slug,
            author,
            published,
            description,
            keywords,
            cover,
            og_title,
            category,
            tags,
            reading_time,
            featured,
            sections,
        },
    )
}

} // verus!
