//! Cheap metadata extraction from article files.
//!
//! These functions build `ArticleMeta` lists from the raw text of the content
//! directory's `.md` files without fully parsing every article. Full parsing
//! is deferred to `parser::parse_article` and only done for the article
//! actually being served. Reading the directory is the caller's part.

use vstd::prelude::*;

use crate::domain::{
    blocks_model, group_model_lemmas, lemma_blocks_model_index, lemma_sections_model_index,
    sections_model, Article, ArticleM, Block, BlockM, SectionM, StoryM,
};
use crate::repository::ArticleMeta;
use crate::server::handlers::{file_extension, path_extension};
use crate::repository::fs::front_matter::{split, split_spec, value, value_spec};
use crate::repository::fs::markdown::markdown_events;
use crate::repository::fs::parser::{extract_title, inlines_to_plain_text, plain_text, title_from};
use crate::repository::fs::slug::slug_key;
use crate::repository::fs::util::{slugify, slugify_spec};
use crate::text::{
    chars_of, lines, next_line, push_char, starts_with, string_of, trim_bounds, trim_ws,
};

verus! {

broadcast use group_model_lemmas;

// ── Spec ──────────────────────────────────────────────────────────────────────

/// `…`, appended to a shortened snippet.
pub open spec fn ellipsis() -> Seq<char> {
    seq!['\u{2026}']
}

/// Bytes taken by `c` in UTF-8.
pub open spec fn utf8_width(c: char) -> nat {
    let u = c as u32;
    if u < 0x80 {
        1
    } else if u < 0x800 {
        2
    } else if u < 0x10000 {
        3
    } else {
        4
    }
}

/// Bytes taken by `s` in UTF-8 (`str::len`).
pub open spec fn utf8_len(s: Seq<char>) -> nat
    decreases s.len(),
{
    if s.len() == 0 {
        0
    } else {
        utf8_len(s.drop_last()) + utf8_width(s.last())
    }
}

/// Emphasis and code markers, dropped from a snippet.
pub open spec fn is_markup(c: char) -> bool {
    c == '*' || c == '_' || c == '`'
}

/// `s` without its markup characters.
pub open spec fn strip_markup(s: Seq<char>) -> Seq<char>
    decreases s.len(),
{
    if s.len() == 0 {
        s
    } else if is_markup(s.last()) {
        strip_markup(s.drop_last())
    } else {
        strip_markup(s.drop_last()).push(s.last())
    }
}

/// A trimmed body line that holds no snippet text: empty, a heading, an HTML
/// comment or a front-matter fence.
pub open spec fn skipped_line(t: Seq<char>) -> bool {
    ||| t.len() == 0
    ||| starts_with(t, seq!['#'])
    ||| starts_with(t, seq!['<', '!', '-', '-'])
    ||| starts_with(t, seq!['+', '+', '+'])
}

/// `clean` when it has at most 120 characters; otherwise its first 120
/// characters followed by `…`.
pub open spec fn body_snippet_text(clean: Seq<char>) -> Seq<char> {
    if clean.len() > 120 {
        clean.take(120) + ellipsis()
    } else {
        clean
    }
}

/// The snippet of the remaining body lines; `past_h1` tells whether the H1
/// line has been seen.
pub open spec fn snippet_in_lines(ls: Seq<Seq<char>>, past_h1: bool) -> Seq<char>
    decreases ls.len(),
{
    if ls.len() == 0 {
        seq![]
    } else {
        let t = trim_ws(ls[0]);
        if !past_h1 {
            snippet_in_lines(ls.drop_first(), starts_with(t, seq!['#', ' ']))
        } else if skipped_line(t) {
            snippet_in_lines(ls.drop_first(), true)
        } else {
            let clean = trim_ws(strip_markup(t));
            if clean.len() == 0 {
                snippet_in_lines(ls.drop_first(), true)
            } else {
                body_snippet_text(clean)
            }
        }
    }
}

/// The first meaningful body line after the H1 line, markup removed.
pub open spec fn snippet_from_body_spec(body: Seq<char>) -> Seq<char> {
    snippet_in_lines(lines(body), false)
}

/// The trimmed plain text of a paragraph block, when it is not empty.
pub open spec fn para_text(b: BlockM) -> Option<Seq<char>> {
    match b {
        BlockM::Paragraph(inl) => if trim_ws(plain_text(inl)).len() > 0 {
            Some(trim_ws(plain_text(inl)))
        } else {
            None
        },
        _ => None,
    }
}

pub open spec fn first_para_in_blocks(bs: Seq<BlockM>) -> Option<Seq<char>>
    decreases bs.len(),
{
    if bs.len() == 0 {
        None
    } else {
        match para_text(bs[0]) {
            Some(t) => Some(t),
            None => first_para_in_blocks(bs.drop_first()),
        }
    }
}

/// The text of the first non-empty paragraph, sections and blocks taken in
/// order (paragraphs nested in lists or quotes are not looked at).
pub open spec fn first_para_in_sections(ss: Seq<SectionM>) -> Option<Seq<char>>
    decreases ss.len(),
{
    if ss.len() == 0 {
        None
    } else {
        match first_para_in_blocks(ss[0].blocks) {
            Some(t) => Some(t),
            None => first_para_in_sections(ss.drop_first()),
        }
    }
}

/// `t` when it is at most 120 bytes; otherwise its characters before the
/// 120th (before the last one, when it has fewer), followed by `…`.
pub open spec fn article_snippet_text(t: Seq<char>) -> Seq<char> {
    if utf8_len(t) > 120 {
        t.take((if t.len() < 120 { t.len() as int } else { 120 }) - 1) + ellipsis()
    } else {
        t
    }
}

pub open spec fn snippet_from_article_spec(a: ArticleM) -> Seq<char> {
    match first_para_in_sections(a.sections) {
        Some(t) => article_snippet_text(t),
        None => seq![],
    }
}

// ── Lemmas ────────────────────────────────────────────────────────────────────

proof fn lemma_utf8_len_prefix(s: Seq<char>, k: int)
    requires
        0 <= k <= s.len(),
    ensures
        utf8_len(s.take(k)) <= utf8_len(s),
    decreases s.len(),
{
    if k < s.len() {
        assert(s.take(k) =~= s.drop_last().take(k));
        lemma_utf8_len_prefix(s.drop_last(), k);
    } else {
        assert(s.take(k) =~= s);
    }
}

// ── Character helpers ─────────────────────────────────────────────────────────

/// Whether `v[lo..hi]` starts with `p`.
fn prefix_is(v: &Vec<char>, lo: usize, hi: usize, p: &Vec<char>) -> (b: bool)
    requires
        lo <= hi <= v@.len(),
    ensures
        b == starts_with(v@.subrange(lo as int, hi as int), p@),
{
    let ghost s = v@.subrange(lo as int, hi as int);
    if hi - lo < p.len() {
        return false;
    }
    let mut k: usize = 0;
    while k < p.len()
        invariant
            lo <= hi <= v@.len(),
            p@.len() <= hi - lo,
            s == v@.subrange(lo as int, hi as int),
            k <= p@.len(),
            forall|m: int| 0 <= m < k ==> v@[lo + m] == p@[m],
        decreases p@.len() - k,
    {
        if v[lo + k] != p[k] {
            assert(s.subrange(0, p@.len() as int)[k as int] != p@[k as int]);
            return false;
        }
        k = k + 1;
    }
    assert(s.subrange(0, p@.len() as int) =~= p@);
    true
}

fn utf8_width_of(c: char) -> (r: usize)
    ensures
        r == utf8_width(c),
{
    let u = c as u32;
    if u < 0x80 {
        1
    } else if u < 0x800 {
        2
    } else if u < 0x10000 {
        3
    } else {
        4
    }
}

/// Whether `v[lo..hi]` takes more than `limit` bytes in UTF-8.
fn utf8_exceeds(v: &Vec<char>, lo: usize, hi: usize, limit: usize) -> (b: bool)
    requires
        lo <= hi <= v@.len(),
        limit <= 1_000_000,
    ensures
        b == (utf8_len(v@.subrange(lo as int, hi as int)) > limit),
{
    let ghost s = v@.subrange(lo as int, hi as int);
    let mut acc: usize = 0;
    let mut i = lo;
    while i < hi
        invariant
            lo <= i <= hi <= v@.len(),
            limit <= 1_000_000,
            s == v@.subrange(lo as int, hi as int),
            acc == utf8_len(s.take(i - lo)),
            acc <= limit,
        decreases hi - i,
    {
        proof {
            assert(s.take(i - lo + 1).drop_last() =~= s.take(i - lo));
        }
        acc = acc + utf8_width_of(v[i]);
        i = i + 1;
        if acc > limit {
            proof {
                lemma_utf8_len_prefix(s, i - lo);
            }
            return true;
        }
    }
    assert(s.take(hi - lo) =~= s);
    false
}

/// `v[lo..hi]` without its markup characters.
fn strip_markup_range(v: &Vec<char>, lo: usize, hi: usize) -> (r: Vec<char>)
    requires
        lo <= hi <= v@.len(),
    ensures
        r@ == strip_markup(v@.subrange(lo as int, hi as int)),
{
    let ghost s = v@.subrange(lo as int, hi as int);
    let mut out: Vec<char> = Vec::new();
    let mut i = lo;
    while i < hi
        invariant
            lo <= i <= hi <= v@.len(),
            s == v@.subrange(lo as int, hi as int),
            out@ == strip_markup(s.take(i - lo)),
        decreases hi - i,
    {
        proof {
            assert(s.take(i - lo + 1).drop_last() =~= s.take(i - lo));
        }
        let c = v[i];
        if !(c == '*' || c == '_' || c == '`') {
            out.push(c);
        }
        i = i + 1;
    }
    assert(s.take(hi - lo) =~= s);
    out
}

// ── Snippet extraction ────────────────────────────────────────────────────────

/// A short preview of an article body: after the H1 line, the first line
/// that is not empty, a heading, a comment or a fence, with `*`, `_` and `` ` ``
/// removed and trimmed; shortened to its first 120 characters and `…` when it
/// has more than 120 characters. Empty when there is none.
pub fn snippet_from_body(body: &str) -> (r: String)
    ensures
        r@ == snippet_from_body_spec(body@),
{
    let v = chars_of(body);
    let n = v.len();
    let hash_space = vec!['#', ' '];
    let hash = vec!['#'];
    let comment = vec!['<', '!', '-', '-'];
    let fence = vec!['+', '+', '+'];
    let mut past_h1 = false;
    let mut p: usize = 0;
    assert(v@.subrange(0, n as int) =~= body@);
    while p < n
        invariant
            n == v@.len(),
            p <= n,
            v@ == body@,
            hash_space@ == seq!['#', ' '],
            hash@ == seq!['#'],
            comment@ == seq!['<', '!', '-', '-'],
            fence@ == seq!['+', '+', '+'],
            snippet_from_body_spec(body@) == snippet_in_lines(
                lines(v@.subrange(p as int, n as int)),
                past_h1,
            ),
        decreases n - p,
    {
        let (e, next) = next_line(&v, p, n);
        let (a, b) = trim_bounds(&v, p, e);
        let ghost ls = lines(v@.subrange(p as int, n as int));
        proof {
            assert(ls[0] == v@.subrange(p as int, e as int));
            assert(ls.drop_first() =~= lines(v@.subrange(next as int, n as int)));
        }
        if !past_h1 {
            past_h1 = prefix_is(&v, a, b, &hash_space);
        } else if a == b || prefix_is(&v, a, b, &hash) || prefix_is(&v, a, b, &comment)
            || prefix_is(&v, a, b, &fence) {
        } else {
            let w = strip_markup_range(&v, a, b);
            let (c0, c1) = trim_bounds(&w, 0, w.len());
            assert(w@.subrange(0, w@.len() as int) =~= w@);
            if c0 < c1 {
                if c1 - c0 > 120 {
                    let k = c0 + 120;
                    let mut s = string_of(&w, c0, k);
                    push_char(&mut s, '\u{2026}');
                    assert(w@.subrange(c0 as int, k as int) =~= w@.subrange(
                        c0 as int,
                        c1 as int,
                    ).take(k - c0));
                    return s;
                } else {
                    return string_of(&w, c0, c1);
                }
            }
        }
        p = next;
    }
    proof {
        assert(v@.subrange(n as int, n as int) =~= Seq::<char>::empty());
    }
    String::new()
}

/// The snippet of a trimmed paragraph text.
fn article_snippet(t: &String) -> (r: String)
    requires
        t@.len() > 0,
    ensures
        r@ == article_snippet_text(t@),
{
    let v = chars_of(t.as_str());
    let n = v.len();
    assert(v@.subrange(0, n as int) =~= v@);
    if utf8_exceeds(&v, 0, n, 120) {
        let k = if n < 120 {
            n
        } else {
            120
        };
        let mut s = string_of(&v, 0, k - 1);
        push_char(&mut s, '\u{2026}');
        assert(v@.subrange(0, k - 1) =~= v@.take(k - 1));
        s
    } else {
        t.clone()
    }
}

/// The text of a block, when it is a paragraph whose trimmed plain text is
/// not empty.
fn paragraph_text(b: &Block) -> (r: Option<String>)
    ensures
        r matches Some(s) ==> para_text(b.model()) == Some(s@),
        r is None ==> para_text(b.model()) is None,
{
    match b {
        Block::Paragraph(inlines) => {
            let text = inlines_to_plain_text(inlines);
            let v = chars_of(text.as_str());
            let (a, z) = trim_bounds(&v, 0, v.len());
            assert(v@.subrange(0, v@.len() as int) =~= v@);
            if a < z {
                Some(string_of(&v, a, z))
            } else {
                None
            }
        },
        _ => None,
    }
}

/// A snippet from a fully parsed article: the first non-empty paragraph's
/// trimmed plain text, shortened with `…` when it is longer than 120 bytes.
/// Empty when no paragraph has text.
pub fn snippet_from_article(article: &Article) -> (r: String)
    ensures
        r@ == snippet_from_article_spec(article.model()),
{
    let secs = &article.sections;
    let ghost sm = sections_model(secs@);
    let mut i: usize = 0;
    assert(sm.skip(0) =~= sm);
    while i < secs.len()
        invariant
            i <= secs@.len(),
            sm == sections_model(secs@),
            sm == article.model().sections,
            first_para_in_sections(sm) == first_para_in_sections(sm.skip(i as int)),
        decreases secs@.len() - i,
    {
        let blocks = &secs[i].blocks;
        let ghost bm = blocks_model(blocks@);
        proof {
            lemma_sections_model_index(secs@, i as int);
            assert(sm.skip(i as int)[0] == secs@[i as int].model());
            assert(sm.skip(i as int).drop_first() =~= sm.skip(i + 1));
            assert(bm.skip(0) =~= bm);
        }
        let mut j: usize = 0;
        while j < blocks.len()
            invariant
                j <= blocks@.len(),
                bm == blocks_model(blocks@),
                first_para_in_blocks(bm) == first_para_in_blocks(bm.skip(j as int)),
                sm == article.model().sections,
                i < sm.len(),
                sm.skip(i as int)[0].blocks == bm,
                first_para_in_sections(sm) == first_para_in_sections(sm.skip(i as int)),
            decreases blocks@.len() - j,
        {
            proof {
                lemma_blocks_model_index(blocks@, j as int);
                assert(bm.skip(j as int)[0] == blocks@[j as int].model());
                assert(bm.skip(j as int).drop_first() =~= bm.skip(j + 1));
            }
            match paragraph_text(&blocks[j]) {
                Some(t) => {
                    return article_snippet(&t);
                },
                None => {},
            }
            j = j + 1;
        }
        proof {
            assert(bm.skip(j as int) =~= Seq::<BlockM>::empty());
        }
        i = i + 1;
    }
    proof {
        assert(sm.skip(i as int) =~= Seq::<SectionM>::empty());
    }
    String::new()
}

// ── Scanning ──────────────────────────────────────────────────────────────────

/// Per-file descriptor built while scanning: the title and slug of one
/// article file, and the path it was read from.
#[derive(Debug)]
pub struct FileMeta {
    pub title: String,
    pub slug: String,
    pub path: String,
}

pub struct FileMetaM {
    pub title: Seq<char>,
    pub slug: Seq<char>,
    pub path: Seq<char>,
}

impl FileMeta {
    pub open spec fn model(&self) -> FileMetaM {
        FileMetaM { title: self.title@, slug: self.slug@, path: self.path@ }
    }
}

pub open spec fn metas_model(s: Seq<FileMeta>) -> Seq<FileMetaM> {
    s.map_values(|m: FileMeta| m.model())
}

/// The `(path, raw text)` pairs of the content directory's `.md` files.
pub open spec fn files_model(s: Seq<(String, String)>) -> Seq<(Seq<char>, Seq<char>)> {
    s.map_values(|f: (String, String)| (f.0@, f.1@))
}

/// `a` sorts at or before `b` in `str` order: by code point, a prefix first.
pub open spec fn chars_le(a: Seq<char>, b: Seq<char>) -> bool
    decreases a.len(),
{
    if a.len() == 0 {
        true
    } else if b.len() == 0 {
        false
    } else if a[0] != b[0] {
        a[0] < b[0]
    } else {
        chars_le(a.drop_first(), b.drop_first())
    }
}

/// The metadata of one file: its front-matter slug (the slug of its title
/// when that is empty) and its first H1 title; none when it has no title.
pub open spec fn file_meta_spec(path: Seq<char>, raw: Seq<char>) -> Option<FileMetaM> {
    let (front, body) = split_spec(raw);
    let slug = match value_spec(front, slug_key()) {
        Some(v) => v,
        None => seq![],
    };
    let title = title_from(markdown_events(body, 0), 0, false, seq![]);
    if title.len() == 0 {
        None
    } else {
        Some(
            FileMetaM {
                title,
                slug: if slug.len() == 0 {
                    slugify_spec(title)
                } else {
                    slug
                },
                path,
            },
        )
    }
}

/// The metadata of the files that have a title, in file order.
pub open spec fn metas_in_order(files: Seq<(Seq<char>, Seq<char>)>) -> Seq<FileMetaM>
    decreases files.len(),
{
    if files.len() == 0 {
        seq![]
    } else {
        match file_meta_spec(files.last().0, files.last().1) {
            Some(m) => metas_in_order(files.drop_last()).push(m),
            None => metas_in_order(files.drop_last()),
        }
    }
}

/// `x` placed after every entry whose slug sorts at or before its own.
pub open spec fn insert_by_slug(s: Seq<FileMetaM>, x: FileMetaM) -> Seq<FileMetaM>
    decreases s.len(),
{
    if s.len() == 0 {
        seq![x]
    } else if !chars_le(s[0].slug, x.slug) {
        seq![x] + s
    } else {
        seq![s[0]] + insert_by_slug(s.drop_first(), x)
    }
}

/// Stable sort by slug.
pub open spec fn sort_by_slug(s: Seq<FileMetaM>) -> Seq<FileMetaM>
    decreases s.len(),
{
    if s.len() == 0 {
        s
    } else {
        insert_by_slug(sort_by_slug(s.drop_last()), s.last())
    }
}

pub open spec fn sorted_by_slug(s: Seq<FileMetaM>) -> bool {
    forall|i: int, j: int| 0 <= i < j < s.len() ==> chars_le(s[i].slug, s[j].slug)
}

pub open spec fn scan_spec(files: Seq<(Seq<char>, Seq<char>)>) -> Seq<FileMetaM> {
    sort_by_slug(metas_in_order(files))
}

// ── Ordering laws ─────────────────────────────────────────────────────────────

proof fn lemma_chars_le_total(a: Seq<char>, b: Seq<char>)
    ensures
        chars_le(a, b) || chars_le(b, a),
    decreases a.len(),
{
    if a.len() > 0 && b.len() > 0 {
        if a[0] == b[0] {
            lemma_chars_le_total(a.drop_first(), b.drop_first());
        }
    }
}

proof fn lemma_chars_le_trans(a: Seq<char>, b: Seq<char>, c: Seq<char>)
    requires
        chars_le(a, b),
        chars_le(b, c),
    ensures
        chars_le(a, c),
    decreases a.len(),
{
    if a.len() > 0 && b.len() > 0 && c.len() > 0 && a[0] == b[0] && b[0] == c[0] {
        lemma_chars_le_trans(a.drop_first(), b.drop_first(), c.drop_first());
    }
}

proof fn lemma_insert_lower_bound(s: Seq<FileMetaM>, x: FileMetaM, y: Seq<char>)
    requires
        forall|k: int| 0 <= k < s.len() ==> chars_le(y, #[trigger] s[k].slug),
        chars_le(y, x.slug),
    ensures
        forall|k: int|
            0 <= k < insert_by_slug(s, x).len() ==> chars_le(y, #[trigger] insert_by_slug(s, x)[k].slug),
    decreases s.len(),
{
    if s.len() > 0 && chars_le(s[0].slug, x.slug) {
        lemma_insert_lower_bound(s.drop_first(), x, y);
        let r = insert_by_slug(s.drop_first(), x);
        assert forall|k: int| 0 <= k < insert_by_slug(s, x).len() implies chars_le(
            y,
            #[trigger] insert_by_slug(s, x)[k].slug,
        ) by {
            if k > 0 {
                assert(insert_by_slug(s, x)[k] == r[k - 1]);
            }
        }
    } else if s.len() > 0 {
        assert forall|k: int| 0 <= k < insert_by_slug(s, x).len() implies chars_le(
            y,
            #[trigger] insert_by_slug(s, x)[k].slug,
        ) by {
            if k > 0 {
                assert(insert_by_slug(s, x)[k] == s[k - 1]);
            }
        }
    }
}

proof fn lemma_insert_sorted(s: Seq<FileMetaM>, x: FileMetaM)
    requires
        sorted_by_slug(s),
    ensures
        sorted_by_slug(insert_by_slug(s, x)),
    decreases s.len(),
{
    if s.len() > 0 {
        let r = insert_by_slug(s, x);
        if chars_le(s[0].slug, x.slug) {
            let t = s.drop_first();
            lemma_insert_sorted(t, x);
            assert forall|k: int| 0 <= k < t.len() implies chars_le(s[0].slug, #[trigger] t[k].slug) by {
                assert(t[k] == s[k + 1]);
            }
            lemma_insert_lower_bound(t, x, s[0].slug);
            let rt = insert_by_slug(t, x);
            assert forall|i: int, j: int| 0 <= i < j < r.len() implies chars_le(
                r[i].slug,
                r[j].slug,
            ) by {
                assert(r[j] == rt[j - 1]);
                if i > 0 {
                    assert(r[i] == rt[i - 1]);
                }
            }
        } else {
            lemma_chars_le_total(s[0].slug, x.slug);
            assert forall|i: int, j: int| 0 <= i < j < r.len() implies chars_le(
                r[i].slug,
                r[j].slug,
            ) by {
                assert(r[j] == s[j - 1]);
                if i > 0 {
                    assert(r[i] == s[i - 1]);
                } else if j > 1 {
                    lemma_chars_le_trans(x.slug, s[0].slug, s[j - 1].slug);
                }
            }
        }
    }
}

proof fn lemma_insert_multiset(s: Seq<FileMetaM>, x: FileMetaM)
    ensures
        insert_by_slug(s, x).to_multiset() =~= s.to_multiset().insert(x),
    decreases s.len(),
{
    broadcast use vstd::seq_lib::group_to_multiset_ensures;

    if s.len() == 0 {
        assert(seq![x] =~= Seq::<FileMetaM>::empty().push(x));
    } else if !chars_le(s[0].slug, x.slug) {
        vstd::seq_lib::lemma_multiset_commutative(seq![x], s);
        assert(seq![x] =~= Seq::<FileMetaM>::empty().push(x));
    } else {
        let t = s.drop_first();
        lemma_insert_multiset(t, x);
        vstd::seq_lib::lemma_multiset_commutative(seq![s[0]], insert_by_slug(t, x));
        vstd::seq_lib::lemma_multiset_commutative(seq![s[0]], t);
        assert(seq![s[0]] + t =~= s);
        assert(seq![s[0]] =~= Seq::<FileMetaM>::empty().push(s[0]));
    }
}

/// Scanning yields the metadata sorted by slug, for a deterministic order.
pub proof fn lemma_sort_by_slug_sorted(s: Seq<FileMetaM>)
    ensures
        sorted_by_slug(sort_by_slug(s)),
    decreases s.len(),
{
    if s.len() > 0 {
        lemma_sort_by_slug_sorted(s.drop_last());
        lemma_insert_sorted(sort_by_slug(s.drop_last()), s.last());
    }
}

/// Sorting keeps every entry, each as often as it occurred.
pub proof fn lemma_sort_by_slug_permutes(s: Seq<FileMetaM>)
    ensures
        sort_by_slug(s).to_multiset() =~= s.to_multiset(),
    decreases s.len(),
{
    broadcast use vstd::seq_lib::group_to_multiset_ensures;

    if s.len() > 0 {
        lemma_sort_by_slug_permutes(s.drop_last());
        lemma_insert_multiset(sort_by_slug(s.drop_last()), s.last());
        assert(s.drop_last().push(s.last()) =~= s);
    }
}

// ── Scanning: executable ──────────────────────────────────────────────────────

fn slug_le(a: &String, b: &String) -> (r: bool)
    ensures
        r == chars_le(a@, b@),
{
    let va = chars_of(a.as_str());
    let vb = chars_of(b.as_str());
    let mut i: usize = 0;
    assert(va@.skip(0) =~= va@);
    assert(vb@.skip(0) =~= vb@);
    while i < va.len() && i < vb.len()
        invariant
            i <= va@.len(),
            i <= vb@.len(),
            chars_le(a@, b@) == chars_le(va@.skip(i as int), vb@.skip(i as int)),
            va@ == a@,
            vb@ == b@,
        decreases va@.len() - i,
    {
        let x = va[i];
        let y = vb[i];
        assert(va@.skip(i as int)[0] == x);
        assert(vb@.skip(i as int)[0] == y);
        if x != y {
            return x < y;
        }
        assert(va@.skip(i as int).drop_first() =~= va@.skip(i + 1));
        assert(vb@.skip(i as int).drop_first() =~= vb@.skip(i + 1));
        i = i + 1;
    }
    i == va.len()
}

/// Insert `x` after every entry whose slug sorts at or before its own.
fn insert_meta(v: &mut Vec<FileMeta>, x: FileMeta)
    ensures
        metas_model(final(v)@) == insert_by_slug(metas_model(old(v)@), x.model()),
{
    let ghost m = metas_model(v@);
    let ghost xm = x.model();
    let mut p: usize = 0;
    assert(m.take(0) + m.skip(0) =~= m);
    while p < v.len() && slug_le(&v[p].slug, &x.slug)
        invariant
            p <= v@.len(),
            m == metas_model(v@),
            xm == x.model(),
            insert_by_slug(m, xm) == m.take(p as int) + insert_by_slug(m.skip(p as int), xm),
        decreases v@.len() - p,
    {
        proof {
            let t = m.skip(p as int);
            assert(t[0] == v@[p as int].model());
            assert(t.drop_first() =~= m.skip(p + 1));
            assert(m.take(p + 1) =~= m.take(p as int).push(m[p as int]));
            assert(m.take(p as int) + insert_by_slug(t, xm) =~= m.take(p + 1) + insert_by_slug(
                m.skip(p + 1),
                xm,
            ));
        }
        p = p + 1;
    }
    let ghost before = v@;
    v.insert(p, x);
    proof {
        assert(m.take(p as int) + (seq![xm] + m.skip(p as int)) =~= metas_model(v@));
        if p < before.len() {
            assert(m.skip(p as int)[0] == before[p as int].model());
        } else {
            assert(m.skip(p as int) =~= Seq::<FileMetaM>::empty());
        }
    }
}

/// The metadata of one article file; `None` when it has no H1 title.
pub fn meta_from_raw(path: &String, raw: &String) -> (r: Option<FileMeta>)
    ensures
        r matches Some(m) ==> file_meta_spec(path@, raw@) == Some(m.model()),
        r is None ==> file_meta_spec(path@, raw@) is None,
{
    proof {
        reveal_strlit("slug");
        assert("slug"@ =~= slug_key());
    }
    let (front, body) = split(raw.as_str());
    let slug0 = match value(front, "slug") {
        Some(s) => s,
        None => String::new(),
    };
    let title = extract_title(body);
    if title.as_str().unicode_len() == 0 {
        return None;
    }
    let slug = if slug0.as_str().unicode_len() == 0 {
        slugify(title.as_str())
    } else {
        slug0
    };
    Some(FileMeta { title, slug, path: path.clone() })
}

/// The metadata of every article file that has an H1 title, sorted by slug
/// (stable: files with equal slugs keep their order). Files are given as
/// `(path, raw text)`.
pub fn scan(files: &Vec<(String, String)>) -> (r: Vec<FileMeta>)
    ensures
        metas_model(r@) == scan_spec(files_model(files@)),
{
    let ghost fm = files_model(files@);
    let mut out: Vec<FileMeta> = Vec::new();
    let mut i: usize = 0;
    assert(metas_model(out@) =~= Seq::<FileMetaM>::empty());
    while i < files.len()
        invariant
            i <= files@.len(),
            fm == files_model(files@),
            metas_model(out@) == sort_by_slug(metas_in_order(fm.take(i as int))),
        decreases files@.len() - i,
    {
        proof {
            assert(fm.take(i + 1).drop_last() =~= fm.take(i as int));
            assert(fm.take(i + 1).last() == (files@[i as int].0@, files@[i as int].1@));
        }
        match meta_from_raw(&files[i].0, &files[i].1) {
            Some(m) => {
                proof {
                    let ms = metas_in_order(fm.take(i as int));
                    assert(ms.push(m.model()).drop_last() =~= ms);
                }
                insert_meta(&mut out, m);
            },
            None => {},
        }
        i = i + 1;
    }
    assert(fm.take(files@.len() as int) =~= fm);
    out
}

/// The raw text of the first file at `path`; empty when no file is there.
pub open spec fn raw_for(files: Seq<(Seq<char>, Seq<char>)>, path: Seq<char>) -> Seq<char>
    decreases files.len(),
{
    if files.len() == 0 {
        seq![]
    } else if files[0].0 == path {
        files[0].1
    } else {
        raw_for(files.drop_first(), path)
    }
}

/// The descriptor of a scanned file: its title and slug, and the snippet of
/// its body.
pub open spec fn meta_row(files: Seq<(Seq<char>, Seq<char>)>, m: FileMetaM) -> StoryM {
    StoryM {
        title: m.title,
        slug: m.slug,
        snippet: snippet_from_body_spec(split_spec(raw_for(files, m.path)).1),
    }
}

pub open spec fn scan_as_meta_spec(files: Seq<(Seq<char>, Seq<char>)>) -> Seq<StoryM> {
    scan_spec(files).map_values(|m: FileMetaM| meta_row(files, m))
}

fn raw_of(files: &Vec<(String, String)>, path: &String) -> (r: String)
    ensures
        r@ == raw_for(files_model(files@), path@),
{
    let ghost fm = files_model(files@);
    let mut j: usize = 0;
    assert(fm.skip(0) =~= fm);
    while j < files.len()
        invariant
            j <= files@.len(),
            fm == files_model(files@),
            raw_for(fm, path@) == raw_for(fm.skip(j as int), path@),
        decreases files@.len() - j,
    {
        proof {
            assert(fm.skip(j as int)[0] == (files@[j as int].0@, files@[j as int].1@));
            assert(fm.skip(j as int).drop_first() =~= fm.skip(j + 1));
        }
        if files[j].0 == *path {
            return files[j].1.clone();
        }
        j = j + 1;
    }
    assert(fm.skip(j as int) =~= Seq::<(Seq<char>, Seq<char>)>::empty());
    String::new()
}

/// `ArticleMeta` rows for a directory's files: each scanned file's title and
/// slug, with a cheap snippet of its body, sorted by slug.
pub fn scan_as_meta(files: &Vec<(String, String)>) -> (r: Vec<ArticleMeta>)
    ensures
        r@.map_values(|a: ArticleMeta| a.story()) == scan_as_meta_spec(files_model(files@)),
{
    let metas = scan(files);
    let ghost fm = files_model(files@);
    let mut out: Vec<ArticleMeta> = Vec::new();
    let mut i: usize = 0;
    while i < metas.len()
        invariant
            i <= metas@.len(),
            fm == files_model(files@),
            metas_model(metas@) == scan_spec(fm),
            out@.map_values(|a: ArticleMeta| a.story()) == scan_spec(fm).take(i as int).map_values(
                |m: FileMetaM| meta_row(fm, m),
            ),
        decreases metas@.len() - i,
    {
        let m = &metas[i];
        let raw = raw_of(files, &m.path);
        let (_, body) = split(raw.as_str());
        let snippet = snippet_from_body(body);
        let ghost before = out@;
        out.push(ArticleMeta { title: m.title.clone(), slug: m.slug.clone(), snippet });
        proof {
            assert(scan_spec(fm)[i as int] == m.model());
            assert(out@.map_values(|a: ArticleMeta| a.story()) =~= before.map_values(
                |a: ArticleMeta| a.story(),
            ).push(meta_row(fm, m.model())));
            assert(scan_spec(fm).take(i + 1).map_values(|m: FileMetaM| meta_row(fm, m))
                =~= scan_spec(fm).take(i as int).map_values(|m: FileMetaM| meta_row(fm, m)).push(
                meta_row(fm, m.model()),
            ));
        }
        i = i + 1;
    }
    assert(scan_spec(fm).take(metas@.len() as int) =~= scan_spec(fm));
    out
}

/// Whether a directory entry holds an article: its extension is `md`.
pub fn is_article_file(path: &str) -> (r: bool)
    ensures
        r == (path_extension(path@) == Some("md"@)),
{
    match file_extension(path) {
        Some(e) => e == String::from_str("md"),
        None => false,
    }
}

} // verus!
