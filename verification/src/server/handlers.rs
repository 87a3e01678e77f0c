//! Decisions made by the route handlers: which static base pages link to,
//! the file name an uploaded image is stored under, how a page request is
//! served, and the rows of the admin list.

use vstd::prelude::*;

use crate::config::types::{github_tree_to_raw_spec, StaticSource};
use crate::domain::{Article, ContentBundle, StoryHeader};
use crate::render::renderer::RenderError;
use crate::render::views::AdminArticleEntry;
use crate::repository::{ArticleMeta, RepoError};
use crate::repository::fs::util::{ascii_lower, ascii_lower_exec};
use crate::server::{header_text, header_text_spec};
use crate::text::{chars_of, decimal, push_char, push_decimal};

verus! {

// ── Static assets ─────────────────────────────────────────────────────────────

/// The base URL that pages link static assets with: the CDN base of a
/// GitHub source; empty for a local directory.
pub open spec fn static_base_spec(s: StaticSource) -> Seq<char> {
    match s {
        StaticSource::Github { source } => github_tree_to_raw_spec(source@),
        StaticSource::Local { .. } => seq![],
    }
}

pub fn static_base(source: &StaticSource) -> (r: String)
    ensures
        r@ == static_base_spec(*source),
{
    match source.github_raw_base() {
        Some(u) => u,
        None => String::new(),
    }
}

// ── Decimal numbers ───────────────────────────────────────────────────────────

pub open spec fn digit_value(c: char) -> nat {
    if c == '1' {
        1
    } else if c == '2' {
        2
    } else if c == '3' {
        3
    } else if c == '4' {
        4
    } else if c == '5' {
        5
    } else if c == '6' {
        6
    } else if c == '7' {
        7
    } else if c == '8' {
        8
    } else if c == '9' {
        9
    } else {
        0
    }
}

pub open spec fn is_digit(c: char) -> bool {
    '0' <= c && c <= '9'
}

pub open spec fn all_digits(s: Seq<char>) -> bool {
    forall|i: int| 0 <= i < s.len() ==> is_digit(#[trigger] s[i])
}

pub open spec fn digits_value(s: Seq<char>) -> nat
    decreases s.len(),
{
    if s.len() == 0 {
        0
    } else {
        digits_value(s.drop_last()) * 10 + digit_value(s.last())
    }
}

/// `u32::from_str`: an optional `+`, then one or more ASCII digits whose
/// value fits in a `u32`.
pub open spec fn parse_u32_spec(s: Seq<char>) -> Option<u32> {
    let d = if s.len() > 0 && s[0] == '+' {
        s.drop_first()
    } else {
        s
    };
    if d.len() > 0 && all_digits(d) && digits_value(d) <= u32::MAX {
        Some(digits_value(d) as u32)
    } else {
        None
    }
}

proof fn lemma_digits_value_prefix(s: Seq<char>, k: int)
    requires
        0 <= k <= s.len(),
    ensures
        digits_value(s.take(k)) <= digits_value(s),
    decreases s.len(),
{
    if k < s.len() {
        assert(s.take(k) =~= s.drop_last().take(k));
        lemma_digits_value_prefix(s.drop_last(), k);
    } else {
        assert(s.take(k) =~= s);
    }
}

fn digit_of(c: char) -> (d: u64)
    requires
        is_digit(c),
    ensures
        d == digit_value(c),
{
    if c == '1' {
        1
    } else if c == '2' {
        2
    } else if c == '3' {
        3
    } else if c == '4' {
        4
    } else if c == '5' {
        5
    } else if c == '6' {
        6
    } else if c == '7' {
        7
    } else if c == '8' {
        8
    } else if c == '9' {
        9
    } else {
        0
    }
}

/// Parse a decimal `u32` the way `str::parse::<u32>` does.
pub fn parse_u32(s: &str) -> (r: Option<u32>)
    ensures
        r == parse_u32_spec(s@),
{
    let v = chars_of(s);
    let n = v.len();
    let start: usize = if n > 0 && v[0] == '+' {
        1
    } else {
        0
    };
    let ghost d = v@.skip(start as int);
    proof {
        if start == 1 {
            assert(d =~= s@.drop_first());
        } else {
            assert(d =~= s@);
        }
    }
    assert(v@ == s@);
    if start == n {
        return None;
    }
    let mut acc: u64 = 0;
    let mut i: usize = start;
    while i < n
        invariant
            start <= i <= n,
            start < n,
            n == v@.len(),
            v@ == s@,
            d == v@.skip(start as int),
            d == (if s@.len() > 0 && s@[0] == '+' {
                s@.drop_first()
            } else {
                s@
            }),
            acc == digits_value(d.take(i - start)),
            acc <= u32::MAX,
            forall|k: int| 0 <= k < i - start ==> is_digit(#[trigger] d[k]),
        decreases n - i,
    {
        let c = v[i];
        assert(d[i - start] == c);
        if !('0' <= c && c <= '9') {
            assert(!is_digit(d[i - start]));
            assert(!all_digits(d));
            return None;
        }
        proof {
            assert(d.take(i - start + 1).drop_last() =~= d.take(i - start));
            assert(d.take(i - start + 1).last() == c);
        }
        acc = acc * 10 + digit_of(c);
        i = i + 1;
        if acc > 0xffff_ffff {
            proof {
                lemma_digits_value_prefix(d, i - start);
            }
            return None;
        }
    }
    assert(d.take(n - start) =~= d);
    Some(acc as u32)
}

// ── Image uploads ─────────────────────────────────────────────────────────────

/// The extension of a file name: what `Path::new(name).extension()` gives,
/// read back as text.
pub uninterp spec fn path_extension(name: Seq<char>) -> Option<Seq<char>>;

/// The extension of a file name (`Path::extension`). The name is valid
/// UTF-8, so the extension, a part of it, reads back as text.
#[verifier::external_body]
pub(crate) fn file_extension(name: &str) -> (r: Option<String>)
    ensures
        r matches Some(e) ==> path_extension(name@) == Some(e@),
        r is None ==> path_extension(name@) is None,
{
    match std::path::Path::new(name).extension() {
        Some(e) => match e.to_str() {
            Some(t) => Some(t.to_string()),
            None => None,
        },
        None => None,
    }
}

/// Why an image upload was refused.
#[derive(Debug, Clone, Copy, PartialEq, Eq, Structural)]
pub enum ImageError {
    /// The file extension is not one of the accepted image types.
    UnsupportedType,
}

pub open spec fn or_default(o: Option<Seq<char>>, d: Seq<char>) -> Seq<char> {
    match o {
        Some(s) => s,
        None => d,
    }
}

pub open spec fn lower_ascii(s: Seq<char>) -> Seq<char> {
    s.map_values(|c: char| ascii_lower(c))
}

/// The image types an upload may have.
pub open spec fn allowed_image_ext(e: Seq<char>) -> bool {
    ||| e == "jpg"@
    ||| e == "jpeg"@
    ||| e == "png"@
    ||| e == "gif"@
    ||| e == "webp"@
    ||| e == "svg"@
    ||| e == "avif"@
}

/// The number in `x-image-index`; 1 when it is absent or not a `u32`.
pub open spec fn image_index_spec(headers: axum::http::HeaderMap) -> u32 {
    match header_text_spec(headers, "x-image-index"@) {
        Some(t) => match parse_u32_spec(t) {
            Some(n) => n,
            None => 1,
        },
        None => 1,
    }
}

/// The file name an uploaded image is stored under,
/// `<slug>-<index>.<ext>`: the slug from `x-article-slug` (`article` when
/// absent), the index from `x-image-index` (1 when absent or not a number),
/// and the lower-cased extension of `x-image-name` (`image.jpg` when absent;
/// `jpg` when it has none), which must be an accepted image type.
pub open spec fn image_name_spec(headers: axum::http::HeaderMap) -> Result<Seq<char>, ImageError> {
    let orig = or_default(header_text_spec(headers, "x-image-name"@), "image.jpg"@);
    let slug = or_default(header_text_spec(headers, "x-article-slug"@), "article"@);
    let ext = lower_ascii(or_default(path_extension(orig), "jpg"@));
    if allowed_image_ext(ext) {
        Ok(slug + seq!['-'] + decimal(image_index_spec(headers) as nat) + seq!['.'] + ext)
    } else {
        Err(ImageError::UnsupportedType)
    }
}

/// The lower-cased extension an upload is judged by: that of `x-image-name`
/// (`image.jpg` when the header is absent), `jpg` when the name has none.
pub open spec fn upload_extension(headers: axum::http::HeaderMap) -> Seq<char> {
    lower_ascii(
        or_default(
            path_extension(or_default(header_text_spec(headers, "x-image-name"@), "image.jpg"@)),
            "jpg"@,
        ),
    )
}

/// An upload is accepted exactly when its extension, in any letter case, is
/// one of jpg, jpeg, png, gif, webp, svg and avif; an accepted upload is
/// named `<slug>-<index>.` followed by that extension in lower case.
pub proof fn lemma_image_types_accepted(headers: axum::http::HeaderMap)
    ensures
        ({
            let e = upload_extension(headers);
            image_name_spec(headers) is Ok <==> (e == seq!['j', 'p', 'g'] || e == seq![
                'j',
                'p',
                'e',
                'g',
            ] || e == seq!['p', 'n', 'g'] || e == seq!['g', 'i', 'f'] || e == seq![
                'w',
                'e',
                'b',
                'p',
            ] || e == seq!['s', 'v', 'g'] || e == seq!['a', 'v', 'i', 'f'])
        }),
        image_name_spec(headers) matches Ok(name) ==> name.len() > upload_extension(headers).len()
            && name.skip(name.len() - upload_extension(headers).len() - 1) == seq!['.']
            + upload_extension(headers),
{
    reveal_strlit("jpg");
    reveal_strlit("jpeg");
    reveal_strlit("png");
    reveal_strlit("gif");
    reveal_strlit("webp");
    reveal_strlit("svg");
    reveal_strlit("avif");
    assert("jpg"@ =~= seq!['j', 'p', 'g']);
    assert("jpeg"@ =~= seq!['j', 'p', 'e', 'g']);
    assert("png"@ =~= seq!['p', 'n', 'g']);
    assert("gif"@ =~= seq!['g', 'i', 'f']);
    assert("webp"@ =~= seq!['w', 'e', 'b', 'p']);
    assert("svg"@ =~= seq!['s', 'v', 'g']);
    assert("avif"@ =~= seq!['a', 'v', 'i', 'f']);
    let e = upload_extension(headers);
    if let Ok(name) = image_name_spec(headers) {
        let slug = or_default(header_text_spec(headers, "x-article-slug"@), "article"@);
        let head = slug + seq!['-'] + decimal(image_index_spec(headers) as nat);
        assert(name =~= head + (seq!['.'] + e));
        assert(name.skip(head.len() as int) =~= seq!['.'] + e);
    }
}

fn same_text(v: &Vec<char>, t: &str) -> (b: bool)
    ensures
        b == (v@ == t@),
{
    let w = chars_of(t);
    if v.len() != w.len() {
        return false;
    }
    let mut i: usize = 0;
    while i < v.len()
        invariant
            i <= v@.len(),
            v@.len() == w@.len(),
            w@ == t@,
            forall|k: int| 0 <= k < i ==> v@[k] == w@[k],
        decreases v@.len() - i,
    {
        if v[i] != w[i] {
            return false;
        }
        i = i + 1;
    }
    assert(v@ =~= w@);
    true
}

/// The name an uploaded image is stored under, from the upload's request
/// headers; refused when its type is not an accepted image type.
pub fn image_upload_name(headers: &axum::http::HeaderMap) -> (r: Result<String, ImageError>)
    ensures
        r matches Ok(s) ==> image_name_spec(*headers) == Ok::<Seq<char>, ImageError>(s@),
        r matches Err(e) ==> image_name_spec(*headers) == Err::<Seq<char>, ImageError>(e),
{
    proof {
        reveal_strlit("x-image-name");
        reveal_strlit("x-article-slug");
        reveal_strlit("x-image-index");
    }
    let orig = match header_text(headers, "x-image-name") {
        Some(s) => s,
        None => String::from_str("image.jpg"),
    };
    let slug = match header_text(headers, "x-article-slug") {
        Some(s) => s,
        None => String::from_str("article"),
    };
    let index: u32 = match header_text(headers, "x-image-index") {
        Some(t) => match parse_u32(t.as_str()) {
            Some(n) => n,
            None => 1,
        },
        None => 1,
    };
    let ext_raw = match file_extension(orig.as_str()) {
        Some(e) => e,
        None => String::from_str("jpg"),
    };
    let raw = chars_of(ext_raw.as_str());
    let mut ext: Vec<char> = Vec::new();
    let mut i: usize = 0;
    while i < raw.len()
        invariant
            i <= raw@.len(),
            ext@ == lower_ascii(raw@.take(i as int)),
        decreases raw@.len() - i,
    {
        ext.push(ascii_lower_exec(raw[i]));
        i = i + 1;
        assert(ext@ =~= lower_ascii(raw@.take(i as int)));
    }
    assert(raw@.take(raw@.len() as int) =~= raw@);
    let allowed = same_text(&ext, "jpg") || same_text(&ext, "jpeg") || same_text(&ext, "png")
        || same_text(&ext, "gif") || same_text(&ext, "webp") || same_text(&ext, "svg")
        || same_text(&ext, "avif");
    if !allowed {
        return Err(ImageError::UnsupportedType);
    }
    let ghost slug_text = slug@;
    let ghost ext_text = ext@;
    let mut name = slug;
    push_char(&mut name, '-');
    push_decimal(&mut name, index as u64);
    push_char(&mut name, '.');
    let mut k: usize = 0;
    let ghost base = name@;
    while k < ext.len()
        invariant
            k <= ext@.len(),
            name@ == base + ext@.take(k as int),
        decreases ext@.len() - k,
    {
        push_char(&mut name, ext[k]);
        k = k + 1;
        assert(name@ =~= base + ext@.take(k as int));
    }
    assert(ext@.take(ext@.len() as int) =~= ext@);
    assert(name@ =~= slug_text + seq!['-'] + decimal(index as nat) + seq!['.'] + ext_text);
    Ok(name)
}

// ── Serving a page ────────────────────────────────────────────────────────────

/// Number of sidebar cards shown next to an article.
pub const SIDEBAR_CARDS: usize = 4;

/// How a page request is answered.
#[derive(Debug)]
pub enum PageResponse {
    /// 200 with the rendered HTML.
    Html(String),
    /// 404 with a short text.
    NotFound(&'static str),
    /// 500 with a short text.
    InternalError(&'static str),
}

/// Where serving a page stands.
pub enum PageState {
    /// Nothing done yet.
    Start,
    /// Waiting for a random slug.
    AwaitSlug,
    /// Waiting for the article.
    AwaitArticle,
    /// Waiting for the sidebar cards to go next to this article.
    AwaitSidebar(Article),
    /// Waiting for the empty-state page to be rendered.
    AwaitEmptyRender,
    /// Waiting for the article page to be rendered.
    AwaitArticleRender,
    /// Answered.
    Done,
}

/// What the last piece of outside work gave.
pub enum PageEvent {
    /// The request: the slug in its path, if any.
    Requested(Option<String>),
    RandomSlug(Result<String, RepoError>),
    Loaded(Result<Article, RepoError>),
    Sidebar(Result<Vec<StoryHeader>, RepoError>),
    Rendered(Result<String, RenderError>),
}

/// The outside work to do next.
pub enum PageAction {
    PickRandomSlug,
    LoadArticle(String),
    LoadSidebar { exclude_slug: String, limit: usize },
    /// Render the empty-state page.
    RenderEmpty,
    /// Render the page of this article and sidebar.
    RenderArticle(ContentBundle),
    Respond(PageResponse),
}

/// The event answers the work the state waits for.
pub open spec fn page_event_fits(s: PageState, e: PageEvent) -> bool {
    match s {
        PageState::Start => e is Requested,
        PageState::AwaitSlug => e is RandomSlug,
        PageState::AwaitArticle => e is Loaded,
        PageState::AwaitSidebar(_) => e is Sidebar,
        PageState::AwaitEmptyRender => e is Rendered,
        PageState::AwaitArticleRender => e is Rendered,
        PageState::Done => false,
    }
}

/// One decision in serving a page: a requested slug is loaded, otherwise
/// a random one; with no article to pick, the empty-state page is
/// rendered (a failure to render it answers 404 "no articles found"); an
/// article that cannot be loaded answers 404 "article not found"; the
/// sidebar holds `SIDEBAR_CARDS` other articles, or none when it cannot be
/// had; a page that cannot be rendered answers 500 "internal error".
pub fn page_step(state: PageState, event: PageEvent) -> (r: (PageState, PageAction))
    requires
        page_event_fits(state, event),
    ensures
        event matches PageEvent::Requested(Some(slug)) ==> r.0 is AwaitArticle && r.1
            == PageAction::LoadArticle(slug),
        event matches PageEvent::Requested(None) ==> r.0 is AwaitSlug && r.1 is PickRandomSlug,
        event matches PageEvent::RandomSlug(Ok(slug)) ==> r.0 is AwaitArticle && r.1
            == PageAction::LoadArticle(slug),
        event matches PageEvent::RandomSlug(Err(_)) ==> r.0 is AwaitEmptyRender
            && r.1 is RenderEmpty,
        event matches PageEvent::Loaded(Ok(a)) ==> r.0 == PageState::AwaitSidebar(a) && (
        r.1 matches PageAction::LoadSidebar { exclude_slug, limit } && exclude_slug@ == a.slug@
            && limit == SIDEBAR_CARDS),
        event matches PageEvent::Loaded(Err(_)) ==> r.0 is Done && r.1 == PageAction::Respond(
            PageResponse::NotFound("article not found"),
        ),
        event matches PageEvent::Sidebar(res) ==> r.0 is AwaitArticleRender && r.1 is RenderArticle
            && (state matches PageState::AwaitSidebar(a) ==> r.1->RenderArticle_0.article == a) && (
        res matches Ok(v) ==> r.1->RenderArticle_0.stories == v) && (res is Err
            ==> r.1->RenderArticle_0.stories@.len() == 0),
        event matches PageEvent::Rendered(Ok(html)) ==> r.0 is Done && r.1 == PageAction::Respond(
            PageResponse::Html(html),
        ),
        (state is AwaitEmptyRender && event matches PageEvent::Rendered(Err(_))) ==> r.0 is Done
            && r.1 == PageAction::Respond(PageResponse::NotFound("no articles found")),
        (state is AwaitArticleRender && event matches PageEvent::Rendered(Err(_))) ==> r.0 is Done
            && r.1 == PageAction::Respond(PageResponse::InternalError("internal error")),
{
    match event {
        PageEvent::Requested(Some(slug)) => (PageState::AwaitArticle, PageAction::LoadArticle(slug)),
        PageEvent::Requested(None) => (PageState::AwaitSlug, PageAction::PickRandomSlug),
        PageEvent::RandomSlug(Ok(slug)) => (PageState::AwaitArticle, PageAction::LoadArticle(slug)),
        PageEvent::RandomSlug(Err(_)) => (PageState::AwaitEmptyRender, PageAction::RenderEmpty),
        PageEvent::Loaded(Ok(a)) => {
            let exclude_slug = a.slug.clone();
            (
                PageState::AwaitSidebar(a),
                PageAction::LoadSidebar { exclude_slug, limit: SIDEBAR_CARDS },
            )
        },
        PageEvent::Loaded(Err(_)) => (
            PageState::Done,
            PageAction::Respond(PageResponse::NotFound("article not found")),
        ),
        PageEvent::Sidebar(res) => {
            let stories = match res {
                Ok(v) => v,
                Err(_) => Vec::new(),
            };
            match state {
                PageState::AwaitSidebar(article) => (
                    PageState::AwaitArticleRender,
                    PageAction::RenderArticle(ContentBundle { article, stories }),
                ),
                _ => (PageState::Done, PageAction::Respond(PageResponse::InternalError("internal error"))),
            }
        },
        PageEvent::Rendered(Ok(html)) => (PageState::Done, PageAction::Respond(PageResponse::Html(html))),
        PageEvent::Rendered(Err(_)) => {
            match state {
                PageState::AwaitEmptyRender => (
                    PageState::Done,
                    PageAction::Respond(PageResponse::NotFound("no articles found")),
                ),
                _ => (
                    PageState::Done,
                    PageAction::Respond(PageResponse::InternalError("internal error")),
                ),
            }
        },
    }
}

// ── Admin list ────────────────────────────────────────────────────────────────

/// The rows of the admin article list: each article's slug, title, and
/// snippet as its preview, in order.
pub fn admin_entries(metas: Vec<ArticleMeta>) -> (r: Vec<AdminArticleEntry>)
    ensures
        r@.len() == metas@.len(),
        forall|i: int|
            0 <= i < metas@.len() ==> #[trigger] r@[i] == (AdminArticleEntry {
                slug: metas@[i].slug,
                title: metas@[i].title,
                preview: metas@[i].snippet,
            }),
{
    let ghost orig = metas@;
    let mut rest = metas;
    let mut out: Vec<AdminArticleEntry> = Vec::new();
    let total = rest.len();
    let mut taken: usize = 0;
    while rest.len() > 0
        invariant
            taken <= orig.len(),
            orig.len() == total,
            rest@ == orig.skip(taken as int),
            out@.len() == taken,
            forall|i: int|
                0 <= i < taken ==> #[trigger] out@[i] == (AdminArticleEntry {
                    slug: orig[i].slug,
                    title: orig[i].title,
                    preview: orig[i].snippet,
                }),
        decreases rest@.len(),
    {
        let m = rest.remove(0);
        proof {
            assert(orig.skip(taken as int)[0] == orig[taken as int]);
            assert(orig.skip(taken as int).drop_first() =~= orig.skip(taken + 1));
        }
        out.push(AdminArticleEntry { slug: m.slug, title: m.title, preview: m.snippet });
        taken = taken + 1;
    }
    out
}

} // verus!
