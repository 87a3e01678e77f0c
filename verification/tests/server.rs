use axum::http::{HeaderMap, HeaderValue};
use rust_website::config::types::StaticSource;
use rust_website::server::auth::{
    is_admin_session,
    auth_outcome, constant_time_eq, session_token, tokens_match, AuthOutcome, ADMIN_COOKIE,
    SESSION_MINUTES,
};
use rust_website::domain::Article;
use rust_website::render::renderer::RenderError;
use rust_website::repository::fs::parser::parse_article;
use rust_website::repository::{ArticleMeta, RepoError};
use rust_website::server::handlers::{
    admin_entries, image_upload_name, page_step, parse_u32, static_base, ImageError, PageAction,
    PageEvent, PageResponse, PageState, SIDEBAR_CARDS,
};
use rust_website::server::middleware::{logged_path, security_header_pairs};
use rust_website::server::session_memory::InMemorySessionStore;

const SEC: u64 = 1_000_000_000;

#[test]
fn constant_time_eq_is_equality() {
    assert!(constant_time_eq(b"secret", b"secret"));
    assert!(!constant_time_eq(b"secret", b"secreT"));
    assert!(!constant_time_eq(b"secret", b"secret!"));
    assert!(constant_time_eq(b"", b""));
    assert!(tokens_match("ключ", "ключ"));
    assert!(!tokens_match("a", "b"));
}

#[test]
fn activation_is_rate_limited_then_token_checked() {
    assert_eq!(auth_outcome(Some(1), "tok", Some("tok")), AuthOutcome::TooManyRequests);
    assert_eq!(auth_outcome(Some(2), "tok", Some("tok")), AuthOutcome::Authorized);
    assert_eq!(auth_outcome(None, "bad", Some("tok")), AuthOutcome::Unauthorized);
    assert_eq!(auth_outcome(None, "tok", None), AuthOutcome::Unauthorized);
    assert_eq!(auth_outcome(None, "", None), AuthOutcome::Authorized);
    assert_eq!(ADMIN_COOKIE, "admin_session");
    assert_eq!(SESSION_MINUTES, 30);
}

#[test]
fn session_tokens_are_64_hex_digits() {
    assert_eq!(session_token(0, 0), "0".repeat(64));
    assert_eq!(
        session_token(0xff, 1),
        "00000000000000ff000000000000000100000000000000fe0000000000000100"
    );
    let wrapped = session_token(u64::MAX, 2);
    assert_eq!(&wrapped[48..], "0000000000000001");
    assert_eq!(&wrapped[..16], "ffffffffffffffff");
    let a: u64 = 0x0123_4567_89ab_cdef;
    let b: u64 = 0xfedc_ba98_7654_3210;
    let t = session_token(a, b);
    assert_eq!(t, format!("{:016x}{:016x}{:016x}{:016x}", a, b, a ^ b, a.wrapping_add(b)));
}

#[test]
fn sessions_open_for_their_token_until_they_expire() {
    let mut s = InMemorySessionStore::new();
    assert!(!s.is_active("tok", SESSION_MINUTES, 0));
    assert_eq!(s.last_auth_attempt(), None);
    s.record_auth_attempt(5 * SEC);
    assert_eq!(s.last_auth_attempt(), Some(5 * SEC));
    s.activate("tok".into(), 10 * SEC);
    assert!(s.is_active("tok", 30, 10 * SEC));
    assert!(s.is_active("tok", 30, 10 * SEC + 30 * 60 * SEC - 1));
    assert!(!s.is_active("tok", 30, 10 * SEC + 30 * 60 * SEC));
    assert!(!s.is_active("other", 30, 11 * SEC));
    assert!(s.is_active("tok", 30, 0));
    s.clear();
    assert!(!s.is_active("tok", 30, 11 * SEC));
    assert_eq!(s.last_auth_attempt(), Some(5 * SEC));
}

#[test]
fn static_base_is_the_cdn_of_a_github_source() {
    assert_eq!(static_base(&StaticSource::Local { source: "static".into() }), "");
    assert_eq!(
        static_base(&StaticSource::Github {
            source: "https://github.com/u/r/tree/main/static".into()
        }),
        "https://cdn.jsdelivr.net/gh/u/r@main/static"
    );
}

#[test]
fn parse_u32_follows_str_parse() {
    for s in ["42", "+7", "0", "007", "4294967295", "-1", "", "+", "4294967296", "12a", " 1", "99999999999999999999"] {
        assert_eq!(parse_u32(s), s.parse::<u32>().ok(), "input {:?}", s);
    }
}

fn headers(pairs: &[(&'static str, &str)]) -> HeaderMap {
    let mut h = HeaderMap::new();
    for (k, v) in pairs {
        h.insert(*k, HeaderValue::from_str(v).unwrap());
    }
    h
}

#[test]
fn image_names_come_from_upload_headers() {
    let h = headers(&[("x-image-name", "Photo.PNG"), ("x-article-slug", "my-post"), ("x-image-index", "3")]);
    assert_eq!(image_upload_name(&h).unwrap(), "my-post-3.png");
    assert_eq!(image_upload_name(&HeaderMap::new()).unwrap(), "article-1.jpg");
    assert_eq!(image_upload_name(&headers(&[("x-image-name", "noext")])).unwrap(), "article-1.jpg");
    assert_eq!(
        image_upload_name(&headers(&[("x-image-name", "a.webp"), ("x-image-index", "abc")])).unwrap(),
        "article-1.webp"
    );
    assert_eq!(image_upload_name(&headers(&[("x-image-name", "doc.pdf")])), Err(ImageError::UnsupportedType));
    assert_eq!(image_upload_name(&headers(&[("x-image-name", ".jpg")])).unwrap(), "article-1.jpg");
}

#[test]
fn security_headers_are_fixed() {
    let pairs = security_header_pairs();
    assert_eq!(pairs.len(), 4);
    assert_eq!(pairs[0], ("X-Content-Type-Options", "nosniff"));
    assert_eq!(pairs[1], ("X-Frame-Options", "DENY"));
    assert!(pairs[3].1.starts_with("default-src 'self'"));
}

fn sample_article(slug: &str) -> Article {
    parse_article(&format!("+++\nslug = \"{}\"\n+++\n# Title\n\nText.", slug)).unwrap()
}

#[test]
fn page_requests_run_through_load_sidebar_and_render() {
    let (s, a) = page_step(PageState::Start, PageEvent::Requested(Some("x".into())));
    assert!(matches!(s, PageState::AwaitArticle));
    assert!(matches!(a, PageAction::LoadArticle(ref slug) if slug == "x"));

    let (s, a) = page_step(s, PageEvent::Loaded(Ok(sample_article("x"))));
    assert!(matches!(s, PageState::AwaitSidebar(_)));
    assert!(matches!(a, PageAction::LoadSidebar { ref exclude_slug, limit } if exclude_slug == "x" && limit == SIDEBAR_CARDS));

    let (s, a) = page_step(s, PageEvent::Sidebar(Err(RepoError::NoArticles)));
    assert!(matches!(s, PageState::AwaitArticleRender));
    match a {
        PageAction::RenderArticle(bundle) => {
            assert_eq!(bundle.article.slug, "x");
            assert!(bundle.stories.is_empty());
        }
        _ => panic!("expected a render"),
    }

    let (s, a) = page_step(PageState::AwaitArticleRender, PageEvent::Rendered(Ok("<p>".into())));
    assert!(matches!(s, PageState::Done));
    assert!(matches!(a, PageAction::Respond(PageResponse::Html(ref h)) if h == "<p>"));
    let (_, a) = page_step(
        PageState::AwaitArticleRender,
        PageEvent::Rendered(Err(RenderError { message: "boom".into() })),
    );
    assert!(matches!(a, PageAction::Respond(PageResponse::InternalError("internal error"))));
}

#[test]
fn page_requests_without_articles_render_the_empty_page() {
    let (s, a) = page_step(PageState::Start, PageEvent::Requested(None));
    assert!(matches!(s, PageState::AwaitSlug));
    assert!(matches!(a, PageAction::PickRandomSlug));
    let (s, a) = page_step(s, PageEvent::RandomSlug(Err(RepoError::NoArticles)));
    assert!(matches!(s, PageState::AwaitEmptyRender));
    assert!(matches!(a, PageAction::RenderEmpty));
    let (_, a) = page_step(s, PageEvent::Rendered(Err(RenderError { message: "x".into() })));
    assert!(matches!(a, PageAction::Respond(PageResponse::NotFound("no articles found"))));
    let (_, a) = page_step(PageState::AwaitArticle, PageEvent::Loaded(Err(RepoError::NotFound)));
    assert!(matches!(a, PageAction::Respond(PageResponse::NotFound("article not found"))));
    let (_, a) = page_step(PageState::AwaitSlug, PageEvent::RandomSlug(Ok("r".into())));
    assert!(matches!(a, PageAction::LoadArticle(ref s) if s == "r"));
}

#[test]
fn admin_rows_follow_the_metadata() {
    let metas = vec![
        ArticleMeta { title: "A".into(), slug: "a".into(), snippet: "sa".into() },
        ArticleMeta { title: "B".into(), slug: "b".into(), snippet: "sb".into() },
    ];
    let rows = admin_entries(metas);
    assert_eq!(rows.len(), 2);
    assert_eq!((rows[1].slug.as_str(), rows[1].title.as_str(), rows[1].preview.as_str()), ("b", "B", "sb"));
}

#[test]
fn login_tokens_are_hidden_in_the_request_log() {
    assert_eq!(logged_path("/auth/abc123"), "/auth/[REDACTED]");
    assert_eq!(logged_path("/auth/"), "/auth/[REDACTED]");
    assert_eq!(logged_path("/auth"), "/auth");
    assert_eq!(logged_path("/article/x"), "/article/x");
    assert_eq!(logged_path("/admin/auth/x"), "/admin/auth/x");
}

struct OneToken;

impl rust_website::server::session::SessionStore for OneToken {
    fn last_auth_attempt(&self) -> Option<std::time::Instant> {
        None
    }
    fn record_auth_attempt(&self) {}
    fn activate(&self, _token: String) {}
    fn is_active(&self, cookie_token: &str, session_minutes: u64) -> bool {
        cookie_token == "tok" && session_minutes == 30
    }
    fn clear(&self) {}
}

#[test]
fn admin_session_needs_the_cookie_and_an_active_session() {
    assert!(!is_admin_session(&OneToken, None));
    assert!(!is_admin_session(&OneToken, Some("other")));
    assert!(is_admin_session(&OneToken, Some("tok")));
}

struct NeverAsked;

impl rust_website::server::session::SessionStore for NeverAsked {
    fn last_auth_attempt(&self) -> Option<std::time::Instant> {
        None
    }
    fn record_auth_attempt(&self) {}
    fn activate(&self, _token: String) {}
    fn is_active(&self, _cookie_token: &str, _session_minutes: u64) -> bool {
        panic!("the store was asked without a cookie")
    }
    fn clear(&self) {}
}

#[test]
fn no_cookie_means_the_store_is_not_asked() {
    assert!(!is_admin_session(&NeverAsked, None));
}
