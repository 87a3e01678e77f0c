use axum::http::{HeaderMap, HeaderValue};
use rust_website::server::mobile::{detect, is_mobile_user_agent};

fn ua(s: &str) -> HeaderMap {
    let mut h = HeaderMap::new();
    h.insert("user-agent", HeaderValue::from_str(s).unwrap());
    h
}

#[test]
fn iphone_is_mobile() {
    assert!(detect(&ua(
        "Mozilla/5.0 (iPhone; CPU iPhone OS 17_0 like Mac OS X) AppleWebKit/605.1.15 Mobile/15E148 Safari/604.1"
    )));
}

#[test]
fn android_phone_is_mobile() {
    assert!(detect(&ua(
        "Mozilla/5.0 (Linux; Android 14; Pixel 8) AppleWebKit/537.36 Chrome/123.0.0.0 Mobile Safari/537.36"
    )));
}

#[test]
fn android_tablet_is_desktop() {
    assert!(!detect(&ua(
        "Mozilla/5.0 (Linux; Android 13; SM-X700) AppleWebKit/537.36 Chrome/123.0.0.0 Safari/537.36"
    )));
}

#[test]
fn ipad_is_desktop() {
    assert!(!detect(&ua(
        "Mozilla/5.0 (iPad; CPU OS 17_0 like Mac OS X) AppleWebKit/605.1.15 Version/17.0 Safari/604.1"
    )));
}

#[test]
fn desktop_chrome_not_mobile() {
    assert!(!detect(&ua(
        "Mozilla/5.0 (Windows NT 10.0; Win64; x64) AppleWebKit/537.36 Chrome/123.0.0.0 Safari/537.36"
    )));
}

#[test]
fn empty_ua_not_mobile() {
    assert!(!detect(&HeaderMap::new()));
}

#[test]
fn test_iphone_is_mobile() {
    let ua_text = "Mozilla/5.0 (iPhone; CPU iPhone OS 17_0 like Mac OS X) AppleWebKit/605.1.15 (KHTML, like Gecko) Version/17.0 Mobile/15E148 Safari/604.1";
    assert!(detect(&ua(ua_text)));
}

#[test]
fn test_android_phone_is_mobile() {
    let ua_text = "Mozilla/5.0 (Linux; Android 14; Pixel 8) AppleWebKit/537.36 (KHTML, like Gecko) Chrome/123.0.0.0 Mobile Safari/537.36";
    assert!(detect(&ua(ua_text)));
}

#[test]
fn test_android_tablet_is_desktop() {
    let ua_text = "Mozilla/5.0 (Linux; Android 13; SM-X700) AppleWebKit/537.36 (KHTML, like Gecko) Chrome/123.0.0.0 Safari/537.36";
    assert!(!detect(&ua(ua_text)));
}

#[test]
fn test_ipad_is_desktop() {
    let ua_text = "Mozilla/5.0 (iPad; CPU OS 17_0 like Mac OS X) AppleWebKit/605.1.15 (KHTML, like Gecko) Version/17.0 Safari/604.1";
    assert!(!detect(&ua(ua_text)));
}

#[test]
fn test_desktop_chrome_is_not_mobile() {
    let ua_text = "Mozilla/5.0 (Windows NT 10.0; Win64; x64) AppleWebKit/537.36 (KHTML, like Gecko) Chrome/123.0.0.0 Safari/537.36";
    assert!(!detect(&ua(ua_text)));
}

#[test]
fn test_empty_ua_is_not_mobile() {
    assert!(!detect(&HeaderMap::new()));
}

#[test]
fn other_phone_markers_are_mobile() {
    assert!(is_mobile_user_agent("Mozilla/5.0 (iPod touch; CPU iPhone OS 12_0)"));
    assert!(is_mobile_user_agent("BlackBerry9700/5.0.0.351"));
    assert!(is_mobile_user_agent("Opera/9.80 (J2ME/MIDP; Opera Mini/9.80)"));
    assert!(is_mobile_user_agent("Mozilla/5.0 (compatible; MSIE 9.0; Windows Phone OS 7.5; IEMobile/9.0)"));
    assert!(!is_mobile_user_agent(""));
    assert!(!is_mobile_user_agent("mobile lowercase only"));
}

#[test]
fn user_agent_with_non_visible_bytes_counts_as_absent() {
    let mut h = HeaderMap::new();
    h.insert("user-agent", HeaderValue::from_bytes(b"Mobile \xff").unwrap());
    assert!(!detect(&h));
    let mut h2 = HeaderMap::new();
    h2.insert(axum::http::header::USER_AGENT, HeaderValue::from_str("iPhone").unwrap());
    assert!(detect(&h2));
}
