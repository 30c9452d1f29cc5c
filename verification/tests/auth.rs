use axum::http::header;
use axum::http::HeaderMap;
use axum::http::HeaderValue;
use gif_bridge::auth::ask_at;
use gif_bridge::auth::bearer_token;
use gif_bridge::auth::token_of;
use gif_bridge::auth::OpenIdVerifier;
use gif_bridge::auth::Verification;
use gif_bridge::auth::VerifyAction;
use gif_bridge::auth::VerifyEvent;
use gif_bridge::auth::VerifyStage;

fn headers_with_auth(value: &str) -> HeaderMap {
    let mut headers = HeaderMap::new();
    headers.insert(header::AUTHORIZATION, HeaderValue::from_str(value).unwrap());
    headers
}

fn verification(base: &str, token: &str) -> Verification {
    OpenIdVerifier::new(base.to_string()).verify(token)
}

#[test]
fn extracts_bearer_token() {
    assert_eq!(
        bearer_token(&headers_with_auth("Bearer abc123")),
        Some("abc123")
    );
}

#[test]
fn rejects_missing_header() {
    assert_eq!(bearer_token(&HeaderMap::new()), None);
}

#[test]
fn rejects_non_bearer_scheme() {
    assert_eq!(bearer_token(&headers_with_auth("Basic abc123")), None);
}

#[test]
fn bearer_prefix_is_case_sensitive() {
    assert_eq!(bearer_token(&headers_with_auth("bearer abc123")), None);
}

#[test]
fn token_is_all_that_follows_the_scheme() {
    assert_eq!(token_of("Bearer "), Some(""));
    assert_eq!(token_of("Bearer  a b"), Some(" a b"));
    assert_eq!(token_of("Bearer"), None);
    assert_eq!(token_of(""), None);
    assert_eq!(token_of(" Bearer abc"), None);
}

#[test]
fn first_of_several_headers_counts() {
    let mut headers = HeaderMap::new();
    headers.append(header::AUTHORIZATION, HeaderValue::from_static("Bearer one"));
    headers.append(header::AUTHORIZATION, HeaderValue::from_static("Bearer two"));
    assert_eq!(bearer_token(&headers), Some("one"));
}

#[test]
fn other_headers_do_not_count() {
    let mut headers = HeaderMap::new();
    headers.insert(header::COOKIE, HeaderValue::from_static("Bearer abc123"));
    assert_eq!(bearer_token(&headers), None);
}

#[test]
fn header_that_is_not_visible_text_is_rejected() {
    let mut headers = HeaderMap::new();
    headers.insert(
        header::AUTHORIZATION,
        HeaderValue::from_bytes(b"Bearer abc\xe9").unwrap(),
    );
    assert_eq!(bearer_token(&headers), None);
}

#[test]
fn header_may_hold_a_tab() {
    assert_eq!(
        bearer_token(&headers_with_auth("Bearer a\tb")),
        Some("a\tb")
    );
}

#[test]
fn unknown_token_is_asked_about() {
    let mut v = verification("https://matrix.example/userinfo", "a b&c");
    match v.step(VerifyEvent::Recalled(false)) {
        VerifyAction::Ask(url) => assert_eq!(
            url,
            "https://matrix.example/userinfo?access_token=a+b%26c"
        ),
        _ => panic!("the homeserver is to be asked"),
    }
    assert!(matches!(
        v.step(VerifyEvent::Answered(Some(200))),
        VerifyAction::Accept { remember: true }
    ));
}

#[test]
fn remembered_token_is_accepted_at_once() {
    let mut v = verification("https://matrix.example/userinfo", "t");
    assert!(matches!(
        v.step(VerifyEvent::Recalled(true)),
        VerifyAction::Accept { remember: false }
    ));
}

#[test]
fn homeserver_decides_by_its_status() {
    for (status, good) in [
        (Some(199), false),
        (Some(200), true),
        (Some(204), true),
        (Some(299), true),
        (Some(300), false),
        (Some(401), false),
        (None, false),
    ] {
        let mut v = verification("https://matrix.example/userinfo", "t");
        let _ = v.step(VerifyEvent::Recalled(false));
        let action = v.step(VerifyEvent::Answered(status));
        if good {
            assert!(matches!(action, VerifyAction::Accept { remember: true }));
        } else {
            assert!(matches!(action, VerifyAction::Reject));
        }
    }
}

#[test]
fn bad_endpoint_rejects_every_unknown_token() {
    let mut v = verification("no url", "t");
    assert!(matches!(
        v.step(VerifyEvent::Recalled(false)),
        VerifyAction::Reject
    ));
}

#[test]
fn events_out_of_turn_change_nothing() {
    let mut v = verification("https://matrix.example/userinfo", "t");
    assert!(matches!(
        v.step(VerifyEvent::Answered(Some(200))),
        VerifyAction::Ignore
    ));
    assert!(matches!(
        v.step(VerifyEvent::Recalled(false)),
        VerifyAction::Ask(_)
    ));
    assert!(matches!(
        v.step(VerifyEvent::Recalled(true)),
        VerifyAction::Ignore
    ));
    assert!(matches!(
        v.step(VerifyEvent::Answered(Some(403))),
        VerifyAction::Reject
    ));
    assert!(matches!(
        v.step(VerifyEvent::Answered(Some(200))),
        VerifyAction::Ignore
    ));
}

#[test]
fn homeserver_is_asked_where_it_can_be() {
    match ask_at(Some("https://x/".to_string())) {
        (VerifyStage::Asking, VerifyAction::Ask(url)) => assert_eq!(url, "https://x/"),
        _ => panic!("there is a url"),
    }
    assert!(matches!(
        ask_at(None),
        (VerifyStage::Done, VerifyAction::Reject)
    ));
}
