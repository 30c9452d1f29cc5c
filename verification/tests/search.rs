use axum::http::header;
use axum::http::HeaderMap;
use axum::http::HeaderValue;
use gif_bridge::giphy::check_content;
use gif_bridge::giphy::check_status;
use gif_bridge::giphy::gif_urls;
use gif_bridge::giphy::FoundGif;
use gif_bridge::giphy::GiphyClient;
use gif_bridge::giphy::GiphyError;
use gif_bridge::giphy::GiphyGif;
use gif_bridge::giphy::GiphyImage;
use gif_bridge::giphy::GiphyImages;
use gif_bridge::search::search_handler;
use gif_bridge::search::search_with_token;
use gif_bridge::search::to_result;
use gif_bridge::search::to_results;
use gif_bridge::search::SearchAction;
use gif_bridge::search::SearchEvent;
use gif_bridge::search::SearchParams;
use gif_bridge::search::SearchRequest;
use gif_bridge::status::StatusCode;

fn gif(width: Option<&str>, height: Option<&str>, size: Option<&str>) -> GiphyGif {
    GiphyGif {
        id: "abc123".to_string(),
        title: "Cat GIF".to_string(),
        url: "https://giphy.com/gifs/abc123".to_string(),
        images: GiphyImages {
            original: GiphyImage {
                url: "https://media.giphy.com/media/abc123/giphy.gif".to_string(),
                width: width.map(String::from),
                height: height.map(String::from),
                size: size.map(String::from),
            },
        },
    }
}

fn found(id: &str, fixed_width: Option<&str>) -> FoundGif {
    let mut gif = gif(None, None, None);
    gif.id = id.to_string();
    FoundGif {
        gif,
        fixed_width: fixed_width.map(String::from),
    }
}

fn params(q: &str, limit: Option<u32>) -> SearchParams {
    SearchParams {
        q: q.to_string(),
        limit,
    }
}

fn verified(q: &str, limit: Option<u32>) -> (SearchRequest, SearchAction) {
    let mut s = search_with_token("t", params(q, limit));
    let action = s.step(SearchEvent::Verified(true));
    (s, action)
}

fn calling(q: &str, limit: Option<u32>) -> (SearchRequest, SearchAction) {
    let (mut s, _) = verified(q, limit);
    let action = s.step(SearchEvent::Recalled(None));
    (s, action)
}

#[test]
fn maps_numeric_strings() {
    let result = to_result(gif(Some("480"), Some("270"), Some("1048576")));
    assert_eq!(result.width, Some(480));
    assert_eq!(result.height, Some(270));
    assert_eq!(result.size, Some(1_048_576));
    assert_eq!(result.mimetype, "image/gif");
    assert_eq!(result.thumb_url, "/api/gif/media/abc123");
    assert_eq!(result.full_url, "/api/gif/media/abc123");
}

#[test]
fn unparseable_dimensions_become_none() {
    let result = to_result(gif(Some("wide"), None, Some("-3")));
    assert_eq!(result.width, None);
    assert_eq!(result.height, None);
    assert_eq!(result.size, None);
}

#[test]
fn dimensions_that_do_not_fit_become_none() {
    let result = to_result(gif(
        Some("4294967295"),
        Some("4294967296"),
        Some("18446744073709551616"),
    ));
    assert_eq!(result.width, Some(u32::MAX));
    assert_eq!(result.height, None);
    assert_eq!(result.size, None);
}

#[test]
fn results_carry_id_title_and_page() {
    let result = to_result(gif(None, None, None));
    assert_eq!(result.id, "abc123");
    assert_eq!(result.title, "Cat GIF");
    assert_eq!(result.page_url, "https://giphy.com/gifs/abc123");
}

#[test]
fn results_keep_their_order() {
    let gifs = vec![found("b", None).gif, found("a", None).gif, found("c", None).gif];
    let ids: Vec<String> = to_results(gifs).into_iter().map(|r| r.id).collect();
    assert_eq!(ids, vec!["b", "a", "c"]);
    assert!(to_results(vec![]).is_empty());
}

#[test]
fn results_can_be_cloned() {
    let result = to_result(gif(Some("480"), None, Some("7")));
    let copy = result.clone();
    assert_eq!(copy.id, result.id);
    assert_eq!(copy.width, Some(480));
    assert_eq!(copy.height, None);
    assert_eq!(copy.size, Some(7));
    assert_eq!(copy.full_url, result.full_url);
}

#[test]
fn search_without_token_is_unauthorized() {
    match search_handler(&HeaderMap::new(), params("cats", None)) {
        Err(status) => assert_eq!(status.as_u16(), 401),
        Ok(_) => panic!("there is no token"),
    }
}

#[test]
fn search_takes_the_token_along() {
    let mut headers = HeaderMap::new();
    headers.insert(header::AUTHORIZATION, HeaderValue::from_static("Bearer abc123"));
    match search_handler(&headers, params("cats", None)) {
        Ok(s) => assert_eq!(s.token(), "abc123"),
        Err(_) => panic!("there is a token"),
    }
}

#[test]
fn bad_token_is_refused() {
    let mut s = search_with_token("t", params("cats", None));
    assert!(matches!(
        s.step(SearchEvent::Verified(false)),
        SearchAction::Refuse(StatusCode::Unauthorized)
    ));
    assert!(matches!(
        s.step(SearchEvent::Verified(true)),
        SearchAction::Ignore
    ));
}

#[test]
fn bad_token_comes_before_a_blank_query() {
    let mut s = search_with_token("t", params("", None));
    assert!(matches!(
        s.step(SearchEvent::Verified(false)),
        SearchAction::Refuse(StatusCode::Unauthorized)
    ));
}

#[test]
fn blank_query_finds_nothing() {
    for q in ["", " ", "\t\n", "\u{3000}\u{a0}"] {
        match verified(q, None).1 {
            SearchAction::Respond(results) => assert!(results.is_empty()),
            _ => panic!("there is nothing to search for"),
        }
    }
}

#[test]
fn limit_defaults_to_24_and_is_capped_at_50() {
    for (given, expected) in [
        (None, 24),
        (Some(0), 0),
        (Some(1), 1),
        (Some(50), 50),
        (Some(51), 50),
        (Some(u32::MAX), 50),
    ] {
        match verified("cats", given).1 {
            SearchAction::Recall { limit, .. } => assert_eq!(limit, expected),
            _ => panic!("the answer may be remembered"),
        }
    }
}

#[test]
fn answers_are_looked_up_by_the_trimmed_query() {
    for q in ["cats", " cats", "cats\n", "\u{2003}cats\t "] {
        match verified(q, None).1 {
            SearchAction::Recall { q, .. } => assert_eq!(q, "cats"),
            _ => panic!("the answer may be remembered"),
        }
    }
}

#[test]
fn query_is_sent_as_it_was_given() {
    match calling(" cats ", Some(99)).1 {
        SearchAction::Call { q, limit } => {
            assert_eq!(q, " cats ");
            assert_eq!(limit, 50);
        }
        _ => panic!("nothing is remembered"),
    }
}

#[test]
fn remembered_answer_is_given() {
    let (mut s, _) = verified("cats", None);
    let results = to_results(vec![gif(None, None, None)]);
    match s.step(SearchEvent::Recalled(Some(results))) {
        SearchAction::Respond(results) => {
            assert_eq!(results.len(), 1);
            assert_eq!(results[0].id, "abc123");
        }
        _ => panic!("the answer is remembered"),
    }
}

#[test]
fn found_gifs_are_published_and_recorded() {
    let (mut s, _) = calling(" cats ", None);
    let gifs = vec![
        found("abc", Some("https://media.giphy.com/media/abc/200w.gif")),
        found("../x", None),
        found("def", None),
    ];
    match s.step(SearchEvent::Replied(Ok(gifs))) {
        SearchAction::Publish {
            q,
            limit,
            results,
            records,
        } => {
            assert_eq!(q, "cats");
            assert_eq!(limit, 24);
            let ids: Vec<String> = results.into_iter().map(|r| r.id).collect();
            assert_eq!(ids, vec!["abc", "../x", "def"]);
            assert_eq!(records.len(), 2);
            assert_eq!(records[0].0, "abc");
            assert_eq!(records[0].1.thumb, "https://media.giphy.com/media/abc/200w.gif");
            assert_eq!(
                records[0].1.full,
                "https://media.giphy.com/media/abc123/giphy.gif"
            );
            assert_eq!(records[1].0, "def");
            assert_eq!(records[1].1.thumb, records[1].1.full);
        }
        _ => panic!("Giphy answered"),
    }
}

#[test]
fn failed_call_is_a_bad_gateway() {
    for error in [GiphyError::Request, GiphyError::Status(429)] {
        let (mut s, _) = calling("cats", None);
        match s.step(SearchEvent::Replied(Err(error))) {
            SearchAction::Refuse(status) => assert_eq!(status.as_u16(), 502),
            _ => panic!("Giphy did not answer"),
        }
    }
}

#[test]
fn search_ignores_events_out_of_turn() {
    let mut s = search_with_token("t", params("cats", None));
    assert!(matches!(
        s.step(SearchEvent::Recalled(None)),
        SearchAction::Ignore
    ));
    assert!(matches!(
        s.step(SearchEvent::Replied(Ok(vec![]))),
        SearchAction::Ignore
    ));
    assert!(matches!(
        s.step(SearchEvent::Verified(true)),
        SearchAction::Recall { .. }
    ));
}

#[test]
fn urls_of_a_gif_without_fixed_width_are_the_same() {
    let urls = gif_urls(&found("abc", None));
    assert_eq!(urls.full, "https://media.giphy.com/media/abc123/giphy.gif");
    assert_eq!(urls.thumb, urls.full);
    let urls = gif_urls(&found("abc", Some("https://x/200w.gif")));
    assert_eq!(urls.thumb, "https://x/200w.gif");
    assert_eq!(urls.clone().thumb, urls.thumb);
}

#[test]
fn search_url_holds_key_query_and_limit() {
    let client = GiphyClient::new("KEY/1".to_string());
    assert_eq!(
        client.search("cats & dogs", 24).unwrap(),
        "https://api.giphy.com/v1/gifs/search?api_key=KEY%2F1&q=cats+%26+dogs&limit=24"
    );
}

#[test]
fn lookup_url_holds_id_and_key() {
    let client = GiphyClient::new("KEY".to_string());
    assert_eq!(
        client.get_by_id("abc123"),
        "https://api.giphy.com/v1/gifs/abc123?api_key=KEY"
    );
}

#[test]
fn answers_of_giphy_are_judged() {
    assert_eq!(check_status(None), Err(GiphyError::Request));
    assert_eq!(check_status(Some(200)), Ok(()));
    assert_eq!(check_status(Some(299)), Ok(()));
    assert_eq!(check_status(Some(300)), Err(GiphyError::Status(300)));
    assert_eq!(check_status(Some(429)), Err(GiphyError::Status(429)));
    assert_eq!(check_content(Some(7)), Ok(7));
    assert_eq!(check_content::<u8>(None), Err(GiphyError::Request));
}

#[test]
fn statuses_have_their_numbers() {
    assert_eq!(StatusCode::Unauthorized.as_u16(), 401);
    assert_eq!(StatusCode::NotFound.as_u16(), 404);
    assert_eq!(StatusCode::InternalServerError.as_u16(), 500);
    assert_eq!(StatusCode::BadGateway.as_u16(), 502);
}
