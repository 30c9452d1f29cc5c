use gif_bridge::disk_cache::DiskCache;
use gif_bridge::downloads::Downloads;
use gif_bridge::giphy::GifUrls;
use gif_bridge::media::media_handler;
use gif_bridge::media::media_response;
use gif_bridge::media::valid_id;
use gif_bridge::media::CacheRead;
use gif_bridge::media::MediaAction;
use gif_bridge::media::MediaEvent;
use gif_bridge::media::MediaRequest;
use gif_bridge::media::Variant;
use gif_bridge::status::StatusCode;

fn begin(downloads: &mut Downloads, id: &str, variant: &str) -> (MediaRequest, MediaAction) {
    match media_handler(downloads, id, variant) {
        Ok(begun) => begun,
        Err(_) => panic!("the request is in order"),
    }
}

fn request(id: &str, variant: &str) -> MediaRequest {
    begin(&mut Downloads::new(), id, variant).0
}

/// A request that follows another one.
fn following() -> MediaRequest {
    let mut downloads = Downloads::new();
    let _ = begin(&mut downloads, "abc", "full");
    begin(&mut downloads, "abc", "full").0
}

fn urls() -> GifUrls {
    GifUrls {
        full: "https://media.giphy.com/media/abc/giphy.gif".to_string(),
        thumb: "https://media.giphy.com/media/abc/200w.gif".to_string(),
    }
}

fn fetching(variant: &str) -> MediaRequest {
    let mut m = request("abc", variant);
    let _ = m.step(MediaEvent::CacheRead(CacheRead::Missing));
    let _ = m.step(MediaEvent::Located(Some(urls())));
    m
}

fn streaming() -> MediaRequest {
    let mut m = fetching("full");
    let _ = m.step(MediaEvent::Replied(Some(200)));
    m
}

#[test]
fn parses_variants() {
    assert_eq!(Variant::parse("thumb"), Some(Variant::Thumb));
    assert_eq!(Variant::parse("full"), Some(Variant::Full));
    assert_eq!(Variant::parse("original"), None);
    assert_eq!(Variant::parse(""), None);
}

#[test]
fn accepts_giphy_shaped_ids() {
    assert!(valid_id("3o7aD2saalBwwftBIY"));
    assert!(valid_id("l0HlBO7eyXzSZkJri"));
    assert!(valid_id("abc-123_XYZ"));
}

#[test]
fn rejects_path_traversal_shaped_ids() {
    assert!(!valid_id(""));
    assert!(!valid_id(".."));
    assert!(!valid_id("../../etc/passwd"));
    assert!(!valid_id("abc/def"));
    assert!(!valid_id("abc.gif"));
}

#[test]
fn ids_are_judged_character_by_character() {
    for b in 0u8..=127 {
        let c = b as char;
        let id: String = vec!['a', c, 'b'].into_iter().collect();
        let expected = c.is_ascii_alphanumeric() || c == '-' || c == '_';
        assert_eq!(valid_id(&id), expected, "{c:?}");
    }
    assert!(!valid_id("caf\u{e9}"));
    assert!(!valid_id("\u{ff11}"));
}

#[test]
fn words_of_variants_read_back() {
    for v in [Variant::Thumb, Variant::Full] {
        assert_eq!(Variant::parse(v.as_str()), Some(v));
    }
    assert_eq!(Variant::Thumb.as_str(), "thumb");
    assert_eq!(Variant::Full.as_str(), "full");
    assert_eq!(Variant::parse("Thumb"), None);
}

#[test]
fn bad_requests_are_not_found() {
    for (id, variant) in [
        ("abc", "original"),
        ("abc", ""),
        ("", "full"),
        ("..", "thumb"),
        ("a/b", "nope"),
    ] {
        let mut downloads = Downloads::new();
        assert!(matches!(
            media_handler(&mut downloads, id, variant),
            Err(StatusCode::NotFound)
        ));
        assert!(downloads.join(&format!("{id}.{variant}")));
    }
}

#[test]
fn cache_keys_name_the_rendition() {
    assert_eq!(request("abc", "full").cache_key(), "abc.full");
    assert_eq!(request("abc", "thumb").cache_key(), "abc.thumb");
    assert_eq!(request("a-b_c", "thumb").cache_key(), "a-b_c.thumb");
}

#[test]
fn responses_may_be_kept_for_good() {
    let r = media_response(vec![1, 2, 3]);
    assert_eq!(r.content_type, "image/gif");
    assert_eq!(r.cache_control, "public, max-age=31536000, immutable");
    assert_eq!(r.body, vec![1, 2, 3]);
}

#[test]
fn cached_media_are_served() {
    let mut m = request("abc", "full");
    match m.step(MediaEvent::CacheRead(CacheRead::Bytes(b"GIF89a".to_vec()))) {
        MediaAction::Respond(r) => {
            assert_eq!(r.content_type, "image/gif");
            assert_eq!(r.body, b"GIF89a".to_vec());
        }
        _ => panic!("the cache has it"),
    }
}

#[test]
fn unreadable_entry_is_an_internal_error() {
    let mut m = request("abc", "full");
    match m.step(MediaEvent::CacheRead(CacheRead::Unreadable)) {
        MediaAction::Refuse(status) => assert_eq!(status.as_u16(), 500),
        _ => panic!("the entry cannot be read"),
    }
}

#[test]
fn unknown_id_is_a_404_and_not_a_fetch() {
    let mut m = request("abc", "full");
    match m.step(MediaEvent::CacheRead(CacheRead::Missing)) {
        MediaAction::Locate(id) => assert_eq!(id, "abc"),
        _ => panic!("the urls are to be found"),
    }
    match m.step(MediaEvent::Located(None)) {
        MediaAction::Refuse(status) => assert_eq!(status.as_u16(), 404),
        _ => panic!("there are no urls"),
    }
}

#[test]
fn each_variant_is_fetched_from_its_own_url() {
    for (variant, url) in [("thumb", urls().thumb), ("full", urls().full)] {
        let mut m = request("abc", variant);
        let _ = m.step(MediaEvent::CacheRead(CacheRead::Missing));
        match m.step(MediaEvent::Located(Some(urls()))) {
            MediaAction::Fetch(source) => assert_eq!(source, url),
            _ => panic!("the rendition is to be fetched"),
        }
    }
}

#[test]
fn first_request_leads_and_others_follow() {
    let mut downloads = Downloads::new();
    match begin(&mut downloads, "abc", "full").1 {
        MediaAction::ReadCache(key) => assert_eq!(key, "abc.full"),
        _ => panic!("it is the first"),
    }
    assert!(!downloads.join("abc.full"));
    match begin(&mut downloads, "abc", "full").1 {
        MediaAction::AwaitDownload(key) => assert_eq!(key, "abc.full"),
        _ => panic!("another one leads"),
    }
    assert!(matches!(
        begin(&mut downloads, "abc", "thumb").1,
        MediaAction::ReadCache(_)
    ));
    downloads.end("abc.full");
    assert!(matches!(
        begin(&mut downloads, "abc", "full").1,
        MediaAction::ReadCache(_)
    ));
}

#[test]
fn followers_are_answered_with_the_shared_body() {
    let mut m = following();
    match m.step(MediaEvent::DownloadEnded(Some(vec![7, 8]))) {
        MediaAction::Respond(r) => {
            assert_eq!(r.content_type, "image/gif");
            assert_eq!(r.cache_control, "public, max-age=31536000, immutable");
            assert_eq!(r.body, vec![7, 8]);
        }
        _ => panic!("there is a body"),
    }
}

#[test]
fn follower_of_a_failed_request_tries_itself() {
    let mut m = following();
    match m.step(MediaEvent::DownloadEnded(None)) {
        MediaAction::Join(key) => assert_eq!(key, "abc.full"),
        _ => panic!("there is no body"),
    }
    match m.step(MediaEvent::Joined(true)) {
        MediaAction::ReadCache(key) => assert_eq!(key, "abc.full"),
        _ => panic!("it leads now"),
    }
    assert!(matches!(
        m.step(MediaEvent::CacheRead(CacheRead::Missing)),
        MediaAction::Locate(_)
    ));
    let mut m = following();
    let _ = m.step(MediaEvent::DownloadEnded(None));
    match m.step(MediaEvent::Joined(false)) {
        MediaAction::AwaitDownload(key) => assert_eq!(key, "abc.full"),
        _ => panic!("another one leads"),
    }
}

#[test]
fn concurrent_requests_fetch_once_though_nothing_can_be_cached() {
    // The cache holds nothing at all.
    let (mut cache, _) = DiskCache::open(&vec![], 0);
    let mut downloads = Downloads::new();
    let (mut leader, _) = begin(&mut downloads, "abc", "full");
    let mut followers: Vec<MediaRequest> = vec![];
    for _ in 0..5 {
        followers.push(begin(&mut downloads, "abc", "full").0);
    }
    let mut fetches = 0;
    let _ = leader.step(MediaEvent::CacheRead(CacheRead::Missing));
    if let MediaAction::Fetch(_) = leader.step(MediaEvent::Located(Some(urls()))) {
        fetches += 1;
    }
    let _ = leader.step(MediaEvent::Replied(Some(200)));
    let _ = leader.step(MediaEvent::Chunk(vec![1, 2]));
    let _ = leader.step(MediaEvent::Chunk(vec![3]));
    let shared = match leader.step(MediaEvent::Ended) {
        MediaAction::Commit { key, body } => {
            assert_eq!(cache.commit(&key, body.len() as u64), vec!["abc.full"]);
            downloads.end(&key);
            body
        }
        _ => panic!("the file is complete"),
    };
    assert_eq!(cache.get("abc.full"), None);
    for mut follower in followers {
        match follower.step(MediaEvent::DownloadEnded(Some(shared.clone()))) {
            MediaAction::Respond(r) => assert_eq!(r.body, vec![1, 2, 3]),
            MediaAction::Fetch(_) => fetches += 1,
            _ => panic!("there is a body"),
        }
    }
    assert_eq!(fetches, 1);
}

#[test]
fn streamed_answer_has_the_headers_of_a_cached_one() {
    let mut m = fetching("full");
    match m.step(MediaEvent::Replied(Some(200))) {
        MediaAction::Stream {
            content_type,
            cache_control,
        } => {
            assert_eq!(content_type, "image/gif");
            assert_eq!(cache_control, "public, max-age=31536000, immutable");
        }
        _ => panic!("the CDN answered"),
    }
}

#[test]
fn failed_fetch_is_a_bad_gateway() {
    for status in [None, Some(404), Some(500), Some(302), Some(199)] {
        let mut m = fetching("full");
        match m.step(MediaEvent::Replied(status)) {
            MediaAction::Refuse(status) => assert_eq!(status.as_u16(), 502),
            _ => panic!("the CDN did not answer"),
        }
    }
}

#[test]
fn body_is_relayed_and_written_and_committed() {
    let mut m = streaming();
    let mut sent: Vec<u8> = vec![];
    let mut written: Vec<u8> = vec![];
    for part in [vec![1, 2], vec![], vec![3]] {
        match m.step(MediaEvent::Chunk(part)) {
            MediaAction::Relay { chunk, write } => {
                sent.extend(&chunk);
                if write {
                    written.extend(&chunk);
                }
            }
            _ => panic!("the part is to be sent on"),
        }
    }
    match m.step(MediaEvent::Ended) {
        MediaAction::Commit { key, body } => {
            assert_eq!(key, "abc.full");
            assert_eq!(body, vec![1, 2, 3]);
        }
        _ => panic!("the file is complete"),
    }
    assert_eq!(sent, vec![1, 2, 3]);
    assert_eq!(written, sent);
}

#[test]
fn failed_write_only_costs_the_entry() {
    let mut m = streaming();
    let _ = m.step(MediaEvent::Chunk(vec![1]));
    assert!(matches!(
        m.step(MediaEvent::WriteFailed),
        MediaAction::Discard
    ));
    assert!(matches!(m.step(MediaEvent::WriteFailed), MediaAction::Ignore));
    match m.step(MediaEvent::Chunk(vec![2])) {
        MediaAction::Relay { chunk, write } => {
            assert_eq!(chunk, vec![2]);
            assert!(!write);
        }
        _ => panic!("the part is to be sent on"),
    }
    match m.step(MediaEvent::Ended) {
        MediaAction::Close { body } => assert_eq!(body, vec![1, 2]),
        _ => panic!("there is no file"),
    }
}

#[test]
fn broken_body_is_never_committed() {
    let mut m = streaming();
    assert!(matches!(
        m.step(MediaEvent::Broken),
        MediaAction::Refuse(StatusCode::BadGateway)
    ));
    let mut m = streaming();
    let _ = m.step(MediaEvent::Chunk(vec![1]));
    assert!(matches!(m.step(MediaEvent::Broken), MediaAction::Abort));
    assert!(matches!(m.step(MediaEvent::Ended), MediaAction::Ignore));
}

#[test]
fn unexpected_events_are_ignored() {
    let mut m = request("abc", "full");
    assert!(matches!(m.step(MediaEvent::Ended), MediaAction::Ignore));
    assert!(matches!(
        m.step(MediaEvent::Joined(true)),
        MediaAction::Ignore
    ));
    assert!(matches!(
        m.step(MediaEvent::CacheRead(CacheRead::Missing)),
        MediaAction::Locate(_)
    ));
}
