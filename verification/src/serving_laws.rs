//! What a request for media does at each step, said of what it is told.
use crate::downloads::Downloads;
use crate::giphy::GifUrls;
use crate::media::arrival;
use crate::media::cache_key;
use crate::media::is_id_char;
use crate::media::is_valid_id;
use crate::media::media_handler;
use crate::media::media_next;
use crate::media::media_response;
use crate::media::rendition;
use crate::media::serve;
use crate::media::valid_id;
use crate::media::variant_named;
use crate::media::CacheRead;
use crate::media::MediaAction;
use crate::media::MediaActionView;
use crate::media::MediaEvent;
use crate::media::MediaRequest;
use crate::media::MediaRequestView;
use crate::media::MediaResponse;
use crate::media::MediaStage;
use crate::media::Variant;
use crate::status::StatusCode;
use vstd::prelude::*;

verus! {

/// There are two words for a variant, `thumb` and `full`, and each stands for its
/// own.
pub proof fn variants_have_their_words(s: Seq<char>)
    ensures
        variant_named(s) == Some(Variant::Thumb) <==> s == "thumb"@,
        variant_named(s) == Some(Variant::Full) <==> s == "full"@,
        variant_named(s) is None <==> s != "thumb"@ && s != "full"@,
        Variant::Thumb.word() == "thumb"@,
        Variant::Full.word() == "full"@,
{
    reveal_strlit("thumb");
    reveal_strlit("full");
    assert("thumb"@.len() != "full"@.len());
}

/// An id is valid exactly if it has characters, and all of them are ASCII letters,
/// ASCII digits, hyphens or underscores.
pub proof fn ids_by_code_point(id: Seq<char>)
    ensures
        is_valid_id(id) <==> id.len() > 0 && forall|i: int|
            0 <= i < id.len() ==> {
                let n = (#[trigger] id[i]) as int;
                ||| 48 <= n <= 57
                ||| 65 <= n <= 90
                ||| 97 <= n <= 122
                ||| n == 45
                ||| n == 95
            },
{
    assert(forall|c: char| #[trigger]
        is_id_char(c) <==> {
            let n = c as int;
            ||| 48 <= n <= 57
            ||| 65 <= n <= 90
            ||| 97 <= n <= 122
            ||| n == 45
            ||| n == 95
        });
    if is_valid_id(id) {
        assert forall|i: int| 0 <= i < id.len() implies {
            let n = (#[trigger] id[i]) as int;
            ||| 48 <= n <= 57
            ||| 65 <= n <= 90
            ||| 97 <= n <= 122
            ||| n == 45
            ||| n == 95
        } by {
            assert(is_id_char(id[i]));
        }
    }
    if id.len() > 0 && forall|i: int|
        0 <= i < id.len() ==> {
            let n = (#[trigger] id[i]) as int;
            ||| 48 <= n <= 57
            ||| 65 <= n <= 90
            ||| 97 <= n <= 122
            ||| n == 45
            ||| n == 95
        } {
        assert forall|i: int| 0 <= i < id.len() implies is_id_char(#[trigger] id[i]) by {}
    }
}

/// A rendition is cached under the id, a dot and the word for it.
pub proof fn keys_name_id_and_variant(id: Seq<char>)
    ensures
        cache_key(id, Variant::Thumb) == id + ".thumb"@,
        cache_key(id, Variant::Full) == id + ".full"@,
{
    reveal_strlit(".");
    reveal_strlit("thumb");
    reveal_strlit("full");
    reveal_strlit(".thumb");
    reveal_strlit(".full");
    assert(cache_key(id, Variant::Thumb) =~= id + ".thumb"@);
    assert(cache_key(id, Variant::Full) =~= id + ".full"@);
}

/// What is served is a gif, may be kept for good, and has these bytes.
pub proof fn served_as_a_gif(bytes: Seq<u8>)
    ensures
        serve(bytes) == (MediaActionView::Respond {
            content_type: "image/gif"@,
            cache_control: "public, max-age=31536000, immutable"@,
            body: bytes,
        }),
{
}

/// The first request for a rendition looks into the cache under its key, and one
/// that comes while another has that key waits for it.
pub proof fn first_request_looks_and_others_wait(
    leading: Set<Seq<char>>,
    id: Seq<char>,
    variant: Variant,
)
    ensures
        ({
            let key = if variant == Variant::Thumb {
                id + ".thumb"@
            } else {
                id + ".full"@
            };
            let (m, action) = arrival(leading, id, variant);
            &&& m.id == id
            &&& m.variant == variant
            &&& m.body.len() == 0
            &&& !leading.contains(key) ==> m.stage == MediaStage::Looking && action
                == MediaActionView::ReadCache(key)
            &&& leading.contains(key) ==> m.stage == MediaStage::Following && action
                == MediaActionView::AwaitDownload(key)
        }),
{
    keys_name_id_and_variant(id);
}

/// What the cache has decides how a request that leads goes on: bytes are served,
/// an entry that cannot be read is an internal error, and for what is missing the
/// urls of its id are found.
pub proof fn cache_is_asked_first(m: MediaRequestView, bytes: Vec<u8>)
    requires
        m.stage == MediaStage::Looking,
    ensures
        ({
            let (after, action) = media_next(
                m,
                MediaEvent::CacheRead(CacheRead::Bytes(bytes)),
            );
            after.stage == MediaStage::Done && action == (MediaActionView::Respond {
                content_type: "image/gif"@,
                cache_control: "public, max-age=31536000, immutable"@,
                body: bytes@,
            })
        }),
        ({
            let (after, action) = media_next(m, MediaEvent::CacheRead(CacheRead::Unreadable));
            after.stage == MediaStage::Done && action == MediaActionView::Refuse(
                StatusCode::InternalServerError,
            )
        }),
        ({
            let (after, action) = media_next(m, MediaEvent::CacheRead(CacheRead::Missing));
            &&& after == (MediaRequestView { stage: MediaStage::Locating, ..m })
            &&& action == MediaActionView::Locate(m.id)
        }),
{
}

/// A thumbnail is fetched from the url of the thumbnail, a full rendition from the
/// url of the full one, whatever the two are; and without urls it is not found.
pub proof fn each_variant_has_its_own_url(m: MediaRequestView, urls: GifUrls)
    requires
        m.stage == MediaStage::Locating,
    ensures
        m.variant == Variant::Thumb ==> media_next(m, MediaEvent::Located(Some(urls))).1
            == MediaActionView::Fetch(urls.thumb@),
        m.variant == Variant::Full ==> media_next(m, MediaEvent::Located(Some(urls))).1
            == MediaActionView::Fetch(urls.full@),
        media_next(m, MediaEvent::Located(Some(urls))).0 == (MediaRequestView {
            stage: MediaStage::Fetching,
            ..m
        }),
        media_next(m, MediaEvent::Located(None::<GifUrls>)).0.stage == MediaStage::Done,
        media_next(m, MediaEvent::Located(None::<GifUrls>)).1 == MediaActionView::Refuse(
            StatusCode::NotFound,
        ),
        rendition(urls@, Variant::Thumb) == urls.thumb@,
        rendition(urls@, Variant::Full) == urls.full@,
{
}

/// The CDN's answer is streamed if its status is one from 200 to 299, as a gif
/// that may be kept for good; with any other status, or none, the gateway is bad.
pub proof fn good_answers_are_streamed(m: MediaRequestView, status: Option<u16>)
    requires
        m.stage == MediaStage::Fetching,
    ensures
        status is Some && status->0 as int / 100 == 2 ==> media_next(
            m,
            MediaEvent::Replied(status),
        ) == (
            MediaRequestView { stage: MediaStage::Streaming { begun: false, caching: true }, ..m },
            MediaActionView::Stream {
                content_type: "image/gif"@,
                cache_control: "public, max-age=31536000, immutable"@,
            },
        ),
        !(status is Some && status->0 as int / 100 == 2) ==> media_next(
            m,
            MediaEvent::Replied(status),
        ).0.stage == MediaStage::Done && media_next(m, MediaEvent::Replied(status)).1
            == MediaActionView::Refuse(StatusCode::BadGateway),
{
}

/// Every part of a body is sent on as it is, written as long as writing works, and
/// kept; a write that fails only stops the writing; a body that is complete
/// becomes the entry under the key of the rendition, if all of it was written, and
/// is shared in any case; and one that breaks off becomes nothing.
pub proof fn bodies_are_sent_on_and_kept(
    m: MediaRequestView,
    begun: bool,
    caching: bool,
    chunk: Vec<u8>,
)
    requires
        m.stage == (MediaStage::Streaming { begun, caching }),
    ensures
        ({
            let (after, action) = media_next(m, MediaEvent::Chunk(chunk));
            &&& after.body == m.body + chunk@
            &&& after.stage == (MediaStage::Streaming { begun: true, caching })
            &&& after.id == m.id
            &&& after.variant == m.variant
            &&& action == (MediaActionView::Relay { chunk: chunk@, write: caching })
        }),
        caching ==> media_next(m, MediaEvent::WriteFailed) == (
            MediaRequestView { stage: MediaStage::Streaming { begun, caching: false }, ..m },
            MediaActionView::Discard,
        ),
        !caching ==> media_next(m, MediaEvent::WriteFailed) == (m, MediaActionView::Ignore),
        media_next(m, MediaEvent::Ended).0.stage == MediaStage::Done,
        caching && m.variant == Variant::Thumb ==> media_next(m, MediaEvent::Ended).1 == (
        MediaActionView::Commit { key: m.id + ".thumb"@, body: m.body }),
        caching && m.variant == Variant::Full ==> media_next(m, MediaEvent::Ended).1 == (
        MediaActionView::Commit { key: m.id + ".full"@, body: m.body }),
        !caching ==> media_next(m, MediaEvent::Ended).1 == (MediaActionView::Close {
            body: m.body,
        }),
        media_next(m, MediaEvent::Broken).0.stage == MediaStage::Done,
        begun ==> media_next(m, MediaEvent::Broken).1 == MediaActionView::Abort,
        !begun ==> media_next(m, MediaEvent::Broken).1 == MediaActionView::Refuse(
            StatusCode::BadGateway,
        ),
{
    keys_name_id_and_variant(m.id);
}

/// A request that follows another is answered with the body that one shares; if it
/// shares none, it joins again under its own key, and looks into the cache if it
/// leads then, or waits again if it does not.
pub proof fn followers_get_the_body_or_join_again(m: MediaRequestView, body: Vec<u8>)
    ensures
        ({
            let key = if m.variant == Variant::Thumb {
                m.id + ".thumb"@
            } else {
                m.id + ".full"@
            };
            &&& m.stage == MediaStage::Following ==> {
                let (after, action) = media_next(m, MediaEvent::DownloadEnded(Some(body)));
                after.stage == MediaStage::Done && action == (MediaActionView::Respond {
                    content_type: "image/gif"@,
                    cache_control: "public, max-age=31536000, immutable"@,
                    body: body@,
                })
            }
            &&& m.stage == MediaStage::Following ==> media_next(
                m,
                MediaEvent::DownloadEnded(None::<Vec<u8>>),
            ) == (
                MediaRequestView { stage: MediaStage::Joining, ..m },
                MediaActionView::Join(key),
            )
            &&& m.stage == MediaStage::Joining ==> media_next(m, MediaEvent::Joined(true)) == (
                MediaRequestView { stage: MediaStage::Looking, ..m },
                MediaActionView::ReadCache(key),
            )
            &&& m.stage == MediaStage::Joining ==> media_next(m, MediaEvent::Joined(false)) == (
                MediaRequestView { stage: MediaStage::Following, ..m },
                MediaActionView::AwaitDownload(key),
            )
        }),
{
    keys_name_id_and_variant(m.id);
}

/// What a request does not wait for changes nothing.
pub proof fn only_awaited_events_count(m: MediaRequestView, event: MediaEvent)
    requires
        m.stage == MediaStage::Looking ==> !(event is CacheRead),
        m.stage == MediaStage::Locating ==> !(event is Located),
        m.stage == MediaStage::Fetching ==> !(event is Replied),
        m.stage is Streaming ==> !(event is Chunk || event is WriteFailed || event is Ended
            || event is Broken),
        m.stage == MediaStage::Following ==> !(event is DownloadEnded),
        m.stage == MediaStage::Joining ==> !(event is Joined),
    ensures
        media_next(m, event) == (m, MediaActionView::Ignore),
{
}

/// An action says what it holds.
pub proof fn media_actions_say_what_they_hold(
    text: String,
    content_type: &'static str,
    cache_control: &'static str,
    bytes: Vec<u8>,
    write: bool,
    status: StatusCode,
)
    ensures
        MediaAction::ReadCache(text)@ == MediaActionView::ReadCache(text@),
        MediaAction::Locate(text)@ == MediaActionView::Locate(text@),
        MediaAction::Fetch(text)@ == MediaActionView::Fetch(text@),
        (MediaAction::Stream { content_type, cache_control })@ == (MediaActionView::Stream {
            content_type: content_type@,
            cache_control: cache_control@,
        }),
        (MediaAction::Relay { chunk: bytes, write })@ == (MediaActionView::Relay {
            chunk: bytes@,
            write,
        }),
        MediaAction::Discard@ == MediaActionView::Discard,
        (MediaAction::Commit { key: text, body: bytes })@ == (MediaActionView::Commit {
            key: text@,
            body: bytes@,
        }),
        (MediaAction::Close { body: bytes })@ == (MediaActionView::Close { body: bytes@ }),
        MediaAction::Abort@ == MediaActionView::Abort,
        MediaAction::AwaitDownload(text)@ == MediaActionView::AwaitDownload(text@),
        MediaAction::Join(text)@ == MediaActionView::Join(text@),
        MediaAction::Respond(MediaResponse { content_type, cache_control, body: bytes })@ == (
        MediaActionView::Respond {
            content_type: content_type@,
            cache_control: cache_control@,
            body: bytes@,
        }),
        MediaAction::Refuse(status)@ == MediaActionView::Refuse(status),
        MediaAction::Ignore@ == MediaActionView::Ignore,
{
}

/// The number of each refusal is that of HTTP.
pub proof fn refusals_have_their_numbers(status: StatusCode, number: u16)
    requires
        call_ensures(StatusCode::as_u16, (status,), number),
    ensures
        status == StatusCode::Unauthorized ==> number == 401,
        status == StatusCode::NotFound ==> number == 404,
        status == StatusCode::InternalServerError ==> number == 500,
        status == StatusCode::BadGateway ==> number == 502,
        status.number() == number,
{
}

/// What is given for words, ids and bodies is what is said of them here.
pub proof fn media_helpers_keep_their_word(
    s: &str,
    named: Option<Variant>,
    variant: Variant,
    word: &'static str,
    valid: bool,
    body: Vec<u8>,
    response: MediaResponse,
)
    requires
        call_ensures(Variant::parse, (s,), named),
        call_ensures(Variant::as_str, (variant,), word),
        call_ensures(valid_id, (s,), valid),
        call_ensures(media_response, (body,), response),
    ensures
        named == Some(Variant::Thumb) <==> s@ == "thumb"@,
        named == Some(Variant::Full) <==> s@ == "full"@,
        named is None <==> s@ != "thumb"@ && s@ != "full"@,
        variant == Variant::Thumb ==> word@ == "thumb"@,
        variant == Variant::Full ==> word@ == "full"@,
        valid <==> is_valid_id(s@),
        response.content_type@ == "image/gif"@,
        response.cache_control@ == "public, max-age=31536000, immutable"@,
        response.body@ == body@,
{
    variants_have_their_words(s@);
}

/// A request is taken exactly if its id is valid and its variant is `thumb` or
/// `full`, and is for these; any other is not found, and joins nothing. Each step
/// of it is the one described.
pub proof fn requests_are_for_what_was_asked(
    downloads: &mut Downloads,
    id: &str,
    variant: &str,
    r: Result<(MediaRequest, MediaAction), StatusCode>,
    m: &mut MediaRequest,
    event: MediaEvent,
    action: MediaAction,
    key: String,
)
    requires
        call_ensures(media_handler, (downloads, id, variant), r),
        call_ensures(MediaRequest::step, (m, event), action),
        call_ensures(MediaRequest::cache_key, (&*old(m),), key),
    ensures
        r is Ok <==> is_valid_id(id@) && (variant@ == "thumb"@ || variant@ == "full"@),
        r is Err ==> r->Err_0 == StatusCode::NotFound && final(downloads)@ == old(downloads)@,
        r is Ok ==> {
            let wanted = if variant@ == "thumb"@ {
                Variant::Thumb
            } else {
                Variant::Full
            };
            let name = if variant@ == "thumb"@ {
                id@ + ".thumb"@
            } else {
                id@ + ".full"@
            };
            &&& r->Ok_0.0@ == arrival(old(downloads)@, id@, wanted).0
            &&& r->Ok_0.1@ == arrival(old(downloads)@, id@, wanted).1
            &&& final(downloads)@ == old(downloads)@.insert(name)
        },
        final(m)@ == media_next(old(m)@, event).0,
        action@ == media_next(old(m)@, event).1,
        key@ == old(m)@.key(),
        old(m)@.variant == Variant::Thumb ==> key@ == old(m)@.id + ".thumb"@,
        old(m)@.variant == Variant::Full ==> key@ == old(m)@.id + ".full"@,
{
    variants_have_their_words(variant@);
    keys_name_id_and_variant(id@);
    keys_name_id_and_variant(old(m)@.id);
}

} // verus!
