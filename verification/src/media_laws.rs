//! What holds of requests for media, whatever happens to them.
use crate::giphy::is_success;
use crate::giphy::GifUrls;
use crate::media::cache_key;
use crate::media::is_id_char;
use crate::media::is_valid_id;
use crate::media::media_next;
use crate::media::rendition;
use crate::media::serve;
use crate::media::variant_named;
use crate::media::CacheRead;
use crate::media::MediaActionView;
use crate::media::MediaEvent;
use crate::media::MediaRequestView;
use crate::media::MediaStage;
use crate::media::Variant;
use crate::status::StatusCode;
use crate::text::ends_in;
use vstd::prelude::*;

verus! {

/// Whether a request has just begun: it leads, or follows another.
pub open spec fn fresh(m: MediaRequestView) -> bool {
    (m.stage == MediaStage::Looking || m.stage == MediaStage::Following) && m.body.len() == 0
}

/// A request after a row of events.
pub open spec fn media_after(m: MediaRequestView, events: Seq<MediaEvent>) -> MediaRequestView
    decreases events.len(),
{
    if events.len() == 0 {
        m
    } else {
        media_next(media_after(m, events.drop_last()), events.last()).0
    }
}

/// What a request asks for at each of a row of events.
pub open spec fn media_actions(m: MediaRequestView, events: Seq<MediaEvent>) -> Seq<MediaActionView>
    decreases events.len(),
{
    if events.len() == 0 {
        Seq::empty()
    } else {
        media_actions(m, events.drop_last()).push(
            media_next(media_after(m, events.drop_last()), events.last()).1,
        )
    }
}

/// The bytes that a row of actions sends on.
pub open spec fn sent_on(actions: Seq<MediaActionView>) -> Seq<u8>
    decreases actions.len(),
{
    if actions.len() == 0 {
        Seq::empty()
    } else {
        match actions.last() {
            MediaActionView::Relay { chunk, write } => sent_on(actions.drop_last()) + chunk,
            _ => sent_on(actions.drop_last()),
        }
    }
}

/// The bytes that a row of actions writes to the temporary file; there are none
/// once the file is discarded.
pub open spec fn on_disk(actions: Seq<MediaActionView>) -> Seq<u8>
    decreases actions.len(),
{
    if actions.len() == 0 {
        Seq::empty()
    } else {
        match actions.last() {
            MediaActionView::Relay { chunk, write } => if write {
                on_disk(actions.drop_last()) + chunk
            } else {
                on_disk(actions.drop_last())
            },
            MediaActionView::Discard => Seq::empty(),
            _ => on_disk(actions.drop_last()),
        }
    }
}

/// The body that the CDN sent, as far as it came while it was being read.
pub open spec fn body_read(m: MediaRequestView, events: Seq<MediaEvent>) -> Seq<u8>
    decreases events.len(),
{
    if events.len() == 0 {
        Seq::empty()
    } else {
        let before = body_read(m, events.drop_last());
        match (media_after(m, events.drop_last()).stage, events.last()) {
            (MediaStage::Streaming { begun, caching }, MediaEvent::Chunk(chunk)) => before + chunk@,
            _ => before,
        }
    }
}

/// How far a request has come, up to its download.
spec fn before_body(stage: MediaStage) -> bool {
    match stage {
        MediaStage::Streaming { begun, caching } => false,
        MediaStage::Done => false,
        _ => true,
    }
}

proof fn media_history(m: MediaRequestView, events: Seq<MediaEvent>)
    requires
        fresh(m),
    ensures
        media_after(m, events).id == m.id,
        media_after(m, events).variant == m.variant,
        media_actions(m, events).len() == events.len(),
        sent_on(media_actions(m, events)) == body_read(m, events),
        media_after(m, events).stage is Streaming ==> media_after(m, events).body == body_read(
            m,
            events,
        ),
        before_body(media_after(m, events).stage) ==> media_after(m, events).body.len() == 0,
        before_body(media_after(m, events).stage) ==> sent_on(media_actions(m, events)).len() == 0
            && on_disk(media_actions(m, events)).len() == 0,
        media_after(m, events).stage matches MediaStage::Streaming { begun, caching } ==> !begun
            ==> sent_on(media_actions(m, events)).len() == 0,
        media_after(m, events).stage matches MediaStage::Streaming { begun, caching } ==> caching
            ==> on_disk(media_actions(m, events)) == sent_on(media_actions(m, events)),
    decreases events.len(),
{
    if events.len() > 0 {
        let rest = events.drop_last();
        media_history(m, rest);
        let done = media_actions(m, rest);
        let all = media_actions(m, events);
        assert(all.drop_last() =~= done);
        assert(on_disk(done) + Seq::<u8>::empty() =~= on_disk(done));
        let before = media_after(m, rest);
        if before_body(before.stage) {
            assert(sent_on(done) =~= Seq::<u8>::empty());
            assert(on_disk(done) =~= Seq::<u8>::empty());
        }
    }
}

proof fn prefix_of_actions(m: MediaRequestView, events: Seq<MediaEvent>, n: int)
    requires
        0 <= n <= events.len(),
    ensures
        media_actions(m, events).len() == events.len(),
        media_actions(m, events.take(n)) == media_actions(m, events).take(n),
    decreases events.len(),
{
    if n < events.len() {
        prefix_of_actions(m, events.drop_last(), n);
        assert(events.drop_last().take(n) =~= events.take(n));
        assert(media_actions(m, events).take(n) =~= media_actions(m, events.drop_last()).take(n));
    } else {
        assert(events.take(n) =~= events);
        if n > 0 {
            prefix_of_actions(m, events.drop_last(), n - 1);
        }
        assert(media_actions(m, events).take(n) =~= media_actions(m, events));
    }
}

proof fn action_at(m: MediaRequestView, events: Seq<MediaEvent>, i: int)
    requires
        0 <= i < events.len(),
    ensures
        media_actions(m, events).len() == events.len(),
        media_actions(m, events)[i] == media_next(media_after(m, events.take(i)), events[i]).1,
        media_after(m, events.take(i + 1)) == media_next(
            media_after(m, events.take(i)),
            events[i],
        ).0,
{
    prefix_of_actions(m, events, i + 1);
    let upto = events.take(i + 1);
    assert(upto.drop_last() =~= events.take(i));
    assert(upto.last() == events[i]);
    assert(media_actions(m, upto)[i] == media_actions(m, events)[i]);
    prefix_of_actions(m, events.take(i), i);
}

/// Only a whole file becomes an entry: when a request commits, the body has
/// ended, and what is on disk is what was sent on, which is all that was read.
/// What it commits to is the key of the rendition that was asked for.
pub proof fn only_whole_files_are_committed(
    m: MediaRequestView,
    events: Seq<MediaEvent>,
    i: int,
    key: Seq<char>,
    body: Seq<u8>,
)
    requires
        fresh(m),
        0 <= i < events.len(),
        media_actions(m, events)[i] == (MediaActionView::Commit { key, body }),
    ensures
        events[i] is Ended,
        key == m.key(),
        body == body_read(m, events.take(i)),
        on_disk(media_actions(m, events).take(i)) == body_read(m, events.take(i)),
        sent_on(media_actions(m, events).take(i)) == body_read(m, events.take(i)),
{
    action_at(m, events, i);
    media_history(m, events.take(i));
    prefix_of_actions(m, events, i);
}

/// What a request that downloads shares in the end is all that it read, whether
/// or not it could be written to disk.
pub proof fn all_that_was_read_is_shared(
    m: MediaRequestView,
    events: Seq<MediaEvent>,
    i: int,
    body: Seq<u8>,
)
    requires
        fresh(m),
        0 <= i < events.len(),
        media_actions(m, events)[i] == (MediaActionView::Close { body }) || media_actions(
            m,
            events,
        )[i] == (MediaActionView::Commit { key: m.key(), body }),
    ensures
        events[i] is Ended,
        body == body_read(m, events.take(i)),
        sent_on(media_actions(m, events).take(i)) == body,
{
    action_at(m, events, i);
    media_history(m, events.take(i));
    prefix_of_actions(m, events, i);
}

/// Whatever is sent on from the CDN is what the CDN sent, in order.
pub proof fn bytes_are_relayed_faithfully(m: MediaRequestView, events: Seq<MediaEvent>)
    requires
        fresh(m),
    ensures
        sent_on(media_actions(m, events)) == body_read(m, events),
{
    media_history(m, events);
}

/// A request is refused, or answered from the cache, only while nothing has been
/// sent on: no client gets a status after a part of the body, or two bodies.
pub proof fn nothing_is_sent_before_an_answer(m: MediaRequestView, events: Seq<MediaEvent>, i: int)
    requires
        fresh(m),
        0 <= i < events.len(),
        media_actions(m, events)[i] is Refuse || media_actions(m, events)[i] is Respond,
    ensures
        sent_on(media_actions(m, events).take(i)) == Seq::<u8>::empty(),
{
    action_at(m, events, i);
    media_history(m, events.take(i));
    prefix_of_actions(m, events, i);
}

/// What is cached is served as it is, and nothing is fetched for it.
pub proof fn cached_media_cost_no_download(m: MediaRequestView, bytes: Vec<u8>)
    requires
        m.stage == MediaStage::Looking,
    ensures
        media_next(m, MediaEvent::CacheRead(CacheRead::Bytes(bytes))) == (
            m.done(),
            serve(bytes@),
        ),
{
}

/// A download that fails is answered with 502: the CDN cannot be asked, answers
/// with anything but success, or breaks off before it sends anything.
pub proof fn failed_download_is_bad_gateway(m: MediaRequestView, status: Option<u16>, caching: bool)
    requires
        status is Some ==> !is_success(status->0),
    ensures
        media_next(m.at(MediaStage::Fetching), MediaEvent::Replied(status)) == (
            m.done(),
            MediaActionView::Refuse(StatusCode::BadGateway),
        ),
        media_next(
            m.at(MediaStage::Streaming { begun: false, caching }),
            MediaEvent::Broken,
        ) == (m.done(), MediaActionView::Refuse(StatusCode::BadGateway)),
        StatusCode::BadGateway.number() == 502,
{
}

/// Every answer has the same headers, whether it comes from the cache, from the
/// CDN, or from the request that it follows.
pub proof fn every_answer_may_be_kept(m: MediaRequestView, event: MediaEvent)
    ensures
        media_next(m, event).1 matches MediaActionView::Respond {
            content_type,
            cache_control,
            body,
        } ==> content_type == "image/gif"@ && cache_control
            == "public, max-age=31536000, immutable"@,
        media_next(m, event).1 matches MediaActionView::Stream { content_type, cache_control }
            ==> content_type == "image/gif"@ && cache_control
            == "public, max-age=31536000, immutable"@,
{
}

/// The only url a request gets is the one that was recorded for its rendition.
/// So an id that no search recorded costs no call, and Giphy's API is never
/// called to serve media.
pub proof fn only_recorded_urls_are_fetched(
    m: MediaRequestView,
    events: Seq<MediaEvent>,
    i: int,
    url: Seq<char>,
)
    requires
        fresh(m),
        0 <= i < events.len(),
        media_actions(m, events)[i] == MediaActionView::Fetch(url),
    ensures
        events[i] matches MediaEvent::Located(Some(urls)) && url == rendition(urls@, m.variant),
{
    action_at(m, events, i);
    media_history(m, events.take(i));
}

/// An id that is neither cached nor recorded is not found, and nothing is
/// fetched for it.
pub proof fn unknown_id_is_not_found(m: MediaRequestView)
    requires
        m.stage == MediaStage::Looking,
    ensures
        ({
            let (missed, first) = media_next(m, MediaEvent::CacheRead(CacheRead::Missing));
            let (after, second) = media_next(missed, MediaEvent::Located(None::<GifUrls>));
            &&& first == MediaActionView::Locate(m.id)
            &&& second == MediaActionView::Refuse(StatusCode::NotFound)
            &&& after.stage == MediaStage::Done
        }),
{
}

pub(crate) open spec fn may_fetch(stage: MediaStage) -> bool {
    match stage {
        MediaStage::Fetching => false,
        MediaStage::Streaming { begun, caching } => false,
        MediaStage::Done => false,
        _ => true,
    }
}

pub(crate) proof fn fetches_seen(m: MediaRequestView, events: Seq<MediaEvent>)
    requires
        fresh(m),
    ensures
        media_actions(m, events).len() == events.len(),
        may_fetch(media_after(m, events).stage) ==> forall|i: int|
            0 <= i < events.len() ==> !(#[trigger] media_actions(m, events)[i] is Fetch),
        forall|i: int, j: int|
            0 <= i < j < events.len() && #[trigger] media_actions(m, events)[i] is Fetch ==> !(
            #[trigger] media_actions(m, events)[j] is Fetch),
    decreases events.len(),
{
    if events.len() > 0 {
        let rest = events.drop_last();
        fetches_seen(m, rest);
        let done = media_actions(m, rest);
        let all = media_actions(m, events);
        assert(forall|i: int| 0 <= i < rest.len() ==> all[i] == done[i]);
        assert forall|i: int, j: int|
            0 <= i < j < events.len() && #[trigger] all[i] is Fetch implies !(
        #[trigger] all[j] is Fetch) by {
            assert(all[i] == done[i]);
            if j < rest.len() {
                assert(all[j] == done[j]);
            } else {
                assert(!may_fetch(media_after(m, rest).stage));
            }
        }
    }
}

/// A request makes at most one download.
pub proof fn at_most_one_download(m: MediaRequestView, events: Seq<MediaEvent>, i: int, j: int)
    requires
        fresh(m),
        0 <= i < events.len(),
        0 <= j < events.len(),
        media_actions(m, events)[i] is Fetch,
        media_actions(m, events)[j] is Fetch,
    ensures
        i == j,
{
    fetches_seen(m, events);
}

/// A failure to write to disk costs the request nothing: it goes on sending the
/// body, shares it in the end, and only gives up on the entry.
pub proof fn failed_write_does_not_fail_the_request(m: MediaRequestView, begun: bool, chunk: Vec<u8>)
    requires
        m.stage == (MediaStage::Streaming { begun, caching: true }),
    ensures
        ({
            let (after, action) = media_next(m, MediaEvent::WriteFailed);
            &&& action == MediaActionView::Discard
            &&& media_next(after, MediaEvent::Chunk(chunk)).1 == (MediaActionView::Relay {
                chunk: chunk@,
                write: false,
            })
            &&& media_next(after, MediaEvent::Ended).1 == (MediaActionView::Close { body: m.body })
        }),
{
}

/// The word for a variant reads back as the variant.
pub proof fn variant_words_read_back(variant: Variant)
    ensures
        variant_named(variant.word()) == Some(variant),
{
    reveal_strlit("thumb");
    reveal_strlit("full");
    assert("thumb"@.len() != "full"@.len());
}

/// Two renditions are cached under the same key only if they are the same
/// rendition of the same gif.
pub proof fn cache_keys_differ(id1: Seq<char>, v1: Variant, id2: Seq<char>, v2: Variant)
    requires
        is_valid_id(id1),
        is_valid_id(id2),
        cache_key(id1, v1) == cache_key(id2, v2),
    ensures
        id1 == id2,
        v1 == v2,
{
    reveal_strlit(".");
    reveal_strlit("thumb");
    reveal_strlit("full");
    let a = cache_key(id1, v1);
    let b = cache_key(id2, v2);
    assert(a[id1.len() as int] == '.');
    assert(b[id2.len() as int] == '.');
    if id1.len() < id2.len() {
        assert(b[id1.len() as int] == id2[id1.len() as int]);
        assert(is_id_char(id2[id1.len() as int]));
    } else if id2.len() < id1.len() {
        assert(a[id2.len() as int] == id1[id2.len() as int]);
        assert(is_id_char(id1[id2.len() as int]));
    }
    assert(id1 =~= a.take(id1.len() as int));
    assert(id2 =~= b.take(id2.len() as int));
    assert(v1.word() =~= a.skip(id1.len() as int + 1));
    assert(v2.word() =~= b.skip(id2.len() as int + 1));
    variant_words_read_back(v1);
    variant_words_read_back(v2);
}

/// Whether a file of this name lies in the very directory it is joined to: the
/// name is not empty, does not begin with a dot, and holds no separator, drive
/// mark or zero.
pub open spec fn stays_inside(name: Seq<char>) -> bool {
    &&& name.len() > 0
    &&& name.first() != '.'
    &&& forall|i: int|
        0 <= i < name.len() ==> #[trigger] name[i] != '/' && name[i] != '\\' && name[i] != ':'
            && name[i] != '\0'
}

/// What is cached under a valid id lies in the directory of the cache, and can
/// never be taken for the leftover of an unfinished write.
pub proof fn cache_keys_stay_inside(id: Seq<char>, variant: Variant)
    requires
        is_valid_id(id),
    ensures
        stays_inside(cache_key(id, variant)),
        !ends_in(cache_key(id, variant), ".tmp"@),
{
    reveal_strlit(".");
    reveal_strlit("thumb");
    reveal_strlit("full");
    reveal_strlit(".tmp");
    let key = cache_key(id, variant);
    assert(key.first() == id[0]);
    assert(is_id_char(id[0]));
    assert forall|i: int| 0 <= i < key.len() implies #[trigger] key[i] != '/' && key[i] != '\\'
        && key[i] != ':' && key[i] != '\0' by {
        if i < id.len() {
            assert(key[i] == id[i]);
            assert(is_id_char(id[i]));
        } else if i > id.len() {
            assert(key[i] == variant.word()[i - id.len() - 1]);
        }
    }
    assert(key.last() == variant.word().last());
    if ends_in(key, ".tmp"@) {
        assert(key.skip(key.len() - 4).last() == key.last());
        assert(false);
    }
}

} // verus!
