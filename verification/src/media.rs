//! Serving the bytes of a gif.
//!
//! Nobody has to be authorized for it, and it never calls Giphy's API: the only
//! ids worth serving are those a search has recorded urls for.
use crate::downloads::Downloads;
use crate::giphy::is_success;
use crate::giphy::GifUrls;
use crate::giphy::GifUrlsView;
use crate::status::StatusCode;
use crate::text::chars_of;
use crate::text::same_text;
use vstd::prelude::*;

verus! {

/// A rendition of a gif.
#[derive(Clone, Copy, PartialEq, Eq, Debug, Structural)]
pub enum Variant {
    Thumb,
    Full,
}

/// The rendition that a word stands for, if it stands for one.
pub open spec fn variant_named(s: Seq<char>) -> Option<Variant> {
    if s == "thumb"@ {
        Some(Variant::Thumb)
    } else if s == "full"@ {
        Some(Variant::Full)
    } else {
        None
    }
}

impl Variant {
    /// The word for a rendition.
    pub open spec fn word(self) -> Seq<char> {
        match self {
            Variant::Thumb => "thumb"@,
            Variant::Full => "full"@,
        }
    }

    /// The rendition that a word stands for.
    pub fn parse(s: &str) -> (variant: Option<Variant>)
        ensures
            variant == variant_named(s@),
    {
        if same_text(s, "thumb") {
            Some(Variant::Thumb)
        } else if same_text(s, "full") {
            Some(Variant::Full)
        } else {
            None
        }
    }

    /// The word for a rendition.
    pub fn as_str(self) -> (s: &'static str)
        ensures
            s@ == self.word(),
    {
        match self {
            Variant::Thumb => "thumb",
            Variant::Full => "full",
        }
    }
}

/// Whether a character can stand in the id of a gif.
pub open spec fn is_id_char(c: char) -> bool {
    ||| 'a' <= c <= 'z'
    ||| 'A' <= c <= 'Z'
    ||| '0' <= c <= '9'
    ||| c == '-'
    ||| c == '_'
}

/// Whether a text has the shape of the id of a gif.
pub open spec fn is_valid_id(id: Seq<char>) -> bool {
    id.len() > 0 && forall|i: int| 0 <= i < id.len() ==> is_id_char(#[trigger] id[i])
}

/// Giphy ids are alphanumeric, occasionally with `-` or `_`. Anything else is
/// rejected before the id can reach a cache key or the file system.
pub fn valid_id(id: &str) -> (valid: bool)
    ensures
        valid == is_valid_id(id@),
{
    let chars = chars_of(id);
    let mut i: usize = 0;
    while i < chars.len()
        invariant
            i <= chars.len(),
            chars@ == id@,
            forall|k: int| 0 <= k < i ==> is_id_char(#[trigger] id@[k]),
        decreases chars.len() - i,
    {
        let c = chars[i];
        if !(('a' <= c && c <= 'z') || ('A' <= c && c <= 'Z') || ('0' <= c && c <= '9') || c == '-'
            || c == '_') {
            assert(!is_id_char(id@[i as int]));
            return false;
        }
        i = i + 1;
    }
    chars.len() > 0
}

/// The key under which a rendition is cached.
pub open spec fn cache_key(id: Seq<char>, variant: Variant) -> Seq<char> {
    id + "."@ + variant.word()
}

/// The url of a rendition.
pub open spec fn rendition(urls: GifUrlsView, variant: Variant) -> Seq<char> {
    match variant {
        Variant::Thumb => urls.thumb,
        Variant::Full => urls.full,
    }
}

/// The headers of an answer that serves a gif, and its body.
pub struct MediaResponse {
    pub content_type: &'static str,
    pub cache_control: &'static str,
    pub body: Vec<u8>,
}

/// The answer that serves a gif. Every rendition is a `.gif` file, so the type is
/// always the same; and the bytes under an id never change, so they may be kept
/// for good.
pub fn media_response(body: Vec<u8>) -> (response: MediaResponse)
    ensures
        response.content_type@ == gif_type(),
        response.cache_control@ == for_good(),
        response.body@ == body@,
{
    MediaResponse {
        content_type: "image/gif",
        cache_control: "public, max-age=31536000, immutable",
        body,
    }
}

/// What a request for media waits for. Of all requests for the same rendition,
/// one leads, and the others follow it.
#[derive(Debug, PartialEq, Eq, Clone, Copy, Structural)]
pub enum MediaStage {
    /// What the cache has.
    Looking,
    /// Where the rendition is on the CDN.
    Locating,
    /// What the CDN answers.
    Fetching,
    /// The body of that answer: whether any of it has been sent on, and whether
    /// it is being written to disk.
    Streaming { begun: bool, caching: bool },
    /// What comes of the request that it follows.
    Following,
    /// Whether it leads now, since the one it followed came to nothing.
    Joining,
    /// Nothing: the request has been answered.
    Done,
}

/// What is found in the cache under a key.
pub enum CacheRead {
    Missing,
    Unreadable,
    Bytes(Vec<u8>),
}

/// What a request for media is told.
pub enum MediaEvent {
    /// What is in the cache.
    CacheRead(CacheRead),
    /// The urls recorded for the id, if there are any.
    Located(Option<GifUrls>),
    /// The status of the CDN's answer; none if it could not be asked.
    Replied(Option<u16>),
    /// A part of the body.
    Chunk(Vec<u8>),
    /// What was sent on could not be written to disk.
    WriteFailed,
    /// The body is complete.
    Ended,
    /// The body broke off.
    Broken,
    /// The request that it follows has ended, with this body if it had one.
    DownloadEnded(Option<Vec<u8>>),
    /// Whether it leads now.
    Joined(bool),
}

/// What a request for media asks for. One that leads ends its lead with its
/// answer, and shares the body of it.
pub enum MediaAction {
    /// Read this key from the cache.
    ReadCache(String),
    /// Find the urls recorded for this id.
    Locate(String),
    /// Get this url.
    Fetch(String),
    /// Open a temporary file, and read the body. The answer has these headers.
    Stream { content_type: &'static str, cache_control: &'static str },
    /// Send this on, after writing it to the temporary file if told to.
    Relay { chunk: Vec<u8>, write: bool },
    /// Remove the temporary file, and keep reading.
    Discard,
    /// End the answer, make the temporary file the entry under this key, and
    /// share this body.
    Commit { key: String, body: Vec<u8> },
    /// End the answer, and share this body.
    Close { body: Vec<u8> },
    /// Cut the answer off, and remove the temporary file. There is nothing to
    /// share.
    Abort,
    /// Wait for what comes of the request that leads under this key.
    AwaitDownload(String),
    /// Join the requests under this key again.
    Join(String),
    /// Answer with this, and share the body of it if this request leads.
    Respond(MediaResponse),
    /// Refuse, and remove the temporary file if there is one. There is nothing to
    /// share.
    Refuse(StatusCode),
    /// The event was not awaited, and changes nothing.
    Ignore,
}

/// What `MediaAction` says.
#[verifier::ext_equal]
pub enum MediaActionView {
    ReadCache(Seq<char>),
    Locate(Seq<char>),
    Fetch(Seq<char>),
    Stream { content_type: Seq<char>, cache_control: Seq<char> },
    Relay { chunk: Seq<u8>, write: bool },
    Discard,
    Commit { key: Seq<char>, body: Seq<u8> },
    Close { body: Seq<u8> },
    Abort,
    AwaitDownload(Seq<char>),
    Join(Seq<char>),
    Respond { content_type: Seq<char>, cache_control: Seq<char>, body: Seq<u8> },
    Refuse(StatusCode),
    Ignore,
}

impl View for MediaAction {
    type V = MediaActionView;

    open spec fn view(&self) -> MediaActionView {
        match self {
            MediaAction::ReadCache(key) => MediaActionView::ReadCache(key@),
            MediaAction::Locate(id) => MediaActionView::Locate(id@),
            MediaAction::Fetch(url) => MediaActionView::Fetch(url@),
            MediaAction::Stream { content_type, cache_control } => MediaActionView::Stream {
                content_type: content_type@,
                cache_control: cache_control@,
            },
            MediaAction::Relay { chunk, write } => MediaActionView::Relay {
                chunk: chunk@,
                write: *write,
            },
            MediaAction::Discard => MediaActionView::Discard,
            MediaAction::Commit { key, body } => MediaActionView::Commit {
                key: key@,
                body: body@,
            },
            MediaAction::Close { body } => MediaActionView::Close { body: body@ },
            MediaAction::Abort => MediaActionView::Abort,
            MediaAction::AwaitDownload(key) => MediaActionView::AwaitDownload(key@),
            MediaAction::Join(key) => MediaActionView::Join(key@),
            MediaAction::Respond(r) => MediaActionView::Respond {
                content_type: r.content_type@,
                cache_control: r.cache_control@,
                body: r.body@,
            },
            MediaAction::Refuse(status) => MediaActionView::Refuse(*status),
            MediaAction::Ignore => MediaActionView::Ignore,
        }
    }
}

/// A request for media, under way.
pub struct MediaRequest {
    id: String,
    variant: Variant,
    body: Vec<u8>,
    stage: MediaStage,
}

/// What a `MediaRequest` is: what it is for, what it has read of the body, and
/// what it waits for.
#[verifier::ext_equal]
pub struct MediaRequestView {
    pub id: Seq<char>,
    pub variant: Variant,
    pub body: Seq<u8>,
    pub stage: MediaStage,
}

impl View for MediaRequest {
    type V = MediaRequestView;

    closed spec fn view(&self) -> MediaRequestView {
        MediaRequestView {
            id: self.id@,
            variant: self.variant,
            body: self.body@,
            stage: self.stage,
        }
    }
}

impl MediaRequestView {
    /// The key under which the rendition is cached.
    pub open spec fn key(self) -> Seq<char> {
        cache_key(self.id, self.variant)
    }

    /// The same request, waiting for something else.
    pub open spec fn at(self, stage: MediaStage) -> MediaRequestView {
        MediaRequestView { stage, ..self }
    }

    /// The same request, once it has been answered.
    pub open spec fn done(self) -> MediaRequestView {
        MediaRequestView { body: Seq::empty(), stage: MediaStage::Done, ..self }
    }
}

/// The type of what is served.
pub open spec fn gif_type() -> Seq<char> {
    "image/gif"@
}

/// How long it may be kept.
pub open spec fn for_good() -> Seq<char> {
    "public, max-age=31536000, immutable"@
}

/// The answer that serves these bytes.
pub open spec fn serve(body: Seq<u8>) -> MediaActionView {
    MediaActionView::Respond { content_type: gif_type(), cache_control: for_good(), body }
}

/// How a request for media begins, given the keys that other requests lead under:
/// it follows the one that leads under its own key, or else leads itself and looks
/// into the cache.
pub open spec fn arrival(leading: Set<Seq<char>>, id: Seq<char>, variant: Variant) -> (
    MediaRequestView,
    MediaActionView,
) {
    let key = cache_key(id, variant);
    let m = MediaRequestView { id, variant, body: Seq::empty(), stage: MediaStage::Looking };
    if leading.contains(key) {
        (m.at(MediaStage::Following), MediaActionView::AwaitDownload(key))
    } else {
        (m, MediaActionView::ReadCache(key))
    }
}

/// How a request for media goes on.
pub open spec fn media_next(m: MediaRequestView, event: MediaEvent) -> (
    MediaRequestView,
    MediaActionView,
) {
    match (m.stage, event) {
        (MediaStage::Looking, MediaEvent::CacheRead(read)) => match read {
            CacheRead::Bytes(bytes) => (m.done(), serve(bytes@)),
            CacheRead::Unreadable => (
                m.done(),
                MediaActionView::Refuse(StatusCode::InternalServerError),
            ),
            CacheRead::Missing => (m.at(MediaStage::Locating), MediaActionView::Locate(m.id)),
        },
        (MediaStage::Locating, MediaEvent::Located(urls)) => match urls {
            Some(urls) => (
                m.at(MediaStage::Fetching),
                MediaActionView::Fetch(rendition(urls@, m.variant)),
            ),
            None => (m.done(), MediaActionView::Refuse(StatusCode::NotFound)),
        },
        (MediaStage::Fetching, MediaEvent::Replied(status)) => if status is Some && is_success(
            status->0,
        ) {
            (
                m.at(MediaStage::Streaming { begun: false, caching: true }),
                MediaActionView::Stream { content_type: gif_type(), cache_control: for_good() },
            )
        } else {
            (m.done(), MediaActionView::Refuse(StatusCode::BadGateway))
        },
        (MediaStage::Streaming { begun, caching }, MediaEvent::Chunk(chunk)) => (
            MediaRequestView {
                body: m.body + chunk@,
                stage: MediaStage::Streaming { begun: true, caching },
                ..m
            },
            MediaActionView::Relay { chunk: chunk@, write: caching },
        ),
        (MediaStage::Streaming { begun, caching }, MediaEvent::WriteFailed) => if caching {
            (m.at(MediaStage::Streaming { begun, caching: false }), MediaActionView::Discard)
        } else {
            (m, MediaActionView::Ignore)
        },
        (MediaStage::Streaming { begun, caching }, MediaEvent::Ended) => if caching {
            (m.done(), MediaActionView::Commit { key: m.key(), body: m.body })
        } else {
            (m.done(), MediaActionView::Close { body: m.body })
        },
        (MediaStage::Streaming { begun, caching }, MediaEvent::Broken) => if begun {
            (m.done(), MediaActionView::Abort)
        } else {
            (m.done(), MediaActionView::Refuse(StatusCode::BadGateway))
        },
        (MediaStage::Following, MediaEvent::DownloadEnded(body)) => match body {
            Some(body) => (m.done(), serve(body@)),
            None => (m.at(MediaStage::Joining), MediaActionView::Join(m.key())),
        },
        (MediaStage::Joining, MediaEvent::Joined(lead)) => if lead {
            (m.at(MediaStage::Looking), MediaActionView::ReadCache(m.key()))
        } else {
            (m.at(MediaStage::Following), MediaActionView::AwaitDownload(m.key()))
        },
        _ => (m, MediaActionView::Ignore),
    }
}

/// Takes a request for `variant` of the gif `id`, and says what it asks for
/// first. It joins the requests for the same rendition at once, so that it leads
/// if none of them does. A variant there is none of, or an id that cannot be one,
/// is not found.
pub fn media_handler(downloads: &mut Downloads, id: &str, variant: &str) -> (r: Result<
    (MediaRequest, MediaAction),
    StatusCode,
>)
    requires
        old(downloads).wf(),
    ensures
        final(downloads).wf(),
        r is Ok <==> is_valid_id(id@) && variant_named(variant@) is Some,
        r matches Err(status) ==> status == StatusCode::NotFound && final(downloads)@ == old(
            downloads,
        )@,
        r matches Ok(begun) ==> {
            let wanted = variant_named(variant@)->0;
            &&& (begun.0@, begun.1@) == arrival(old(downloads)@, id@, wanted)
            &&& final(downloads)@ == old(downloads)@.insert(cache_key(id@, wanted))
        },
{
    let variant = match Variant::parse(variant) {
        Some(variant) => variant,
        None => return Err(StatusCode::NotFound),
    };
    if !valid_id(id) {
        return Err(StatusCode::NotFound);
    }
    let mut request = MediaRequest {
        id: id.to_owned(),
        variant,
        body: Vec::new(),
        stage: MediaStage::Looking,
    };
    let key = request.cache_key();
    let action = if downloads.join(key.as_str()) {
        MediaAction::ReadCache(key)
    } else {
        request.stage = MediaStage::Following;
        MediaAction::AwaitDownload(key)
    };
    Ok((request, action))
}

impl MediaRequest {
    /// The key under which the rendition is cached.
    pub fn cache_key(&self) -> (key: String)
        ensures
            key@ == self@.key(),
    {
        let mut key = self.id.clone();
        key.append(".");
        key.append(self.variant.as_str());
        key
    }

    fn finish(&mut self) -> (body: Vec<u8>)
        ensures
            final(self)@ == old(self)@.done(),
            body@ == old(self)@.body,
    {
        self.stage = MediaStage::Done;
        let mut body: Vec<u8> = Vec::new();
        std::mem::swap(&mut body, &mut self.body);
        body
    }

    fn refuse(&mut self, status: StatusCode) -> (action: MediaAction)
        ensures
            final(self)@ == old(self)@.done(),
            action@ == MediaActionView::Refuse(status),
    {
        let _ = self.finish();
        MediaAction::Refuse(status)
    }

    fn respond(&mut self, body: Vec<u8>) -> (action: MediaAction)
        ensures
            final(self)@ == old(self)@.done(),
            action@ == serve(body@),
    {
        let _ = self.finish();
        MediaAction::Respond(media_response(body))
    }

    fn keep(&mut self, chunk: &Vec<u8>)
        ensures
            final(self)@ == (MediaRequestView { body: old(self)@.body + chunk@, ..old(self)@ }),
    {
        let ghost before = self.body@;
        self.body.extend_from_slice(chunk.as_slice());
        proof {
            assert(self.body@ =~= before + chunk@);
        }
    }

    /// Goes on with what has been learned.
    pub fn step(&mut self, event: MediaEvent) -> (action: MediaAction)
        ensures
            final(self)@ == media_next(old(self)@, event).0,
            action@ == media_next(old(self)@, event).1,
    {
        match (self.stage, event) {
            (MediaStage::Looking, MediaEvent::CacheRead(read)) => match read {
                CacheRead::Bytes(bytes) => self.respond(bytes),
                CacheRead::Unreadable => self.refuse(StatusCode::InternalServerError),
                CacheRead::Missing => {
                    self.stage = MediaStage::Locating;
                    MediaAction::Locate(self.id.clone())
                },
            },
            (MediaStage::Locating, MediaEvent::Located(urls)) => match urls {
                Some(urls) => {
                    self.stage = MediaStage::Fetching;
                    MediaAction::Fetch(
                        match self.variant {
                            Variant::Thumb => urls.thumb,
                            Variant::Full => urls.full,
                        },
                    )
                },
                None => self.refuse(StatusCode::NotFound),
            },
            (MediaStage::Fetching, MediaEvent::Replied(status)) => {
                let good = match status {
                    Some(code) => 200 <= code && code < 300,
                    None => false,
                };
                if good {
                    self.stage = MediaStage::Streaming { begun: false, caching: true };
                    let MediaResponse { content_type, cache_control, body: _ } = media_response(
                        Vec::new(),
                    );
                    MediaAction::Stream { content_type, cache_control }
                } else {
                    self.refuse(StatusCode::BadGateway)
                }
            },
            (MediaStage::Streaming { begun, caching }, MediaEvent::Chunk(chunk)) => {
                self.keep(&chunk);
                self.stage = MediaStage::Streaming { begun: true, caching };
                MediaAction::Relay { chunk, write: caching }
            },
            (MediaStage::Streaming { begun, caching }, MediaEvent::WriteFailed) => {
                if caching {
                    self.stage = MediaStage::Streaming { begun, caching: false };
                    MediaAction::Discard
                } else {
                    MediaAction::Ignore
                }
            },
            (MediaStage::Streaming { begun, caching }, MediaEvent::Ended) => {
                let body = self.finish();
                if caching {
                    MediaAction::Commit { key: self.cache_key(), body }
                } else {
                    MediaAction::Close { body }
                }
            },
            (MediaStage::Streaming { begun, caching }, MediaEvent::Broken) => {
                if begun {
                    let _ = self.finish();
                    MediaAction::Abort
                } else {
                    self.refuse(StatusCode::BadGateway)
                }
            },
            (MediaStage::Following, MediaEvent::DownloadEnded(body)) => match body {
                Some(body) => self.respond(body),
                None => {
                    self.stage = MediaStage::Joining;
                    MediaAction::Join(self.cache_key())
                },
            },
            (MediaStage::Joining, MediaEvent::Joined(lead)) => {
                if lead {
                    self.stage = MediaStage::Looking;
                    MediaAction::ReadCache(self.cache_key())
                } else {
                    self.stage = MediaStage::Following;
                    MediaAction::AwaitDownload(self.cache_key())
                }
            },
            _ => MediaAction::Ignore,
        }
    }
}

} // verus!
