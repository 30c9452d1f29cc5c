//! Answering searches.
use crate::auth::bearer_token;
use crate::auth::header_values;
use crate::auth::token_among;
use crate::giphy::gif_urls;
use crate::giphy::urls_of;
use crate::giphy::FoundGif;
use crate::giphy::GifUrls;
use crate::giphy::GifUrlsView;
use crate::giphy::GiphyError;
use crate::giphy::GiphyGif;
use crate::media::is_valid_id;
use crate::media::valid_id;
use crate::status::StatusCode;
use crate::text::parse_u32;
use crate::text::parse_u64;
use crate::text::parsed;
use crate::text::trim;
use crate::text::trimmed;
use axum::http::HeaderMap;
use vstd::prelude::*;

verus! {

/// The parameters of a search.
pub struct SearchParams {
    pub q: String,
    pub limit: Option<u32>,
}

/// One gif that a search found, as the client is told of it.
pub struct GifSearchResult {
    pub id: String,
    pub width: Option<u32>,
    pub height: Option<u32>,
    pub mimetype: String,
    pub size: Option<u64>,
    pub title: String,
    pub thumb_url: String,
    pub full_url: String,
    pub page_url: String,
}

/// What `GifSearchResult` says.
#[verifier::ext_equal]
pub struct GifSearchResultView {
    pub id: Seq<char>,
    pub width: Option<u32>,
    pub height: Option<u32>,
    pub mimetype: Seq<char>,
    pub size: Option<u64>,
    pub title: Seq<char>,
    pub thumb_url: Seq<char>,
    pub full_url: Seq<char>,
    pub page_url: Seq<char>,
}

impl View for GifSearchResult {
    type V = GifSearchResultView;

    open spec fn view(&self) -> GifSearchResultView {
        GifSearchResultView {
            id: self.id@,
            width: self.width,
            height: self.height,
            mimetype: self.mimetype@,
            size: self.size,
            title: self.title@,
            thumb_url: self.thumb_url@,
            full_url: self.full_url@,
            page_url: self.page_url@,
        }
    }
}

impl Clone for GifSearchResult {
    fn clone(&self) -> (result: GifSearchResult)
        ensures
            result == *self,
    {
        GifSearchResult {
            id: self.id.clone(),
            width: self.width,
            height: self.height,
            mimetype: self.mimetype.clone(),
            size: self.size,
            title: self.title.clone(),
            thumb_url: self.thumb_url.clone(),
            full_url: self.full_url.clone(),
            page_url: self.page_url.clone(),
        }
    }
}

/// The number in an optional text, if it writes one that fits in 32 bits.
pub open spec fn number_u32(text: Option<String>) -> Option<u32> {
    match text {
        Some(s) => match parsed(s@, u32::MAX as nat) {
            Some(n) => Some(n as u32),
            None => None,
        },
        None => None,
    }
}

/// The number in an optional text, if it writes one that fits in 64 bits.
pub open spec fn number_u64(text: Option<String>) -> Option<u64> {
    match text {
        Some(s) => match parsed(s@, u64::MAX as nat) {
            Some(n) => Some(n as u64),
            None => None,
        },
        None => None,
    }
}

/// The path under which the media of a gif are served.
pub open spec fn media_path(id: Seq<char>) -> Seq<char> {
    "/api/gif/media/"@ + id
}

/// What the client is told of a gif.
pub open spec fn result_of(gif: GiphyGif) -> GifSearchResultView {
    GifSearchResultView {
        id: gif.id@,
        width: number_u32(gif.images.original.width),
        height: number_u32(gif.images.original.height),
        mimetype: "image/gif"@,
        size: number_u64(gif.images.original.size),
        title: gif.title@,
        thumb_url: media_path(gif.id@),
        full_url: media_path(gif.id@),
        page_url: gif.url@,
    }
}

/// What a list of results says.
pub open spec fn results_view(results: Seq<GifSearchResult>) -> Seq<GifSearchResultView> {
    results.map_values(|r: GifSearchResult| r@)
}

/// What the client is told of a list of gifs: one result for each, in the same
/// order.
pub open spec fn results_of(gifs: Seq<GiphyGif>) -> Seq<GifSearchResultView> {
    gifs.map_values(|g: GiphyGif| result_of(g))
}

/// What the client is told of a gif. A dimension or size that Giphy does not give
/// as a number is left out.
pub fn to_result(gif: GiphyGif) -> (result: GifSearchResult)
    ensures
        result@ == result_of(gif),
{
    let width: Option<u32> = match &gif.images.original.width {
        Some(w) => parse_u32(w.as_str()),
        None => None,
    };
    let height: Option<u32> = match &gif.images.original.height {
        Some(h) => parse_u32(h.as_str()),
        None => None,
    };
    let size: Option<u64> = match &gif.images.original.size {
        Some(s) => parse_u64(s.as_str()),
        None => None,
    };
    let mut media_url = "/api/gif/media/".to_owned();
    media_url.append(gif.id.as_str());
    GifSearchResult {
        id: gif.id,
        width,
        height,
        mimetype: "image/gif".to_owned(),
        size,
        title: gif.title,
        thumb_url: media_url.clone(),
        full_url: media_url,
        page_url: gif.url,
    }
}

/// What the client is told of a list of gifs.
pub fn to_results(gifs: Vec<GiphyGif>) -> (results: Vec<GifSearchResult>)
    ensures
        results_view(results@) == results_of(gifs@),
{
    let ghost all = gifs@;
    let mut results: Vec<GifSearchResult> = Vec::new();
    for gif in it: gifs
        invariant
            it.seq() == all,
            results@.len() == it.index(),
            forall|i: int|
                0 <= i < results@.len() ==> (#[trigger] results@[i])@ == result_of(all[i]),
    {
        results.push(to_result(gif));
    }
    proof {
        assert(results_view(results@) =~= results_of(all));
    }
    results
}

/// How many gifs a search asks for: what the client wants, 24 if it does not say,
/// and never more than 50.
pub open spec fn effective_limit(limit: Option<u32>) -> u32 {
    let wanted = match limit {
        Some(n) => n,
        None => 24,
    };
    if wanted <= 50 {
        wanted
    } else {
        50
    }
}

/// The gifs among those found.
pub open spec fn gifs_in(found: Seq<FoundGif>) -> Seq<GiphyGif> {
    found.map_values(|f: FoundGif| f.gif)
}

/// The url records to make of what was found: one for each gif with a valid id,
/// in order.
pub open spec fn records_of(found: Seq<FoundGif>) -> Seq<(Seq<char>, GifUrlsView)>
    decreases found.len(),
{
    if found.len() == 0 {
        Seq::empty()
    } else {
        let rest = records_of(found.drop_last());
        if is_valid_id(found.last().gif.id@) {
            rest.push((found.last().gif.id@, urls_of(found.last())))
        } else {
            rest
        }
    }
}

/// What a list of url records says.
pub open spec fn records_view(records: Seq<(String, GifUrls)>) -> Seq<(Seq<char>, GifUrlsView)> {
    records.map_values(|r: (String, GifUrls)| (r.0@, r.1@))
}

/// What a search waits for.
#[derive(Debug, PartialEq, Eq, Clone, Copy, Structural)]
pub enum SearchStage {
    /// Whether the token is good.
    Verifying,
    /// Whether the answer is remembered.
    Recalling,
    /// What Giphy answers.
    Calling,
    /// Nothing: the search has been answered.
    Done,
}

/// What a search is told.
pub enum SearchEvent {
    /// Whether the token is good.
    Verified(bool),
    /// The answer that is remembered, if there is one.
    Recalled(Option<Vec<GifSearchResult>>),
    /// What Giphy answered.
    Replied(Result<Vec<FoundGif>, GiphyError>),
}

/// What a search asks for.
pub enum SearchAction {
    /// Look up what is remembered for this query and limit.
    Recall { q: String, limit: u32 },
    /// Call Giphy's API with this query and limit.
    Call { q: String, limit: u32 },
    /// Answer with these.
    Respond(Vec<GifSearchResult>),
    /// Record these urls, remember these results for this query and limit, and
    /// answer with them.
    Publish {
        q: String,
        limit: u32,
        results: Vec<GifSearchResult>,
        records: Vec<(String, GifUrls)>,
    },
    /// Refuse.
    Refuse(StatusCode),
    /// The event was not awaited, and changes nothing.
    Ignore,
}

/// What `SearchAction` says.
#[verifier::ext_equal]
pub enum SearchActionView {
    Recall { q: Seq<char>, limit: u32 },
    Call { q: Seq<char>, limit: u32 },
    Respond(Seq<GifSearchResultView>),
    Publish {
        q: Seq<char>,
        limit: u32,
        results: Seq<GifSearchResultView>,
        records: Seq<(Seq<char>, GifUrlsView)>,
    },
    Refuse(StatusCode),
    Ignore,
}

impl View for SearchAction {
    type V = SearchActionView;

    open spec fn view(&self) -> SearchActionView {
        match self {
            SearchAction::Recall { q, limit } => SearchActionView::Recall { q: q@, limit: *limit },
            SearchAction::Call { q, limit } => SearchActionView::Call { q: q@, limit: *limit },
            SearchAction::Respond(results) => SearchActionView::Respond(results_view(results@)),
            SearchAction::Publish { q, limit, results, records } => SearchActionView::Publish {
                q: q@,
                limit: *limit,
                results: results_view(results@),
                records: records_view(records@),
            },
            SearchAction::Refuse(status) => SearchActionView::Refuse(*status),
            SearchAction::Ignore => SearchActionView::Ignore,
        }
    }
}

/// A search, under way.
pub struct SearchRequest {
    token: String,
    q: String,
    limit: u32,
    stage: SearchStage,
}

/// What a `SearchRequest` is: the token it came with, the query as it was given,
/// the limit in effect, and what it waits for.
#[verifier::ext_equal]
pub struct SearchRequestView {
    pub token: Seq<char>,
    pub q: Seq<char>,
    pub limit: u32,
    pub stage: SearchStage,
}

impl View for SearchRequest {
    type V = SearchRequestView;

    closed spec fn view(&self) -> SearchRequestView {
        SearchRequestView {
            token: self.token@,
            q: self.q@,
            limit: self.limit,
            stage: self.stage,
        }
    }
}

/// How a search goes on.
pub open spec fn search_next(s: SearchRequestView, event: SearchEvent) -> (
    SearchStage,
    SearchActionView,
) {
    match (s.stage, event) {
        (SearchStage::Verifying, SearchEvent::Verified(good)) => if !good {
            (SearchStage::Done, SearchActionView::Refuse(StatusCode::Unauthorized))
        } else if trimmed(s.q).len() == 0 {
            (SearchStage::Done, SearchActionView::Respond(Seq::empty()))
        } else {
            (
                SearchStage::Recalling,
                SearchActionView::Recall { q: trimmed(s.q), limit: s.limit },
            )
        },
        (SearchStage::Recalling, SearchEvent::Recalled(remembered)) => match remembered {
            Some(results) => (
                SearchStage::Done,
                SearchActionView::Respond(results_view(results@)),
            ),
            None => (SearchStage::Calling, SearchActionView::Call { q: s.q, limit: s.limit }),
        },
        (SearchStage::Calling, SearchEvent::Replied(reply)) => match reply {
            Ok(found) => (
                SearchStage::Done,
                SearchActionView::Publish {
                    q: trimmed(s.q),
                    limit: s.limit,
                    results: results_of(gifs_in(found@)),
                    records: records_of(found@),
                },
            ),
            Err(_) => (SearchStage::Done, SearchActionView::Refuse(StatusCode::BadGateway)),
        },
        _ => (s.stage, SearchActionView::Ignore),
    }
}

/// Takes a search. It is unauthorized without a bearer token; with one, what it
/// first waits for is whether the token is good.
pub fn search_handler(headers: &HeaderMap, params: SearchParams) -> (r: Result<
    SearchRequest,
    StatusCode,
>)
    ensures
        r is Ok <==> token_among(header_values(*headers)) is Some,
        r matches Err(status) ==> status == StatusCode::Unauthorized,
        r matches Ok(s) ==> s@ == (SearchRequestView {
            token: token_among(header_values(*headers))->0,
            q: params.q@,
            limit: effective_limit(params.limit),
            stage: SearchStage::Verifying,
        }),
{
    match bearer_token(headers) {
        Some(token) => Ok(search_with_token(token, params)),
        None => Err(StatusCode::Unauthorized),
    }
}

/// Takes a search that came with this bearer token.
pub fn search_with_token(token: &str, params: SearchParams) -> (s: SearchRequest)
    ensures
        s@ == (SearchRequestView {
            token: token@,
            q: params.q@,
            limit: effective_limit(params.limit),
            stage: SearchStage::Verifying,
        }),
{
    let wanted: u32 = match params.limit {
        Some(n) => n,
        None => 24,
    };
    let limit: u32 = if wanted <= 50 {
        wanted
    } else {
        50
    };
    SearchRequest {
        token: token.to_owned(),
        q: params.q,
        limit,
        stage: SearchStage::Verifying,
    }
}

fn publish(q: String, limit: u32, found: Vec<FoundGif>) -> (action: SearchAction)
    ensures
        action@ == (SearchActionView::Publish {
            q: q@,
            limit,
            results: results_of(gifs_in(found@)),
            records: records_of(found@),
        }),
{
    let ghost all = found@;
    let mut gifs: Vec<GiphyGif> = Vec::new();
    let mut records: Vec<(String, GifUrls)> = Vec::new();
    proof {
        assert(all.take(0) =~= Seq::<FoundGif>::empty());
        assert(records_view(records@) =~= records_of(all.take(0)));
    }
    for one in it: found
        invariant
            it.seq() == all,
            gifs@ == gifs_in(all.take(it.index())),
            records_view(records@) == records_of(all.take(it.index())),
    {
        proof {
            let seen = all.take(it.index() + 1);
            assert(seen.drop_last() =~= all.take(it.index()));
            assert(seen.last() == one);
            assert(gifs_in(seen) =~= gifs_in(all.take(it.index())).push(one.gif));
        }
        if valid_id(one.gif.id.as_str()) {
            let ghost before = records@;
            records.push((one.gif.id.clone(), gif_urls(&one)));
            proof {
                assert(records_view(records@) =~= records_view(before).push(
                    (one.gif.id@, urls_of(one)),
                ));
            }
        }
        gifs.push(one.gif);
    }
    proof {
        assert(all.take(all.len() as int) =~= all);
    }
    SearchAction::Publish { q, limit, results: to_results(gifs), records }
}

impl SearchRequest {
    /// The token that the search came with.
    pub fn token(&self) -> (token: &str)
        ensures
            token@ == self@.token,
    {
        self.token.as_str()
    }

    /// Goes on with what has been learned.
    pub fn step(&mut self, event: SearchEvent) -> (action: SearchAction)
        ensures
            final(self)@ == (SearchRequestView {
                stage: search_next(old(self)@, event).0,
                ..old(self)@
            }),
            action@ == search_next(old(self)@, event).1,
    {
        match (self.stage, event) {
            (SearchStage::Verifying, SearchEvent::Verified(good)) => {
                if !good {
                    self.stage = SearchStage::Done;
                    return SearchAction::Refuse(StatusCode::Unauthorized);
                }
                let q = trim(self.q.as_str()).to_owned();
                if q.as_str().is_empty() {
                    self.stage = SearchStage::Done;
                    let none: Vec<GifSearchResult> = Vec::new();
                    proof {
                        assert(results_view(none@) =~= Seq::<GifSearchResultView>::empty());
                    }
                    SearchAction::Respond(none)
                } else {
                    self.stage = SearchStage::Recalling;
                    SearchAction::Recall { q, limit: self.limit }
                }
            },
            (SearchStage::Recalling, SearchEvent::Recalled(remembered)) => match remembered {
                Some(results) => {
                    self.stage = SearchStage::Done;
                    SearchAction::Respond(results)
                },
                None => {
                    self.stage = SearchStage::Calling;
                    SearchAction::Call { q: self.q.clone(), limit: self.limit }
                },
            },
            (SearchStage::Calling, SearchEvent::Replied(reply)) => {
                self.stage = SearchStage::Done;
                match reply {
                    Ok(found) => publish(
                        trim(self.q.as_str()).to_owned(),
                        self.limit,
                        found,
                    ),
                    Err(_) => SearchAction::Refuse(StatusCode::BadGateway),
                }
            },
            _ => SearchAction::Ignore,
        }
    }
}

} // verus!
