//! What a search does at each step, and what the client is told of a gif, said of
//! what Giphy gave.
use crate::auth::header_values;
use crate::auth::token_among;
use crate::giphy::FoundGif;
use crate::giphy::GifUrls;
use crate::giphy::GifUrlsView;
use crate::giphy::GiphyError;
use crate::giphy::GiphyGif;
use crate::media::is_valid_id;
use crate::search::effective_limit;
use crate::search::gifs_in;
use crate::search::records_of;
use crate::search::records_view;
use crate::search::result_of;
use crate::search::results_of;
use crate::search::results_view;
use crate::search::search_handler;
use crate::search::search_next;
use crate::search::search_with_token;
use crate::search::to_result;
use crate::search::to_results;
use crate::search::GifSearchResult;
use crate::search::SearchAction;
use crate::search::SearchActionView;
use crate::search::SearchEvent;
use crate::search::SearchParams;
use crate::search::SearchRequest;
use crate::search::SearchRequestView;
use crate::search::SearchStage;
use crate::status::StatusCode;
use crate::text::decimal;
use crate::text::parsed;
use crate::text::trimmed;
use crate::text::white_space;
use crate::text_laws::bound_only_rules_out;
use crate::text_laws::numbers_are_written_plainly;
use crate::text_laws::trimming_takes_off_white_space_alone;
use axum::http::HeaderMap;
use vstd::prelude::*;

verus! {

/// The width in a result is the one Giphy gave, and so is the height, and the
/// size: the number that the text writes, if it writes one that fits, and nothing
/// otherwise. Neither depends on anything else.
pub proof fn numbers_are_those_giphy_gave(gif: GiphyGif, result: GifSearchResult)
    requires
        call_ensures(to_result, (gif,), result),
    ensures
        ({
            let text = gif.images.original.width;
            &&& text is None ==> result.width is None
            &&& text is Some ==> match parsed(text->0@, 0xffff_ffff) {
                Some(n) => result.width is Some && result.width->0 == n,
                None => result.width is None,
            }
        }),
        ({
            let text = gif.images.original.height;
            &&& text is None ==> result.height is None
            &&& text is Some ==> match parsed(text->0@, 0xffff_ffff) {
                Some(n) => result.height is Some && result.height->0 == n,
                None => result.height is None,
            }
        }),
        ({
            let text = gif.images.original.size;
            &&& text is None ==> result.size is None
            &&& text is Some ==> match parsed(text->0@, 0xffff_ffff_ffff_ffff) {
                Some(n) => result.size is Some && result.size->0 == n,
                None => result.size is None,
            }
        }),
{
}

/// A dimension that Giphy writes plainly is told as it is: `n` pixels wide is `n`
/// wide whatever the height, and `n` pixels high is `n` high whatever the width.
pub proof fn plain_dimensions_are_told(gif: GiphyGif, n: u32, size: u64)
    ensures
        gif.images.original.width is Some && gif.images.original.width->0@ == decimal(n as nat)
            ==> result_of(gif).width == Some(n),
        gif.images.original.height is Some && gif.images.original.height->0@ == decimal(n as nat)
            ==> result_of(gif).height == Some(n),
        gif.images.original.size is Some && gif.images.original.size->0@ == decimal(size as nat)
            ==> result_of(gif).size == Some(size),
{
    numbers_are_written_plainly(n as nat);
    bound_only_rules_out(decimal(n as nat), n as nat, 0xffff_ffff, n as nat);
    numbers_are_written_plainly(size as nat);
    bound_only_rules_out(decimal(size as nat), size as nat, 0xffff_ffff_ffff_ffff, size as nat);
}

/// A change of one dimension changes that dimension in the result, and nothing
/// else of it.
pub proof fn dimensions_are_told_apart(a: GiphyGif, b: GiphyGif)
    ensures
        a.images.original.width == b.images.original.width ==> result_of(a).width == result_of(
            b,
        ).width,
        a.images.original.height == b.images.original.height ==> result_of(a).height == result_of(
            b,
        ).height,
        a.images.original.size == b.images.original.size ==> result_of(a).size == result_of(b).size,
        a.id == b.id ==> result_of(a).thumb_url == result_of(b).thumb_url && result_of(a).full_url
            == result_of(b).full_url,
{
}

/// The rest of a result: the id, the title and the page are those of the gif, it
/// is a gif, and its media are under its id.
pub proof fn gifs_are_told_by_their_id(gif: GiphyGif, result: GifSearchResult)
    requires
        call_ensures(to_result, (gif,), result),
    ensures
        result.id@ == gif.id@,
        result.title@ == gif.title@,
        result.page_url@ == gif.url@,
        result.mimetype@ == "image/gif"@,
        result.thumb_url@ == "/api/gif/media/"@ + gif.id@,
        result.full_url@ == "/api/gif/media/"@ + gif.id@,
{
}

/// There is one result for each gif, in the same order, and it says of the gif
/// what it would say of it alone.
pub proof fn one_result_for_each_gif(
    gifs: Vec<GiphyGif>,
    results: Vec<GifSearchResult>,
    i: int,
    alone: GifSearchResult,
)
    requires
        call_ensures(to_results, (gifs,), results),
        0 <= i < gifs@.len(),
        call_ensures(to_result, (gifs@[i],), alone),
    ensures
        results@.len() == gifs@.len(),
        results@[i].id@ == alone.id@,
        results@[i].width == alone.width,
        results@[i].height == alone.height,
        results@[i].mimetype@ == alone.mimetype@,
        results@[i].size == alone.size,
        results@[i].title@ == alone.title@,
        results@[i].thumb_url@ == alone.thumb_url@,
        results@[i].full_url@ == alone.full_url@,
        results@[i].page_url@ == alone.page_url@,
{
    assert(results_view(results@).len() == results_of(gifs@).len());
    assert(results_view(results@)[i] == results_of(gifs@)[i]);
    assert(results@[i]@ == alone@);
}

/// Lists say what is in them, one by one.
pub proof fn lists_say_what_is_in_them(
    gifs: Seq<GiphyGif>,
    found: Seq<FoundGif>,
    results: Seq<GifSearchResult>,
    records: Seq<(String, GifUrls)>,
)
    ensures
        results_of(gifs).len() == gifs.len(),
        forall|i: int| 0 <= i < gifs.len() ==> #[trigger] results_of(gifs)[i] == result_of(gifs[i]),
        gifs_in(found).len() == found.len(),
        forall|i: int| 0 <= i < found.len() ==> #[trigger] gifs_in(found)[i] == found[i].gif,
        results_view(results).len() == results.len(),
        forall|i: int|
            0 <= i < results.len() ==> {
                let said = #[trigger] results_view(results)[i];
                &&& said.id == results[i].id@
                &&& said.width == results[i].width
                &&& said.height == results[i].height
                &&& said.mimetype == results[i].mimetype@
                &&& said.size == results[i].size
                &&& said.title == results[i].title@
                &&& said.thumb_url == results[i].thumb_url@
                &&& said.full_url == results[i].full_url@
                &&& said.page_url == results[i].page_url@
            },
        records_view(records).len() == records.len(),
        forall|i: int|
            0 <= i < records.len() ==> {
                let said = #[trigger] records_view(records)[i];
                &&& said.0 == records[i].0@
                &&& said.1.full == records[i].1.full@
                &&& said.1.thumb == records[i].1.thumb@
            },
{
}

/// For each gif found under a valid id one record is made, in order: of the url of
/// its original as the full one, and of its rendition of fixed width as the
/// thumbnail, or of the original again if there is none. For any other gif none is
/// made.
pub proof fn one_record_for_each_valid_id(found: Seq<FoundGif>, one: FoundGif)
    ensures
        records_of(Seq::<FoundGif>::empty()) == Seq::<(Seq<char>, GifUrlsView)>::empty(),
        !is_valid_id(one.gif.id@) ==> records_of(found.push(one)) == records_of(found),
        is_valid_id(one.gif.id@) ==> records_of(found.push(one)) == records_of(found).push(
            (
                one.gif.id@,
                GifUrlsView {
                    full: one.gif.images.original.url@,
                    thumb: if one.fixed_width is Some {
                        one.fixed_width->0@
                    } else {
                        one.gif.images.original.url@
                    },
                },
            ),
        ),
{
    assert(found.push(one).drop_last() =~= found);
}

/// The limit in effect is the one that is wanted, or 24 if none is, and 50 if that
/// is less.
pub proof fn limit_in_effect(wanted: u32)
    ensures
        effective_limit(None::<u32>) == 24,
        wanted <= 50 ==> effective_limit(Some(wanted)) == wanted,
        wanted >= 50 ==> effective_limit(Some(wanted)) == 50,
{
}

/// A query that holds anything but white space is looked up, trimmed and with the
/// limit in effect; only one that holds nothing else is answered with nothing at
/// once. All that only with a good token.
pub proof fn only_blank_queries_are_answered_at_once(s: SearchRequestView)
    requires
        s.stage == SearchStage::Verifying,
    ensures
        (exists|i: int| 0 <= i < s.q.len() && !white_space(#[trigger] s.q[i])) ==> search_next(
            s,
            SearchEvent::Verified(true),
        ) == (
            SearchStage::Recalling,
            SearchActionView::Recall { q: trimmed(s.q), limit: s.limit },
        ),
        (forall|i: int| 0 <= i < s.q.len() ==> white_space(#[trigger] s.q[i])) ==> search_next(
            s,
            SearchEvent::Verified(true),
        ) == (SearchStage::Done, SearchActionView::Respond(Seq::empty())),
        search_next(s, SearchEvent::Verified(false)) == (
            SearchStage::Done,
            SearchActionView::Refuse(StatusCode::Unauthorized),
        ),
{
    trimming_takes_off_white_space_alone(s.q);
}

/// What is remembered is the answer; if nothing is, Giphy is called with the query
/// as it was given.
pub proof fn memory_is_asked_before_giphy(s: SearchRequestView, results: Vec<GifSearchResult>)
    requires
        s.stage == SearchStage::Recalling,
    ensures
        search_next(s, SearchEvent::Recalled(Some(results))) == (
            SearchStage::Done,
            SearchActionView::Respond(results_view(results@)),
        ),
        search_next(s, SearchEvent::Recalled(None::<Vec<GifSearchResult>>)) == (
            SearchStage::Calling,
            SearchActionView::Call { q: s.q, limit: s.limit },
        ),
{
}

/// What Giphy found is the answer: all of it, in order; it is remembered for the
/// trimmed query and the limit in effect, and its urls are recorded. If the call
/// failed, in whatever way, the gateway is bad.
pub proof fn giphy_gives_the_answer(
    s: SearchRequestView,
    found: Vec<FoundGif>,
    error: GiphyError,
)
    requires
        s.stage == SearchStage::Calling,
    ensures
        ({
            let (stage, action) = search_next(s, SearchEvent::Replied(Ok(found)));
            &&& stage == SearchStage::Done
            &&& action matches SearchActionView::Publish { q, limit, results, records } && {
                &&& q == trimmed(s.q)
                &&& limit == s.limit
                &&& results.len() == found@.len()
                &&& forall|i: int|
                    0 <= i < found@.len() ==> #[trigger] results[i] == result_of(found@[i].gif)
                &&& records == records_of(found@)
            }
        }),
        search_next(s, SearchEvent::Replied(Err::<Vec<FoundGif>, GiphyError>(error))) == (
            SearchStage::Done,
            SearchActionView::Refuse(StatusCode::BadGateway),
        ),
{
}

/// What a search does not wait for changes nothing.
pub proof fn search_heeds_only_what_it_awaits(s: SearchRequestView, event: SearchEvent)
    requires
        s.stage == SearchStage::Verifying ==> !(event is Verified),
        s.stage == SearchStage::Recalling ==> !(event is Recalled),
        s.stage == SearchStage::Calling ==> !(event is Replied),
    ensures
        search_next(s, event) == (s.stage, SearchActionView::Ignore),
{
}

/// A copy of a result, or of urls, is the same as what it was made of.
pub proof fn copies_are_the_same(
    result: GifSearchResult,
    copy: GifSearchResult,
    urls: GifUrls,
    other: GifUrls,
)
    requires
        call_ensures(GifSearchResult::clone, (&result,), copy),
        call_ensures(GifUrls::clone, (&urls,), other),
    ensures
        copy == result,
        other == urls,
{
}

/// An action says what it holds.
pub proof fn search_actions_say_what_they_hold(
    q: String,
    limit: u32,
    results: Vec<GifSearchResult>,
    records: Vec<(String, GifUrls)>,
    status: StatusCode,
)
    ensures
        (SearchAction::Recall { q, limit })@ == (SearchActionView::Recall { q: q@, limit }),
        (SearchAction::Call { q, limit })@ == (SearchActionView::Call { q: q@, limit }),
        SearchAction::Respond(results)@ == SearchActionView::Respond(results_view(results@)),
        (SearchAction::Publish { q, limit, results, records })@ == (SearchActionView::Publish {
            q: q@,
            limit,
            results: results_view(results@),
            records: records_view(records@),
        }),
        SearchAction::Refuse(status)@ == SearchActionView::Refuse(status),
        SearchAction::Ignore@ == SearchActionView::Ignore,
{
}

/// A search is taken exactly if the headers carry a token, and is for the query
/// and the limit that were given; without a token it is unauthorized. Each step
/// of it is the one described.
pub proof fn searches_are_for_what_was_asked(
    headers: &HeaderMap,
    params: SearchParams,
    r: Result<SearchRequest, StatusCode>,
    token: &str,
    with_token: SearchRequest,
    s: &mut SearchRequest,
    event: SearchEvent,
    action: SearchAction,
    came_with: &str,
)
    requires
        call_ensures(search_handler, (headers, params), r),
        call_ensures(search_with_token, (token, params), with_token),
        call_ensures(SearchRequest::step, (s, event), action),
        call_ensures(SearchRequest::token, (&*old(s),), came_with),
    ensures
        r is Ok <==> token_among(header_values(*headers)) is Some,
        r is Err ==> r->Err_0 == StatusCode::Unauthorized,
        r is Ok ==> {
            &&& r->Ok_0@.token == token_among(header_values(*headers))->0
            &&& r->Ok_0@.q == params.q@
            &&& r->Ok_0@.limit == effective_limit(params.limit)
            &&& r->Ok_0@.stage == SearchStage::Verifying
        },
        with_token@.token == token@,
        with_token@.q == params.q@,
        with_token@.limit == effective_limit(params.limit),
        with_token@.stage == SearchStage::Verifying,
        final(s)@.token == old(s)@.token,
        final(s)@.q == old(s)@.q,
        final(s)@.limit == old(s)@.limit,
        final(s)@.stage == search_next(old(s)@, event).0,
        action@ == search_next(old(s)@, event).1,
        came_with@ == old(s)@.token,
{
}

} // verus!
