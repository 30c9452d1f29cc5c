//! What holds of searches, whatever happens to them.
use crate::giphy::urls_of;
use crate::giphy::FoundGif;
use crate::giphy::GiphyError;
use crate::media::is_valid_id;
use crate::search::effective_limit;
use crate::search::records_of;
use crate::search::results_view;
use crate::search::search_next;
use crate::search::GifSearchResult;
use crate::search::SearchActionView;
use crate::search::SearchEvent;
use crate::search::SearchRequestView;
use crate::search::SearchStage;
use crate::status::StatusCode;
use crate::text::trimmed;
use vstd::prelude::*;

verus! {

/// A search after a row of events.
pub open spec fn search_after(s: SearchRequestView, events: Seq<SearchEvent>) -> SearchRequestView
    decreases events.len(),
{
    if events.len() == 0 {
        s
    } else {
        let before = search_after(s, events.drop_last());
        SearchRequestView { stage: search_next(before, events.last()).0, ..before }
    }
}

/// What a search asks for at each of a row of events.
pub open spec fn search_actions(s: SearchRequestView, events: Seq<SearchEvent>) -> Seq<
    SearchActionView,
>
    decreases events.len(),
{
    if events.len() == 0 {
        Seq::empty()
    } else {
        search_actions(s, events.drop_last()).push(
            search_next(search_after(s, events.drop_last()), events.last()).1,
        )
    }
}

/// Whether one of the first `n` events says that the token is good.
pub open spec fn authorized(events: Seq<SearchEvent>, n: int) -> bool {
    exists|j: int| 0 <= j < n && #[trigger] events[j] == SearchEvent::Verified(true)
}

/// Whether the action at the event `i`, if it calls Giphy's API, is due: the
/// token was found good, the query is not blank, nothing is remembered, and the
/// call is for what was asked.
pub open spec fn call_is_due(s: SearchRequestView, events: Seq<SearchEvent>, i: int) -> bool {
    match search_actions(s, events)[i] {
        SearchActionView::Call { q, limit } => {
            &&& authorized(events, i)
            &&& trimmed(s.q).len() > 0
            &&& events[i] == SearchEvent::Recalled(None::<Vec<GifSearchResult>>)
            &&& q == s.q
            &&& limit == s.limit
        },
        _ => true,
    }
}

/// Whether the action at the event `i`, if it gives anything away, was authorized:
/// it looks up what is remembered, calls Giphy's API, or answers with results.
pub open spec fn disclosure_is_authorized(
    s: SearchRequestView,
    events: Seq<SearchEvent>,
    i: int,
) -> bool {
    match search_actions(s, events)[i] {
        SearchActionView::Refuse(status) => true,
        SearchActionView::Ignore => true,
        _ => authorized(events, i + 1),
    }
}

/// Whether the action at the event `i` looks up or remembers under no other key
/// than the trimmed query and the limit in effect.
pub open spec fn key_is_normalized(s: SearchRequestView, events: Seq<SearchEvent>, i: int) -> bool {
    match search_actions(s, events)[i] {
        SearchActionView::Recall { q, limit } => q == trimmed(s.q) && limit == s.limit,
        SearchActionView::Publish { q, limit, results, records } => q == trimmed(s.q) && limit
            == s.limit,
        _ => true,
    }
}

proof fn search_history(s: SearchRequestView, events: Seq<SearchEvent>)
    requires
        s.stage == SearchStage::Verifying,
    ensures
        search_after(s, events) == (SearchRequestView {
            stage: search_after(s, events).stage,
            ..s
        }),
        search_actions(s, events).len() == events.len(),
        search_after(s, events).stage == SearchStage::Recalling || search_after(s, events).stage
            == SearchStage::Calling ==> authorized(events, events.len() as int) && trimmed(
            s.q,
        ).len() > 0,
        search_after(s, events).stage == SearchStage::Verifying || search_after(s, events).stage
            == SearchStage::Recalling ==> forall|i: int|
            0 <= i < events.len() ==> !(#[trigger] search_actions(s, events)[i] is Call),
        forall|i: int| 0 <= i < events.len() ==> #[trigger] call_is_due(s, events, i),
        forall|i: int| 0 <= i < events.len() ==> #[trigger] disclosure_is_authorized(s, events, i),
        forall|i: int| 0 <= i < events.len() ==> #[trigger] key_is_normalized(s, events, i),
        forall|i: int, j: int|
            0 <= i < j < events.len() && #[trigger] search_actions(s, events)[i] is Call ==> !(
            #[trigger] search_actions(s, events)[j] is Call),
    decreases events.len(),
{
    if events.len() > 0 {
        let rest = events.drop_last();
        search_history(s, rest);
        let done = search_actions(s, rest);
        let all = search_actions(s, events);
        let before = search_after(s, rest);
        let n = rest.len() as int;
        assert(forall|i: int| 0 <= i < n ==> all[i] == done[i]);
        assert(forall|i: int| 0 <= i < n ==> events[i] == rest[i]);
        assert forall|m: int| 0 <= m <= n && authorized(rest, m) implies #[trigger] authorized(
            events,
            m,
        ) && authorized(events, m + 1) by {
            let j = choose|j: int| 0 <= j < m && #[trigger] rest[j] == SearchEvent::Verified(true);
            assert(events[j] == rest[j]);
        }
        if before.stage == SearchStage::Recalling || before.stage == SearchStage::Calling {
            assert(authorized(events, n));
        }
        if before.stage == SearchStage::Verifying && events.last() == SearchEvent::Verified(true) {
            assert(events[n] == SearchEvent::Verified(true));
            assert(authorized(events, n + 1));
        }
        assert forall|i: int| 0 <= i < events.len() implies #[trigger] call_is_due(s, events, i) by {
            if i < n {
                assert(call_is_due(s, rest, i));
                if authorized(rest, i) {
                    assert(authorized(events, i));
                }
            }
        }
        assert forall|i: int| 0 <= i < events.len() implies #[trigger] disclosure_is_authorized(
            s,
            events,
            i,
        ) by {
            if i < n {
                assert(disclosure_is_authorized(s, rest, i));
                if authorized(rest, i + 1) {
                    assert(authorized(events, i + 1));
                }
            }
        }
        assert forall|i: int| 0 <= i < events.len() implies #[trigger] key_is_normalized(
            s,
            events,
            i,
        ) by {
            if i < n {
                assert(key_is_normalized(s, rest, i));
            }
        }
        assert forall|i: int, j: int|
            0 <= i < j < events.len() && #[trigger] all[i] is Call implies !(
        #[trigger] all[j] is Call) by {
            assert(all[i] == done[i]);
            if j < n {
                assert(all[j] == done[j]);
            }
        }
    }
}

/// Giphy's API is called only when it is due.
pub proof fn calls_are_due(s: SearchRequestView, events: Seq<SearchEvent>)
    requires
        s.stage == SearchStage::Verifying,
    ensures
        search_actions(s, events).len() == events.len(),
        forall|i: int| 0 <= i < events.len() ==> #[trigger] call_is_due(s, events, i),
{
    search_history(s, events);
}

/// A search calls Giphy's API at most once.
pub proof fn at_most_one_call(s: SearchRequestView, events: Seq<SearchEvent>, i: int, j: int)
    requires
        s.stage == SearchStage::Verifying,
        0 <= i < events.len(),
        0 <= j < events.len(),
        search_actions(s, events)[i] is Call,
        search_actions(s, events)[j] is Call,
    ensures
        i == j,
{
    search_history(s, events);
}

/// Without a good token a search learns nothing and costs nothing: whatever else
/// happens, it is refused or left waiting.
pub proof fn nothing_without_a_good_token(s: SearchRequestView, events: Seq<SearchEvent>)
    requires
        s.stage == SearchStage::Verifying,
    ensures
        forall|i: int| 0 <= i < events.len() ==> #[trigger] disclosure_is_authorized(s, events, i),
{
    search_history(s, events);
}

/// A token that is not good is answered with 401.
pub proof fn bad_token_is_unauthorized(s: SearchRequestView)
    requires
        s.stage == SearchStage::Verifying,
    ensures
        search_next(s, SearchEvent::Verified(false)) == (
            SearchStage::Done,
            SearchActionView::Refuse(StatusCode::Unauthorized),
        ),
        StatusCode::Unauthorized.number() == 401,
{
}

/// Answers are remembered under the key they are looked up with: the query
/// without the white space around it, and the limit in effect.
pub proof fn answers_are_kept_per_normalized_search(s: SearchRequestView, events: Seq<SearchEvent>)
    requires
        s.stage == SearchStage::Verifying,
    ensures
        forall|i: int| 0 <= i < events.len() ==> #[trigger] key_is_normalized(s, events, i),
{
    search_history(s, events);
}

/// Two authorized searches that are the same once normalized look up the same
/// key, whatever else they differ in.
pub proof fn same_search_same_key(a: SearchRequestView, b: SearchRequestView)
    requires
        a.stage == SearchStage::Verifying,
        b.stage == SearchStage::Verifying,
        trimmed(a.q) == trimmed(b.q),
        a.limit == b.limit,
    ensures
        search_next(a, SearchEvent::Verified(true)) == search_next(b, SearchEvent::Verified(true)),
{
}

/// A remembered answer is given as it is, without a call.
pub proof fn remembered_answer_costs_no_call(s: SearchRequestView, results: Vec<GifSearchResult>)
    requires
        s.stage == SearchStage::Recalling,
    ensures
        search_next(s, SearchEvent::Recalled(Some(results))) == (
            SearchStage::Done,
            SearchActionView::Respond(results_view(results@)),
        ),
{
}

/// A failure of Giphy's API is answered with 502, and nothing is remembered.
pub proof fn failed_call_is_bad_gateway(s: SearchRequestView, error: GiphyError)
    requires
        s.stage == SearchStage::Calling,
    ensures
        search_next(s, SearchEvent::Replied(Err::<Vec<FoundGif>, GiphyError>(error))) == (
            SearchStage::Done,
            SearchActionView::Refuse(StatusCode::BadGateway),
        ),
        StatusCode::BadGateway.number() == 502,
{
}

/// The limit in effect is never above 50, and is what the client wants if that is
/// no more.
pub proof fn limit_is_bounded(limit: Option<u32>)
    ensures
        effective_limit(limit) <= 50,
        limit is None ==> effective_limit(limit) == 24,
        limit matches Some(n) ==> n <= 50 ==> effective_limit(limit) == n,
{
}

/// Every gif found under a valid id can be served later: its urls are recorded.
/// And nothing is recorded under an id that is not valid.
pub proof fn found_gifs_are_recorded(found: Seq<FoundGif>)
    ensures
        forall|i: int|
            0 <= i < found.len() && is_valid_id((#[trigger] found[i]).gif.id@) ==> records_of(
                found,
            ).contains((found[i].gif.id@, urls_of(found[i]))),
        forall|k: int|
            0 <= k < records_of(found).len() ==> is_valid_id((#[trigger] records_of(found)[k]).0),
    decreases found.len(),
{
    if found.len() > 0 {
        let rest = found.drop_last();
        found_gifs_are_recorded(rest);
        let records = records_of(found);
        assert forall|i: int|
            0 <= i < found.len() && is_valid_id((#[trigger] found[i]).gif.id@) implies records.contains(
        (found[i].gif.id@, urls_of(found[i]))) by {
            if i < rest.len() {
                assert(rest[i] == found[i]);
                let record = (found[i].gif.id@, urls_of(found[i]));
                assert(records_of(rest).contains(record));
                let k = choose|k: int|
                    0 <= k < records_of(rest).len() && records_of(rest)[k] == record;
                assert(records[k] == record);
            } else {
                assert(records[records.len() - 1] == (found[i].gif.id@, urls_of(found[i])));
            }
        }
    }
}

} // verus!
