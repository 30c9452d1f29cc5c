//! What holds of requests for media that are under way at the same time.
use crate::media::arrival;
use crate::media::cache_key;
use crate::media::is_valid_id;
use crate::media::media_next;
use crate::media::serve;
use crate::media::MediaActionView;
use crate::media::MediaEvent;
use crate::media::MediaRequestView;
use crate::media::MediaStage;
use crate::media::Variant;
use crate::media_laws::all_that_was_read_is_shared;
use crate::media_laws::body_read;
use crate::media_laws::bytes_are_relayed_faithfully;
use crate::media_laws::fetches_seen;
use crate::media_laws::fresh;
use crate::media_laws::media_actions;
use crate::media_laws::media_after;
use crate::media_laws::sent_on;
use vstd::prelude::*;

verus! {

/// All requests for media that there have been.
#[verifier::ext_equal]
pub struct Traffic {
    /// How each began.
    pub first: Seq<MediaRequestView>,
    /// What each has been told since.
    pub heard: Seq<Seq<MediaEvent>>,
    /// Which one leads under a key. The keys are those of the downloads that are
    /// under way.
    pub leaders: Map<Seq<char>, int>,
    /// Which one a request followed last.
    pub follows: Map<int, int>,
    /// What those that led have shared in the end.
    pub endings: Map<int, Option<Seq<u8>>>,
}

/// Something that happens to the traffic.
pub enum TrafficEvent {
    /// A request for this rendition arrives.
    Arrive(Seq<char>, Variant),
    /// A request is told something.
    Told(int, MediaEvent),
    /// A request that leads is given up, since its client is gone.
    Vanish(int),
}

impl Traffic {
    /// A request as it is now.
    pub open spec fn now(self, i: int) -> MediaRequestView {
        media_after(self.first[i], self.heard[i])
    }

    /// What a request has asked for, event by event.
    pub open spec fn actions(self, i: int) -> Seq<MediaActionView> {
        media_actions(self.first[i], self.heard[i])
    }

    /// Whether a request leads under its key.
    pub open spec fn leads(self, i: int) -> bool {
        self.leaders.contains_key(self.now(i).key()) && self.leaders[self.now(i).key()] == i
    }
}

/// No traffic.
pub open spec fn no_traffic() -> Traffic {
    Traffic {
        first: Seq::empty(),
        heard: Seq::empty(),
        leaders: Map::empty(),
        follows: Map::empty(),
        endings: Map::empty(),
    }
}

/// What a request shares with those that follow it when it asks for this, if that
/// is its end: the body of its answer, if it has one.
pub open spec fn ending(action: MediaActionView) -> Option<Option<Seq<u8>>> {
    match action {
        MediaActionView::Respond { content_type, cache_control, body } => Some(Some(body)),
        MediaActionView::Commit { key, body } => Some(Some(body)),
        MediaActionView::Close { body } => Some(Some(body)),
        MediaActionView::Abort => Some(None),
        MediaActionView::Refuse(status) => Some(None),
        _ => None,
    }
}

/// The body that an event brings from the request that was followed.
pub open spec fn body_brought(body: Option<Vec<u8>>) -> Option<Seq<u8>> {
    match body {
        Some(b) => Some(b@),
        None => None,
    }
}

/// Whether something can happen. A request that joins leads exactly if none does
/// under its key; one that follows is told what the one it follows has shared,
/// once it has; and one that led is told nothing after its end.
pub open spec fn can_happen(t: Traffic, event: TrafficEvent) -> bool {
    match event {
        TrafficEvent::Arrive(id, variant) => is_valid_id(id),
        TrafficEvent::Told(i, told) => {
            &&& 0 <= i < t.first.len()
            &&& !t.endings.contains_key(i)
            &&& match told {
                MediaEvent::Joined(lead) => t.now(i).stage == MediaStage::Joining ==> lead
                    == !t.leaders.contains_key(t.now(i).key()),
                MediaEvent::DownloadEnded(body) => t.now(i).stage == MediaStage::Following ==> {
                    &&& t.endings.contains_key(t.follows[i])
                    &&& t.endings[t.follows[i]] == body_brought(body)
                },
                _ => true,
            }
        },
        TrafficEvent::Vanish(i) => 0 <= i < t.first.len() && t.leads(i),
    }
}

/// The traffic once a request for a rendition has arrived.
pub open spec fn arrived(t: Traffic, id: Seq<char>, variant: Variant) -> Traffic {
    let key = cache_key(id, variant);
    let n = t.first.len() as int;
    let joined = Traffic {
        first: t.first.push(arrival(t.leaders.dom(), id, variant).0),
        heard: t.heard.push(Seq::empty()),
        ..t
    };
    if t.leaders.contains_key(key) {
        Traffic { follows: t.follows.insert(n, t.leaders[key]), ..joined }
    } else {
        Traffic { leaders: t.leaders.insert(key, n), ..joined }
    }
}

/// The traffic once a request has been told something.
pub open spec fn after_told(t: Traffic, i: int, told: MediaEvent) -> Traffic {
    let m = t.now(i);
    let key = m.key();
    let action = media_next(m, told).1;
    let heard = Traffic { heard: t.heard.update(i, t.heard[i].push(told)), ..t };
    if m.stage == MediaStage::Joining && told is Joined {
        if t.leaders.contains_key(key) {
            Traffic { follows: t.follows.insert(i, t.leaders[key]), ..heard }
        } else {
            Traffic { leaders: t.leaders.insert(key, i), ..heard }
        }
    } else if t.leads(i) && ending(action) is Some {
        Traffic {
            leaders: t.leaders.remove(key),
            endings: t.endings.insert(i, ending(action)->0),
            ..heard
        }
    } else {
        heard
    }
}

/// The traffic after something has happened.
pub open spec fn traffic_next(t: Traffic, event: TrafficEvent) -> Traffic {
    match event {
        TrafficEvent::Arrive(id, variant) => arrived(t, id, variant),
        TrafficEvent::Told(i, told) => after_told(t, i, told),
        TrafficEvent::Vanish(i) => Traffic {
            leaders: t.leaders.remove(t.now(i).key()),
            endings: t.endings.insert(i, None),
            ..t
        },
    }
}

/// The traffic after a row of events, from its beginning.
pub open spec fn traffic_after(events: Seq<TrafficEvent>) -> Traffic
    decreases events.len(),
{
    if events.len() == 0 {
        no_traffic()
    } else {
        traffic_next(traffic_after(events.drop_last()), events.last())
    }
}

/// Whether a row of events can happen, one after the other.
pub open spec fn can_run(events: Seq<TrafficEvent>) -> bool
    decreases events.len(),
{
    events.len() > 0 ==> {
        &&& can_run(events.drop_last())
        &&& can_happen(traffic_after(events.drop_last()), events.last())
    }
}

/// Whether a request waits for something that only one that leads waits for.
spec fn active(stage: MediaStage) -> bool {
    match stage {
        MediaStage::Looking => true,
        MediaStage::Locating => true,
        MediaStage::Fetching => true,
        MediaStage::Streaming { begun, caching } => true,
        _ => false,
    }
}

proof fn one_more_heard(m: MediaRequestView, events: Seq<MediaEvent>, told: MediaEvent)
    ensures
        media_after(m, events.push(told)) == media_next(media_after(m, events), told).0,
        media_actions(m, events.push(told)) == media_actions(m, events).push(
            media_next(media_after(m, events), told).1,
        ),
{
    assert(events.push(told).drop_last() =~= events);
}

proof fn same_rendition(m: MediaRequestView, events: Seq<MediaEvent>)
    ensures
        media_after(m, events).key() == m.key(),
        media_actions(m, events).len() == events.len(),
    decreases events.len(),
{
    if events.len() > 0 {
        same_rendition(m, events.drop_last());
    }
}

/// As long as a request is not done, it has not been answered.
proof fn answered_only_when_done(m: MediaRequestView, events: Seq<MediaEvent>)
    ensures
        media_actions(m, events).len() == events.len(),
        media_after(m, events).stage != MediaStage::Done ==> forall|k: int|
            0 <= k < events.len() ==> ending(#[trigger] media_actions(m, events)[k]) is None,
    decreases events.len(),
{
    if events.len() > 0 {
        let rest = events.drop_last();
        answered_only_when_done(m, rest);
        let all = media_actions(m, events);
        if media_after(m, events).stage != MediaStage::Done {
            assert forall|k: int| 0 <= k < events.len() implies ending(
                #[trigger] all[k],
            ) is None by {
                if k < rest.len() {
                    assert(all[k] == media_actions(m, rest)[k]);
                }
            }
        }
    }
}

/// A body is read only of what was fetched.
proof fn fetched_before_streaming(m: MediaRequestView, events: Seq<MediaEvent>)
    requires
        fresh(m),
    ensures
        media_actions(m, events).len() == events.len(),
        media_after(m, events).stage is Fetching || media_after(m, events).stage is Streaming
            ==> exists|k: int| 0 <= k < events.len() && #[trigger] media_actions(m, events)[k] is Fetch,
    decreases events.len(),
{
    if events.len() > 0 {
        let rest = events.drop_last();
        fetched_before_streaming(m, rest);
        let before = media_after(m, rest);
        let after = media_after(m, events);
        let all = media_actions(m, events);
        if after.stage is Fetching || after.stage is Streaming {
            if before.stage is Fetching || before.stage is Streaming {
                let k = choose|k: int|
                    0 <= k < rest.len() && #[trigger] media_actions(m, rest)[k] is Fetch;
                assert(all[k] is Fetch);
            } else {
                assert(all[rest.len() as int] is Fetch);
            }
        }
    }
}

/// Whether a request that follows one that has shared `body` gets nothing else:
/// it fetches nothing, still waits or is done, and is answered with the body.
pub open spec fn gets(t: Traffic, f: int, body: Seq<u8>) -> bool {
    &&& t.now(f).stage == MediaStage::Following || t.now(f).stage == MediaStage::Done
    &&& forall|k: int|
        0 <= k < t.actions(f).len() ==> !(#[trigger] t.actions(f)[k] is Fetch) && (ending(
            t.actions(f)[k],
        ) is Some ==> t.actions(f)[k] == serve(body))
    &&& t.now(f).stage == MediaStage::Done ==> exists|k: int|
        0 <= k < t.actions(f).len() && #[trigger] t.actions(f)[k] == serve(body)
}

spec fn leader_ok(t: Traffic, key: Seq<char>) -> bool {
    let d = t.leaders[key];
    &&& 0 <= d < t.first.len()
    &&& !t.endings.contains_key(d)
    &&& t.now(d).key() == key
    &&& active(t.now(d).stage)
}

spec fn request_ok(t: Traffic, i: int) -> bool {
    &&& fresh(t.first[i])
    &&& active(t.now(i).stage) && !t.endings.contains_key(i) ==> t.leads(i)
    &&& t.now(i).stage == MediaStage::Following ==> t.follows.contains_key(i)
}

spec fn follower_ok(t: Traffic, f: int) -> bool {
    let d = t.follows[f];
    &&& 0 <= f < t.first.len()
    &&& 0 <= d < t.first.len()
    &&& t.now(d).key() == t.now(f).key()
    &&& t.endings.contains_key(d) || (t.leads(d) && t.now(f).stage == MediaStage::Following)
    &&& t.endings.contains_key(d) && t.endings[d] is Some ==> gets(t, f, t.endings[d]->0)
}

spec fn ending_ok(t: Traffic, d: int) -> bool {
    &&& 0 <= d < t.first.len()
    &&& t.endings[d] is Some ==> t.actions(d).len() > 0 && ending(t.actions(d).last()) == Some(
        t.endings[d],
    )
}

/// What holds of the traffic at all times.
spec fn sound(t: Traffic) -> bool {
    &&& t.first.len() == t.heard.len()
    &&& forall|key: Seq<char>| #[trigger] t.leaders.contains_key(key) ==> leader_ok(t, key)
    &&& forall|i: int| 0 <= i < t.first.len() ==> #[trigger] request_ok(t, i)
    &&& forall|f: int| #[trigger] t.follows.contains_key(f) ==> follower_ok(t, f)
    &&& forall|d: int| #[trigger] t.endings.contains_key(d) ==> ending_ok(t, d)
}

proof fn arriving_keeps_sound(t: Traffic, id: Seq<char>, variant: Variant)
    requires
        sound(t),
    ensures
        sound(arrived(t, id, variant)),
{
    let u = arrived(t, id, variant);
    let n = t.first.len() as int;
    let key = cache_key(id, variant);
    assert forall|i: int| 0 <= i < n implies #[trigger] u.now(i) == t.now(i) && u.actions(i)
        == t.actions(i) by {
        assert(u.first[i] == t.first[i]);
        assert(u.heard[i] == t.heard[i]);
    }
    assert(u.now(n) == u.first[n]);
    assert(u.now(n).key() == key);
    assert(u.actions(n).len() == 0);
    if t.endings.contains_key(n) {
        assert(ending_ok(t, n));
    }
    if t.follows.contains_key(n) {
        assert(follower_ok(t, n));
    }
    assert forall|k: Seq<char>| #[trigger] u.leaders.contains_key(k) implies leader_ok(u, k) by {
        if t.leaders.contains_key(k) {
            assert(leader_ok(t, k));
        }
    }
    assert forall|i: int| 0 <= i < u.first.len() implies #[trigger] request_ok(u, i) by {
        if i < n {
            assert(request_ok(t, i));
            assert(u.now(i) == t.now(i));
        }
    }
    assert forall|f: int| #[trigger] u.follows.contains_key(f) implies follower_ok(u, f) by {
        if f < n {
            assert(t.follows.contains_key(f));
            assert(follower_ok(t, f));
            assert(u.now(f) == t.now(f));
            assert(u.now(t.follows[f]) == t.now(t.follows[f]));
        } else {
            if t.follows.contains_key(f) {
                assert(follower_ok(t, f));
            }
            let d = t.leaders[key];
            assert(leader_ok(t, key));
            assert(u.now(d) == t.now(d));
        }
    }
    assert forall|d: int| #[trigger] u.endings.contains_key(d) implies ending_ok(u, d) by {
        assert(ending_ok(t, d));
        assert(u.now(d) == t.now(d));
    }
}

proof fn vanishing_keeps_sound(t: Traffic, gone: int)
    requires
        sound(t),
        can_happen(t, TrafficEvent::Vanish(gone)),
    ensures
        sound(traffic_next(t, TrafficEvent::Vanish(gone))),
{
    let u = traffic_next(t, TrafficEvent::Vanish(gone));
    let key = t.now(gone).key();
    assert(leader_ok(t, key));
    assert forall|i: int| #[trigger] u.now(i) == t.now(i) && u.actions(i) == t.actions(i) by {}
    assert forall|k: Seq<char>| #[trigger] u.leaders.contains_key(k) implies leader_ok(u, k) by {
        assert(t.leaders.contains_key(k));
        assert(leader_ok(t, k));
    }
    assert forall|i: int| 0 <= i < u.first.len() implies #[trigger] request_ok(u, i) by {
        assert(request_ok(t, i));
        assert(u.now(i) == t.now(i));
    }
    assert forall|f: int| #[trigger] u.follows.contains_key(f) implies follower_ok(u, f) by {
        assert(follower_ok(t, f));
        assert(u.now(f) == t.now(f));
        assert(u.now(t.follows[f]) == t.now(t.follows[f]));
    }
    assert forall|d: int| #[trigger] u.endings.contains_key(d) implies ending_ok(u, d) by {
        if d != gone {
            assert(t.endings.contains_key(d));
            assert(ending_ok(t, d));
        }
    }
}

proof fn telling_keeps_sound(t: Traffic, i: int, told: MediaEvent)
    requires
        sound(t),
        can_happen(t, TrafficEvent::Told(i, told)),
    ensures
        sound(after_told(t, i, told)),
{
    let u = after_told(t, i, told);
    let m = t.now(i);
    let key = m.key();
    let action = media_next(m, told).1;
    one_more_heard(t.first[i], t.heard[i], told);
    answered_only_when_done(t.first[i], t.heard[i]);
    assert(request_ok(t, i));
    assert(u.now(i) == media_next(m, told).0);
    assert(u.actions(i) == t.actions(i).push(action));
    assert(u.now(i).key() == key);
    assert forall|j: int| 0 <= j < t.first.len() && j != i implies #[trigger] u.now(j) == t.now(j)
        && u.actions(j) == t.actions(j) by {
        assert(u.heard[j] == t.heard[j]);
    }
    assert forall|k: Seq<char>| #[trigger] u.leaders.contains_key(k) implies leader_ok(u, k) by {
        if t.leaders.contains_key(k) {
            assert(leader_ok(t, k));
        }
    }
    assert forall|j: int| 0 <= j < u.first.len() implies #[trigger] request_ok(u, j) by {
        assert(request_ok(t, j));
        if j != i {
            assert(u.now(j) == t.now(j));
            if t.leads(j) {
                assert(t.leaders.contains_key(t.now(j).key()));
            }
        }
    }
    assert forall|d: int| #[trigger] u.endings.contains_key(d) implies ending_ok(u, d) by {
        if d != i {
            assert(t.endings.contains_key(d));
            assert(ending_ok(t, d));
            assert(u.now(d) == t.now(d));
        }
    }
    assert forall|f: int| #[trigger] u.follows.contains_key(f) implies follower_ok(u, f) by {
        telling_keeps_follower(t, i, told, f);
    }
}

proof fn telling_keeps_follower(t: Traffic, i: int, told: MediaEvent, f: int)
    requires
        sound(t),
        can_happen(t, TrafficEvent::Told(i, told)),
        after_told(t, i, told).follows.contains_key(f),
    ensures
        follower_ok(after_told(t, i, told), f),
{
    let u = after_told(t, i, told);
    let m = t.now(i);
    let key = m.key();
    let action = media_next(m, told).1;
    one_more_heard(t.first[i], t.heard[i], told);
    assert(request_ok(t, i));
    assert(u.now(i) == media_next(m, told).0);
    assert(u.actions(i) == t.actions(i).push(action));
    assert forall|j: int| 0 <= j < t.first.len() && j != i implies #[trigger] u.now(j) == t.now(j)
        && u.actions(j) == t.actions(j) by {
        assert(u.heard[j] == t.heard[j]);
    }
    if m.stage == MediaStage::Joining && told is Joined && t.leaders.contains_key(key) && f == i {
        let d = t.leaders[key];
        assert(leader_ok(t, key));
        assert(d != i);
        assert(u.now(d) == t.now(d));
    } else {
        assert(t.follows.contains_key(f));
        assert(follower_ok(t, f));
        let d = t.follows[f];
        assert(u.follows[f] == d);
        assert(request_ok(t, f));
        assert(request_ok(t, d));
        if t.endings.contains_key(d) {
            assert(d != i);
            if t.endings[d] is Some {
                let body = t.endings[d]->0;
                if f == i {
                    assert(gets(t, f, body));
                    if m.stage == MediaStage::Done {
                        let k = choose|k: int|
                            0 <= k < t.actions(f).len() && #[trigger] t.actions(f)[k] == serve(
                                body,
                            );
                        assert(u.actions(f)[k] == serve(body));
                    } else if u.now(f).stage == MediaStage::Done {
                        assert(u.actions(f)[t.actions(f).len() as int] == serve(body));
                    }
                    assert forall|k: int| 0 <= k < u.actions(f).len() implies !(
                    #[trigger] u.actions(f)[k] is Fetch) && (ending(u.actions(f)[k]) is Some
                        ==> u.actions(f)[k] == serve(body)) by {
                        if k < t.actions(f).len() {
                            assert(u.actions(f)[k] == t.actions(f)[k]);
                        }
                    }
                } else {
                    assert(u.now(f) == t.now(f));
                    assert(gets(t, f, body));
                }
                assert(gets(u, f, body));
            }
        } else {
            assert(t.leads(d));
            assert(leader_ok(t, t.now(d).key()));
            assert(f != d);
            if f == i {
                assert(u.now(f) == t.now(f));
                assert(u.now(d) == t.now(d));
            } else {
                assert(u.now(f) == t.now(f));
                if u.endings.contains_key(d) {
                    assert(d == i);
                    if u.endings[d] is Some {
                        answered_only_when_done(t.first[f], t.heard[f]);
                        fetches_seen(t.first[f], t.heard[f]);
                        assert(gets(u, f, u.endings[d]->0));
                    }
                } else {
                    assert(u.leads(d));
                }
            }
        }
    }
}

proof fn always_sound(events: Seq<TrafficEvent>)
    requires
        can_run(events),
    ensures
        sound(traffic_after(events)),
    decreases events.len(),
{
    if events.len() > 0 {
        let t = traffic_after(events.drop_last());
        always_sound(events.drop_last());
        match events.last() {
            TrafficEvent::Arrive(id, variant) => arriving_keeps_sound(t, id, variant),
            TrafficEvent::Told(i, told) => telling_keeps_sound(t, i, told),
            TrafficEvent::Vanish(i) => vanishing_keeps_sound(t, i),
        }
    }
}

/// A request that arrives while another leads under its key follows that one, and
/// so does one that joins again.
pub proof fn joining_follows_the_leader(
    t: Traffic,
    id: Seq<char>,
    variant: Variant,
    i: int,
    told: MediaEvent,
)
    requires
        t.leaders.contains_key(cache_key(id, variant)),
    ensures
        arrived(t, id, variant).follows[t.first.len() as int] == t.leaders[cache_key(id, variant)],
        arrived(t, id, variant).leaders == t.leaders,
        t.now(i).stage == MediaStage::Joining && told is Joined && t.now(i).key() == cache_key(
            id,
            variant,
        ) ==> after_told(t, i, told).follows[i] == t.leaders[cache_key(id, variant)] && after_told(
            t,
            i,
            told,
        ).leaders == t.leaders,
{
}

/// The keys that requests lead under are those that `Downloads` lists, joined and
/// ended as requests begin, join again, and end.
pub proof fn downloads_are_what_is_led(
    t: Traffic,
    id: Seq<char>,
    variant: Variant,
    i: int,
    told: MediaEvent,
)
    ensures
        arrived(t, id, variant).leaders.dom() == t.leaders.dom().insert(cache_key(id, variant)),
        t.now(i).stage == MediaStage::Joining && told is Joined ==> after_told(
            t,
            i,
            told,
        ).leaders.dom() == t.leaders.dom().insert(t.now(i).key()),
        t.leads(i) && ending(media_next(t.now(i), told).1) is Some ==> after_told(
            t,
            i,
            told,
        ).leaders.dom() == t.leaders.dom().remove(t.now(i).key()),
{
    let key = cache_key(id, variant);
    assert(arrived(t, id, variant).leaders.dom() =~= t.leaders.dom().insert(key));
    let own = t.now(i).key();
    if t.now(i).stage == MediaStage::Joining && told is Joined {
        assert(after_told(t, i, told).leaders.dom() =~= t.leaders.dom().insert(own));
    } else if t.leads(i) && ending(media_next(t.now(i), told).1) is Some {
        assert(after_told(t, i, told).leaders.dom() =~= t.leaders.dom().remove(own));
    }
}

/// At no time are there two downloads of the same rendition.
pub proof fn one_download_at_a_time(events: Seq<TrafficEvent>, i: int, j: int)
    requires
        can_run(events),
        0 <= i < traffic_after(events).first.len(),
        0 <= j < traffic_after(events).first.len(),
        traffic_after(events).now(i).key() == traffic_after(events).now(j).key(),
        traffic_after(events).now(i).stage is Fetching || traffic_after(events).now(
            i,
        ).stage is Streaming,
        traffic_after(events).now(j).stage is Fetching || traffic_after(events).now(
            j,
        ).stage is Streaming,
        !traffic_after(events).endings.contains_key(i),
        !traffic_after(events).endings.contains_key(j),
    ensures
        i == j,
{
    let t = traffic_after(events);
    always_sound(events);
    assert(request_ok(t, i));
    assert(request_ok(t, j));
}

proof fn still_follows(events: Seq<TrafficEvent>, p: int, f: int, d: int)
    requires
        can_run(events),
        0 <= p <= events.len(),
        traffic_after(events.take(p)).follows.contains_key(f),
        traffic_after(events.take(p)).follows[f] == d,
    ensures
        traffic_after(events).follows.contains_key(f),
        traffic_after(events).follows[f] == d || (traffic_after(events).endings.contains_key(d)
            && traffic_after(events).endings[d] is None),
    decreases events.len(),
{
    if p == events.len() {
        assert(events.take(p) =~= events);
    } else {
        let rest = events.drop_last();
        assert(rest.take(p) =~= events.take(p));
        still_follows(rest, p, f, d);
        always_sound(rest);
        let t = traffic_after(rest);
        assert(follower_ok(t, f));
        match events.last() {
            TrafficEvent::Arrive(id, variant) => {},
            TrafficEvent::Told(i, told) => {
                if t.leads(i) {
                    assert(leader_ok(t, t.now(i).key()));
                }
            },
            TrafficEvent::Vanish(i) => {
                assert(leader_ok(t, t.now(i).key()));
            },
        }
    }
}

proof fn what_was_downloaded(m: MediaRequestView, events: Seq<MediaEvent>, body: Seq<u8>)
    requires
        fresh(m),
        events.len() > 0,
        media_actions(m, events).last() is Commit || media_actions(m, events).last() is Close,
        ending(media_actions(m, events).last()) == Some(Some(body)),
    ensures
        body == body_read(m, events),
        body == sent_on(media_actions(m, events)),
        exists|k: int| 0 <= k < events.len() && #[trigger] media_actions(m, events)[k] is Fetch,
{
    let rest = events.drop_last();
    let n = rest.len() as int;
    same_rendition(m, events);
    same_rendition(m, rest);
    assert(media_actions(m, events)[n] == media_next(media_after(m, rest), events.last()).1);
    all_that_was_read_is_shared(m, events, n, body);
    assert(events.take(n) =~= rest);
    bytes_are_relayed_faithfully(m, events);
    fetched_before_streaming(m, rest);
    let k = choose|k: int| 0 <= k < rest.len() && #[trigger] media_actions(m, rest)[k] is Fetch;
    assert(media_actions(m, events)[k] is Fetch);
}

/// Concurrent requests for the same rendition become one download. Let the
/// request `d` download it with success, and let `f` be any request that had
/// joined it by the time of the first `p` events, before it ended. Then `d` is the
/// one that fetches, and it fetches once; what it shares is all that it read and
/// sent on; `f` fetches nothing; and `f` is answered with that body as soon as it
/// is told, and with nothing else.
///
/// None of this depends on whether the body could be written to disk, or found
/// room in the cache.
pub proof fn concurrent_requests_share_one_download(
    events: Seq<TrafficEvent>,
    p: int,
    d: int,
    f: int,
    body: Seq<u8>,
)
    requires
        can_run(events),
        0 <= p <= events.len(),
        traffic_after(events.take(p)).follows.contains_key(f),
        traffic_after(events.take(p)).follows[f] == d,
        traffic_after(events).endings.contains_key(d),
        traffic_after(events).endings[d] == Some(body),
        traffic_after(events).actions(d).last() is Commit || traffic_after(events).actions(
            d,
        ).last() is Close,
    ensures
        ({
            let t = traffic_after(events);
            &&& exists|k: int|
                0 <= k < t.actions(d).len() && #[trigger] t.actions(d)[k] is Fetch
            &&& forall|j: int, k: int|
                0 <= j < k < t.actions(d).len() && #[trigger] t.actions(d)[j] is Fetch ==> !(
                #[trigger] t.actions(d)[k] is Fetch)
            &&& body == body_read(t.first[d], t.heard[d])
            &&& body == sent_on(t.actions(d))
            &&& t.now(f).key() == t.now(d).key()
            &&& gets(t, f, body)
            &&& forall|told: MediaEvent| #[trigger]
                can_happen(t, TrafficEvent::Told(f, told)) ==> media_next(t.now(f), told).1
                    == MediaActionView::Ignore || media_next(t.now(f), told).1 == serve(body)
        }),
{
    let t = traffic_after(events);
    always_sound(events);
    still_follows(events, p, f, d);
    assert(follower_ok(t, f));
    assert(ending_ok(t, d));
    assert(request_ok(t, d));
    same_rendition(t.first[d], t.heard[d]);
    what_was_downloaded(t.first[d], t.heard[d], body);
    fetches_seen(t.first[d], t.heard[d]);
}

/// Whatever body a request shares, be it from the CDN or from the cache, those
/// that had joined it are answered with it, and fetch nothing.
pub proof fn followers_get_what_is_shared(
    events: Seq<TrafficEvent>,
    p: int,
    d: int,
    f: int,
    body: Seq<u8>,
)
    requires
        can_run(events),
        0 <= p <= events.len(),
        traffic_after(events.take(p)).follows.contains_key(f),
        traffic_after(events.take(p)).follows[f] == d,
        traffic_after(events).endings.contains_key(d),
        traffic_after(events).endings[d] == Some(body),
    ensures
        gets(traffic_after(events), f, body),
{
    let t = traffic_after(events);
    always_sound(events);
    still_follows(events, p, f, d);
    assert(follower_ok(t, f));
}

} // verus!
