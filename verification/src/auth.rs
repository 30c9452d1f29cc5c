//! Who may search: bearer tokens, verified against the homeserver.
use crate::giphy::is_success;
use crate::query::pair_texts;
use crate::query::query_text;
use crate::query::query_url;
use crate::text::begins_with;
use crate::text::strip_prefix;
use axum::http::header;
use axum::http::HeaderMap;
use axum::http::HeaderValue;
use vstd::prelude::*;

verus! {

/// `axum::http::HeaderMap`, the headers of a request.
#[verifier::external_type_specification]
#[verifier::external_body]
#[verifier::reject_recursive_types(T)]
pub struct ExHeaderMap<T>(axum::http::HeaderMap<T>);

/// `axum::http::HeaderValue`, the value of one header.
#[verifier::external_type_specification]
#[verifier::external_body]
pub struct ExHeaderValue(axum::http::HeaderValue);

/// What a header map holds: for each name in lower case the values given for it,
/// in order, as bytes.
pub uninterp spec fn header_values(headers: HeaderMap<HeaderValue>) -> Map<
    Seq<char>,
    Seq<Seq<u8>>,
>;

/// The bytes that a header value holds.
pub uninterp spec fn header_bytes(value: HeaderValue) -> Seq<u8>;

/// Whether a byte is visible ASCII, a space or a tab.
pub open spec fn is_visible(b: u8) -> bool {
    (32 <= b < 127) || b == 9
}

/// The text of a header value, if all of it is visible.
pub open spec fn visible_text(bytes: Seq<u8>) -> Option<Seq<char>> {
    if forall|i: int| 0 <= i < bytes.len() ==> is_visible(#[trigger] bytes[i]) {
        Some(bytes.map_values(|b: u8| b as char))
    } else {
        None
    }
}

/// Calls `HeaderMap::get` with the name `authorization`: the first value given
/// for it.
#[verifier::external_body]
fn authorization(headers: &HeaderMap) -> (value: Option<&HeaderValue>)
    ensures
        value is Some <==> header_values(*headers).contains_key("authorization"@),
        value matches Some(v) ==> header_values(*headers)["authorization"@].len() > 0
            && header_bytes(*v) == header_values(*headers)["authorization"@].first(),
{
    headers.get(header::AUTHORIZATION)
}

/// Calls `HeaderValue::to_str`: the value as text, if all of it is visible.
#[verifier::external_body]
fn value_text(value: &HeaderValue) -> (text: Option<&str>)
    ensures
        text is Some <==> visible_text(header_bytes(*value)) is Some,
        text matches Some(t) ==> visible_text(header_bytes(*value)) == Some(t@),
{
    value.to_str().ok()
}

/// The token that an `Authorization` header carries, if it carries one. In the
/// word `Bearer` upper and lower case differ.
pub open spec fn token_in(authorization: Seq<char>) -> Option<Seq<char>> {
    if begins_with(authorization, "Bearer "@) {
        Some(authorization.skip("Bearer "@.len() as int))
    } else {
        None
    }
}

/// The bearer token among the headers of a request, if there is one.
pub open spec fn token_among(headers: Map<Seq<char>, Seq<Seq<u8>>>) -> Option<Seq<char>> {
    if headers.contains_key("authorization"@) {
        match visible_text(headers["authorization"@].first()) {
            Some(text) => token_in(text),
            None => None,
        }
    } else {
        None
    }
}

/// The token that an `Authorization` header carries.
pub fn token_of(authorization: &str) -> (token: Option<&str>)
    ensures
        token is Some <==> token_in(authorization@) is Some,
        token matches Some(t) ==> token_in(authorization@) == Some(t@),
{
    strip_prefix(authorization, "Bearer ")
}

/// The bearer token among the headers of a request.
pub fn bearer_token(headers: &HeaderMap) -> (token: Option<&str>)
    ensures
        token is Some <==> token_among(header_values(*headers)) is Some,
        token matches Some(t) ==> token_among(header_values(*headers)) == Some(t@),
{
    match authorization(headers) {
        Some(value) => match value_text(value) {
            Some(text) => token_of(text),
            None => None,
        },
        None => None,
    }
}

/// Whatever token a client sends behind the scheme is the token that is read.
pub proof fn token_reads_back(token: Seq<char>)
    ensures
        token_in("Bearer "@ + token) == Some(token),
{
    let sent = "Bearer "@ + token;
    assert(sent.take("Bearer "@.len() as int) =~= "Bearer "@);
    assert(sent.skip("Bearer "@.len() as int) =~= token);
}

/// Verifies Matrix OpenID tokens against the homeserver's federation
/// `openid/userinfo` endpoint. A client uses one token for a while, so tokens
/// once verified are remembered.
pub struct OpenIdVerifier {
    verify_base: String,
}

/// What the verification of a token waits for.
#[derive(Debug, PartialEq, Eq, Clone, Copy, Structural)]
pub enum VerifyStage {
    /// Whether the token is remembered.
    Recalling,
    /// What the homeserver answers.
    Asking,
    /// Nothing: there is a verdict.
    Done,
}

/// What the verification of a token is told.
#[derive(Debug, PartialEq, Eq, Clone, Copy, Structural)]
pub enum VerifyEvent {
    /// Whether the token is remembered.
    Recalled(bool),
    /// The status of the homeserver's answer; none if it could not be asked.
    Answered(Option<u16>),
}

/// What the verification of a token asks for.
pub enum VerifyAction {
    /// Get this url from the homeserver.
    Ask(String),
    /// The token is good. Remember it first, if told to.
    Accept { remember: bool },
    /// The token is not good.
    Reject,
    /// The event was not awaited, and changes nothing.
    Ignore,
}

/// What `VerifyAction` says.
#[verifier::ext_equal]
pub enum VerifyActionView {
    Ask(Seq<char>),
    Accept { remember: bool },
    Reject,
    Ignore,
}

impl View for VerifyAction {
    type V = VerifyActionView;

    open spec fn view(&self) -> VerifyActionView {
        match self {
            VerifyAction::Ask(url) => VerifyActionView::Ask(url@),
            VerifyAction::Accept { remember } => VerifyActionView::Accept { remember: *remember },
            VerifyAction::Reject => VerifyActionView::Reject,
            VerifyAction::Ignore => VerifyActionView::Ignore,
        }
    }
}

/// The verification of one token, under way.
pub struct Verification {
    base: String,
    token: String,
    stage: VerifyStage,
}

/// What a `Verification` is.
#[verifier::ext_equal]
pub struct VerificationView {
    pub base: Seq<char>,
    pub token: Seq<char>,
    pub stage: VerifyStage,
}

impl View for Verification {
    type V = VerificationView;

    closed spec fn view(&self) -> VerificationView {
        VerificationView { base: self.base@, token: self.token@, stage: self.stage }
    }
}

/// The url that asks the homeserver about a token, if there is one.
pub open spec fn userinfo_url(base: Seq<char>, token: Seq<char>) -> Option<Seq<char>> {
    query_text(base, seq![("access_token"@, token)])
}

/// How the verification of a token goes on.
pub open spec fn verify_next(v: VerificationView, event: VerifyEvent) -> (
    VerifyStage,
    VerifyActionView,
) {
    match (v.stage, event) {
        (VerifyStage::Recalling, VerifyEvent::Recalled(known)) => if known {
            (VerifyStage::Done, VerifyActionView::Accept { remember: false })
        } else {
            match userinfo_url(v.base, v.token) {
                Some(url) => (VerifyStage::Asking, VerifyActionView::Ask(url)),
                None => (VerifyStage::Done, VerifyActionView::Reject),
            }
        },
        (VerifyStage::Asking, VerifyEvent::Answered(status)) => if status is Some && is_success(
            status->0,
        ) {
            (VerifyStage::Done, VerifyActionView::Accept { remember: true })
        } else {
            (VerifyStage::Done, VerifyActionView::Reject)
        },
        _ => (v.stage, VerifyActionView::Ignore),
    }
}

impl View for OpenIdVerifier {
    type V = Seq<char>;

    /// The url of the endpoint.
    closed spec fn view(&self) -> Seq<char> {
        self.verify_base@
    }
}

impl OpenIdVerifier {
    /// A verifier that asks the endpoint `verify_base`.
    pub fn new(verify_base: String) -> (verifier: OpenIdVerifier)
        ensures
            verifier@ == verify_base@,
    {
        OpenIdVerifier { verify_base }
    }

    /// Begins to verify a token. The first thing to tell is whether the token is
    /// remembered.
    pub fn verify(&self, token: &str) -> (v: Verification)
        ensures
            v@ == (VerificationView { base: self@, token: token@, stage: VerifyStage::Recalling }),
    {
        Verification {
            base: self.verify_base.clone(),
            token: token.to_owned(),
            stage: VerifyStage::Recalling,
        }
    }
}

/// How the verification of a token that is not remembered goes on, given the url
/// that asks the homeserver about it: without one the token is not good.
pub fn ask_at(url: Option<String>) -> (next: (VerifyStage, VerifyAction))
    ensures
        next.0 == (if url is Some {
            VerifyStage::Asking
        } else {
            VerifyStage::Done
        }),
        next.1@ == (match url {
            Some(u) => VerifyActionView::Ask(u@),
            None => VerifyActionView::Reject,
        }),
{
    match url {
        Some(url) => (VerifyStage::Asking, VerifyAction::Ask(url)),
        None => (VerifyStage::Done, VerifyAction::Reject),
    }
}

impl Verification {
    /// Goes on with what has been learned.
    pub fn step(&mut self, event: VerifyEvent) -> (action: VerifyAction)
        ensures
            final(self)@ == (VerificationView {
                stage: verify_next(old(self)@, event).0,
                ..old(self)@
            }),
            action@ == verify_next(old(self)@, event).1,
    {
        match (self.stage, event) {
            (VerifyStage::Recalling, VerifyEvent::Recalled(known)) => {
                if known {
                    self.stage = VerifyStage::Done;
                    return VerifyAction::Accept { remember: false };
                }
                let mut pairs: Vec<(String, String)> = Vec::new();
                pairs.push(("access_token".to_owned(), self.token.clone()));
                proof {
                    assert(pair_texts(pairs@) =~= seq![("access_token"@, self.token@)]);
                }
                let (stage, action) = ask_at(query_url(self.base.as_str(), &pairs));
                self.stage = stage;
                action
            },
            (VerifyStage::Asking, VerifyEvent::Answered(status)) => {
                self.stage = VerifyStage::Done;
                match status {
                    Some(code) => if 200 <= code && code < 300 {
                        VerifyAction::Accept { remember: true }
                    } else {
                        VerifyAction::Reject
                    },
                    None => VerifyAction::Reject,
                }
            },
            _ => VerifyAction::Ignore,
        }
    }
}

/// A verification after a row of events.
pub open spec fn verify_after(v: VerificationView, events: Seq<VerifyEvent>) -> VerificationView
    decreases events.len(),
{
    if events.len() == 0 {
        v
    } else {
        let before = verify_after(v, events.drop_last());
        VerificationView { stage: verify_next(before, events.last()).0, ..before }
    }
}

/// What a verification asks for at each of a row of events.
pub open spec fn verify_actions(v: VerificationView, events: Seq<VerifyEvent>) -> Seq<
    VerifyActionView,
>
    decreases events.len(),
{
    if events.len() == 0 {
        Seq::empty()
    } else {
        verify_actions(v, events.drop_last()).push(
            verify_next(verify_after(v, events.drop_last()), events.last()).1,
        )
    }
}

/// Whether one of the first `n` actions asks the homeserver about the token that
/// is being verified.
pub open spec fn asked_about(v: VerificationView, events: Seq<VerifyEvent>, n: int) -> bool {
    &&& userinfo_url(v.base, v.token) is Some
    &&& exists|j: int|
        0 <= j < n && #[trigger] verify_actions(v, events)[j] == VerifyActionView::Ask(
            userinfo_url(v.base, v.token)->0,
        )
}

/// Whether the action at the event `i`, if it accepts the token, does so on good
/// grounds: the token was remembered, or the homeserver answered with success
/// when asked about this very token; and only in the latter case is it to be
/// remembered.
pub open spec fn on_good_grounds(v: VerificationView, events: Seq<VerifyEvent>, i: int) -> bool {
    match verify_actions(v, events)[i] {
        VerifyActionView::Accept { remember } => if remember {
            &&& events[i] is Answered
            &&& events[i]->Answered_0 is Some
            &&& is_success(events[i]->Answered_0->0)
            &&& asked_about(v, events, i)
        } else {
            events[i] == VerifyEvent::Recalled(true)
        },
        _ => true,
    }
}

proof fn verify_history(v: VerificationView, events: Seq<VerifyEvent>)
    requires
        v.stage == VerifyStage::Recalling,
    ensures
        verify_after(v, events).token == v.token,
        verify_after(v, events).base == v.base,
        verify_actions(v, events).len() == events.len(),
        verify_after(v, events).stage == VerifyStage::Asking ==> asked_about(
            v,
            events,
            events.len() as int,
        ),
        forall|i: int| 0 <= i < events.len() ==> #[trigger] on_good_grounds(v, events, i),
    decreases events.len(),
{
    if events.len() > 0 {
        let rest = events.drop_last();
        verify_history(v, rest);
        let done = verify_actions(v, rest);
        let all = verify_actions(v, events);
        let before = verify_after(v, rest);
        let n = rest.len() as int;
        assert forall|m: int| 0 <= m <= n && asked_about(v, rest, m) implies #[trigger] asked_about(
            v,
            events,
            m,
        ) by {
            let j = choose|j: int|
                0 <= j < m && #[trigger] done[j] == VerifyActionView::Ask(
                    userinfo_url(v.base, v.token)->0,
                );
            assert(all[j] == done[j]);
        }
        assert forall|i: int| 0 <= i < events.len() implies #[trigger] on_good_grounds(
            v,
            events,
            i,
        ) by {
            if i < n {
                assert(on_good_grounds(v, rest, i));
                assert(all[i] == done[i]);
                assert(events[i] == rest[i]);
                if asked_about(v, rest, i) {
                    assert(asked_about(v, events, i));
                }
            } else {
                if before.stage == VerifyStage::Asking {
                    assert(asked_about(v, events, n));
                }
            }
        }
        if verify_after(v, events).stage == VerifyStage::Asking {
            if before.stage == VerifyStage::Recalling {
                assert(all[n] == VerifyActionView::Ask(userinfo_url(v.base, v.token)->0));
            } else {
                let j = choose|j: int|
                    0 <= j < n && #[trigger] done[j] == VerifyActionView::Ask(
                        userinfo_url(v.base, v.token)->0,
                    );
                assert(all[j] == done[j]);
            }
        }
    }
}

/// Whatever happens, a token is accepted only on good grounds.
pub proof fn accepted_on_good_grounds(v: VerificationView, events: Seq<VerifyEvent>)
    requires
        v.stage == VerifyStage::Recalling,
    ensures
        verify_actions(v, events).len() == events.len(),
        forall|i: int| 0 <= i < events.len() ==> #[trigger] on_good_grounds(v, events, i),
{
    verify_history(v, events);
}

/// A remembered token costs no request: it is accepted at once.
pub proof fn remembered_is_not_asked_about(v: VerificationView)
    requires
        v.stage == VerifyStage::Recalling,
    ensures
        verify_next(v, VerifyEvent::Recalled(true)) == (
            VerifyStage::Done,
            VerifyActionView::Accept { remember: false },
        ),
{
}

/// Once there is a verdict nothing changes it.
pub proof fn verdict_is_final(v: VerificationView, event: VerifyEvent)
    requires
        v.stage == VerifyStage::Done,
    ensures
        verify_next(v, event) == (VerifyStage::Done, VerifyActionView::Ignore),
{
}

} // verus!
