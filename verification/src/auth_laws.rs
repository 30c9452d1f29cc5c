//! Which token is read, and what is asked about it.
use crate::auth::ask_at;
use crate::auth::bearer_token;
use crate::auth::header_values;
use crate::auth::token_among;
use crate::auth::token_in;
use crate::auth::token_of;
use crate::auth::userinfo_url;
use crate::auth::verify_next;
use crate::auth::visible_text;
use crate::auth::OpenIdVerifier;
use crate::auth::Verification;
use crate::auth::VerificationView;
use crate::auth::VerifyAction;
use crate::auth::VerifyActionView;
use crate::auth::VerifyEvent;
use crate::auth::VerifyStage;
use crate::query::parsed_url;
use crate::query::with_pair;
use crate::query_laws::parameters_come_in_order;
use crate::query_laws::urls_are_built_of_what_parses;
use crate::query_laws::values_are_told_apart;
use axum::http::HeaderMap;
use vstd::prelude::*;

verus! {

/// A header carries a token exactly if it is the word `Bearer`, one space, and the
/// token, to the letter.
pub proof fn token_is_what_follows_the_scheme(authorization: Seq<char>, token: Seq<char>)
    ensures
        token_in(authorization) == Some(token) <==> authorization == "Bearer "@ + token,
{
    let scheme = "Bearer "@;
    if token_in(authorization) == Some(token) {
        assert(authorization =~= scheme + token);
    }
    if authorization == scheme + token {
        assert(authorization.take(scheme.len() as int) =~= scheme);
        assert(authorization.skip(scheme.len() as int) =~= token);
    }
}

/// A header is text exactly if all its bytes are visible ASCII, spaces or tabs,
/// and then each byte is the character of that number.
pub proof fn visible_bytes_are_text(bytes: Seq<u8>, text: Seq<char>)
    ensures
        visible_text(bytes) == Some(text) <==> text.len() == bytes.len() && forall|i: int|
            0 <= i < bytes.len() ==> text[i] as int == (#[trigger] bytes[i]) as int && (32
                <= bytes[i] <= 126 || bytes[i] == 9),
{
    if visible_text(bytes) == Some(text) {
        assert forall|i: int| 0 <= i < bytes.len() implies text[i] as int == (
        #[trigger] bytes[i]) as int && (32 <= bytes[i] <= 126 || bytes[i] == 9) by {
            assert(crate::auth::is_visible(bytes[i]));
        }
    }
    if text.len() == bytes.len() && forall|i: int|
        0 <= i < bytes.len() ==> text[i] as int == (#[trigger] bytes[i]) as int && (32 <= bytes[i]
            <= 126 || bytes[i] == 9) {
        assert forall|i: int| 0 <= i < bytes.len() implies crate::auth::is_visible(
            #[trigger] bytes[i],
        ) by {}
        assert forall|i: int| 0 <= i < bytes.len() implies text[i] == #[trigger] bytes[i] as char by {}
        assert(text =~= visible_text(bytes)->0);
    }
}

/// A request has a token exactly if the first value of its `Authorization` header
/// carries it.
pub proof fn first_authorization_counts(headers: Map<Seq<char>, Seq<Seq<u8>>>, token: Seq<char>)
    ensures
        token_among(headers) == Some(token) <==> headers.contains_key("authorization"@)
            && visible_text(headers["authorization"@].first()) == Some("Bearer "@ + token),
{
    if headers.contains_key("authorization"@) {
        let text = visible_text(headers["authorization"@].first());
        if text is Some {
            token_is_what_follows_the_scheme(text->0, token);
        }
    }
}

/// What is read from a header, and from all the headers, is that token.
pub proof fn readers_keep_their_word(
    authorization: &str,
    headers: &HeaderMap,
    one: Option<&str>,
    among: Option<&str>,
)
    requires
        call_ensures(token_of, (authorization,), one),
        call_ensures(bearer_token, (headers,), among),
    ensures
        one is Some ==> authorization@ == "Bearer "@ + one->0@,
        one is None ==> forall|token: Seq<char>| authorization@ != #[trigger] ("Bearer "@ + token),
        among is Some ==> token_among(header_values(*headers)) == Some(among->0@),
        among is None ==> token_among(header_values(*headers)) is None,
{
    if one is Some {
        token_is_what_follows_the_scheme(authorization@, one->0@);
    } else {
        assert forall|token: Seq<char>| authorization@ != #[trigger] ("Bearer "@ + token) by {
            token_is_what_follows_the_scheme(authorization@, token);
        }
    }
}

/// The homeserver is asked about the whole token: the url is that of its endpoint
/// with the token as the parameter `access_token`.
pub proof fn asked_about_the_whole_token(base: Seq<char>, token: Seq<char>)
    ensures
        userinfo_url(base, token) is Some ==> parsed_url(base) is Some && userinfo_url(base, token)
            == Some(with_pair(parsed_url(base)->0, "access_token"@, token)),
        parsed_url(base) is Some && with_pair(
            parsed_url(base)->0,
            "access_token"@,
            token,
        ).len() <= 0xffff_ffff ==> userinfo_url(base, token) is Some,
{
    let pairs = seq![("access_token"@, token)];
    urls_are_built_of_what_parses(base, pairs);
    if parsed_url(base) is Some {
        parameters_come_in_order(parsed_url(base)->0, Seq::empty(), "access_token"@, token);
        assert(pairs =~= Seq::empty().push(("access_token"@, token)));
    }
}

/// Two tokens are asked about with the same url only if they are the same token.
pub proof fn tokens_are_told_apart(base: Seq<char>, a: Seq<char>, b: Seq<char>)
    requires
        userinfo_url(base, a) is Some,
        userinfo_url(base, a) == userinfo_url(base, b),
    ensures
        a == b,
{
    asked_about_the_whole_token(base, a);
    asked_about_the_whole_token(base, b);
    values_are_told_apart(parsed_url(base)->0, "access_token"@, a, b);
}

/// A token that is not remembered is asked about, if there is a url for that, and
/// rejected otherwise.
pub proof fn unknown_token_is_asked_about(v: VerificationView)
    requires
        v.stage == VerifyStage::Recalling,
    ensures
        parsed_url(v.base) is Some && with_pair(
            parsed_url(v.base)->0,
            "access_token"@,
            v.token,
        ).len() <= 0xffff_ffff ==> verify_next(v, VerifyEvent::Recalled(false)) == (
            VerifyStage::Asking,
            VerifyActionView::Ask(with_pair(parsed_url(v.base)->0, "access_token"@, v.token)),
        ),
        parsed_url(v.base) is None ==> verify_next(v, VerifyEvent::Recalled(false)) == (
            VerifyStage::Done,
            VerifyActionView::Reject,
        ),
        verify_next(v, VerifyEvent::Recalled(false)).0 == VerifyStage::Asking || verify_next(
            v,
            VerifyEvent::Recalled(false),
        ) == (VerifyStage::Done, VerifyActionView::Reject),
{
    asked_about_the_whole_token(v.base, v.token);
}

/// A token that was asked about is accepted, and to be remembered, exactly if the
/// homeserver answered with a status from 200 to 299.
pub proof fn homeserver_decides(v: VerificationView, status: Option<u16>)
    requires
        v.stage == VerifyStage::Asking,
    ensures
        status is Some && status->0 as int / 100 == 2 ==> verify_next(
            v,
            VerifyEvent::Answered(status),
        ) == (VerifyStage::Done, VerifyActionView::Accept { remember: true }),
        !(status is Some && status->0 as int / 100 == 2) ==> verify_next(
            v,
            VerifyEvent::Answered(status),
        ) == (VerifyStage::Done, VerifyActionView::Reject),
{
}

/// Where there is a url the homeserver is asked at it, and else the token is
/// rejected.
pub proof fn homeserver_is_asked_at_the_url(
    url: String,
    asked: (VerifyStage, VerifyAction),
    not_asked: (VerifyStage, VerifyAction),
)
    requires
        call_ensures(ask_at, (Some(url),), asked),
        call_ensures(ask_at, (None::<String>,), not_asked),
    ensures
        asked.0 == VerifyStage::Asking,
        asked.1@ == VerifyActionView::Ask(url@),
        not_asked.0 == VerifyStage::Done,
        not_asked.1@ == VerifyActionView::Reject,
{
}

/// What a verification does not wait for changes nothing.
pub proof fn only_what_is_awaited_counts(v: VerificationView, event: VerifyEvent)
    requires
        v.stage == VerifyStage::Done || (v.stage == VerifyStage::Recalling && event is Answered)
            || (v.stage == VerifyStage::Asking && event is Recalled),
    ensures
        verify_next(v, event) == (v.stage, VerifyActionView::Ignore),
{
}

/// An action says what it holds.
pub proof fn verify_actions_say_what_they_hold(url: String, remember: bool)
    ensures
        VerifyAction::Ask(url)@ == VerifyActionView::Ask(url@),
        (VerifyAction::Accept { remember })@ == (VerifyActionView::Accept { remember }),
        VerifyAction::Reject@ == VerifyActionView::Reject,
        VerifyAction::Ignore@ == VerifyActionView::Ignore,
{
}

/// A verification is of the token it was begun for, at the endpoint of its
/// verifier, and each step of it is the one described.
pub proof fn verification_goes_by_its_token(
    verify_base: String,
    verifier: OpenIdVerifier,
    token: &str,
    begun: Verification,
    v: &mut Verification,
    event: VerifyEvent,
    action: VerifyAction,
)
    requires
        call_ensures(OpenIdVerifier::new, (verify_base,), verifier),
        call_ensures(OpenIdVerifier::verify, (&verifier, token), begun),
        call_ensures(Verification::step, (v, event), action),
    ensures
        begun@.base == verify_base@,
        begun@.token == token@,
        begun@.stage == VerifyStage::Recalling,
        final(v)@.base == old(v)@.base,
        final(v)@.token == old(v)@.token,
        final(v)@.stage == verify_next(old(v)@, event).0,
        action@ == verify_next(old(v)@, event).1,
{
}

} // verus!
