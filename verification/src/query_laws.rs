//! What urls with query parameters look like, and what Giphy's API is asked.
use crate::giphy::check_content;
use crate::giphy::check_status;
use crate::giphy::gif_urls;
use crate::giphy::is_success;
use crate::giphy::search_pairs;
use crate::giphy::urls_of;
use crate::giphy::FoundGif;
use crate::giphy::GifUrls;
use crate::giphy::GiphyClient;
use crate::giphy::GiphyError;
use crate::query::add_pairs;
use crate::query::all_positions_fit;
use crate::query::encoded;
use crate::query::encoded_byte;
use crate::query::encoded_bytes;
use crate::query::encoding_is_inert;
use crate::query::encoding_loses_nothing;
use crate::query::fragment_start;
use crate::query::is_inert;
use crate::query::pair_texts;
use crate::query::parsed_url;
use crate::query::positions_fit;
use crate::query::query_text;
use crate::query::query_url;
use crate::query::separator;
use crate::query::url_text;
use crate::query::with_pair;
use crate::query::with_pairs;
use crate::query::ParsedUrl;
use crate::text::decimal;
use vstd::prelude::*;
use vstd::utf8::encode_utf8;

verus! {

/// A text is encoded byte by byte, in UTF-8: letters, digits and `*-._` stay, a
/// space becomes a plus sign, and every other byte a percent sign and its two
/// hexadecimal digits, in upper case.
pub proof fn bytes_are_encoded_one_by_one(text: Seq<char>, bytes: Seq<u8>, b: u8)
    ensures
        encoded(text) == encoded_bytes(encode_utf8(text)),
        encoded_bytes(Seq::<u8>::empty()) == Seq::<char>::empty(),
        encoded_bytes(bytes.push(b)) == encoded_bytes(bytes) + encoded_byte(b),
        ({
            let code = encoded_byte(b);
            let high = b as int / 16;
            let low = b as int % 16;
            if (48 <= b <= 57) || (65 <= b <= 90) || (97 <= b <= 122) || b == 42 || b == 45 || b
                == 46 || b == 95 {
                code.len() == 1 && code[0] as int == b
            } else if b == 32 {
                code.len() == 1 && code[0] as int == 43
            } else {
                &&& code.len() == 3
                &&& code[0] as int == 37
                &&& code[1] as int == if high < 10 {
                    48 + high
                } else {
                    55 + high
                }
                &&& code[2] as int == if low < 10 {
                    48 + low
                } else {
                    55 + low
                }
            }
        }),
{
    assert(bytes.push(b).drop_last() =~= bytes);
}

/// A parameter that is added to a url without a fragment comes behind all that is
/// there: behind a question mark if there is none yet, behind an ampersand if
/// there are parameters, and at once if there is only the question mark.
pub proof fn added_parameter_comes_last(url: Seq<char>, name: Seq<char>, value: Seq<char>)
    requires
        !url.contains('#'),
    ensures
        !url.contains('?') ==> with_pair(url, name, value) == url + seq!['?'] + encoded(name)
            + seq!['='] + encoded(value),
        url.len() > 0 && url.last() == '?' && !url.drop_last().contains('?') ==> with_pair(
            url,
            name,
            value,
        ) == url + encoded(name) + seq!['='] + encoded(value),
        url.contains('?') && !(url.last() == '?' && !url.drop_last().contains('?')) ==> with_pair(
            url,
            name,
            value,
        ) == url + seq!['&'] + encoded(name) + seq!['='] + encoded(value),
{
    url.index_of_first_ensures('#');
    url.index_of_first_ensures('?');
    assert(fragment_start(url) == url.len());
    let head = url.take(fragment_start(url));
    assert(head =~= url);
    assert(url.skip(url.len() as int) =~= Seq::<char>::empty());
    let tail = encoded(name) + seq!['='] + encoded(value);
    if !url.contains('?') {
        assert(with_pair(url, name, value) =~= url + seq!['?'] + encoded(name) + seq!['=']
            + encoded(value));
    } else {
        let at = url.index_of_first('?')->0;
        if url.last() == '?' && !url.drop_last().contains('?') {
            if at < url.len() - 1 {
                assert(url.drop_last()[at] == '?');
                assert(url.drop_last().contains('?'));
            }
            assert(with_pair(url, name, value) =~= url + encoded(name) + seq!['='] + encoded(
                value,
            ));
        } else {
            if at == url.len() - 1 {
                assert(url.last() == '?');
                let i = choose|i: int|
                    0 <= i < url.drop_last().len() && url.drop_last()[i] == '?';
                assert(url[i] == '?');
            }
            assert(separator(url) == seq!['&']);
            assert(with_pair(url, name, value) =~= url + seq!['&'] + encoded(name) + seq!['=']
                + encoded(value));
        }
    }
    if url.len() > 0 && url.last() == '?' {
        assert(url[url.len() - 1] == '?');
        assert(url.contains('?'));
    }
}

/// The fragment of a url stays behind the parameters.
pub proof fn fragment_stays_behind(
    head: Seq<char>,
    fragment: Seq<char>,
    name: Seq<char>,
    value: Seq<char>,
)
    requires
        !head.contains('#'),
    ensures
        with_pair(head + seq!['#'] + fragment, name, value) == with_pair(head, name, value)
            + seq!['#'] + fragment,
{
    let url = head + seq!['#'] + fragment;
    let n = head.len() as int;
    assert(url[n] == '#');
    assert(url.contains('#'));
    url.index_of_first_ensures('#');
    head.index_of_first_ensures('#');
    let at = url.index_of_first('#')->0;
    if at < n {
        assert(head[at] == '#');
        assert(head.contains('#'));
    }
    assert(at == n);
    assert(url.take(n) =~= head);
    assert(head.take(n) =~= head);
    assert(head.skip(n) =~= Seq::<char>::empty());
    assert(url.skip(n) =~= seq!['#'] + fragment);
    assert(with_pair(url, name, value) =~= with_pair(head, name, value) + seq!['#'] + fragment);
}

/// Parameters are added one after the other.
pub proof fn parameters_come_in_order(
    url: Seq<char>,
    pairs: Seq<(Seq<char>, Seq<char>)>,
    name: Seq<char>,
    value: Seq<char>,
)
    ensures
        with_pairs(url, Seq::empty()) == url,
        with_pairs(url, pairs.push((name, value))) == with_pair(
            with_pairs(url, pairs),
            name,
            value,
        ),
{
    assert(pairs.push((name, value)).drop_last() =~= pairs);
}

proof fn parameter_takes_room(url: Seq<char>, name: Seq<char>, value: Seq<char>)
    ensures
        with_pair(url, name, value).len() >= url.len(),
        with_pair(url, name, value).len() <= u32::MAX ==> positions_fit(url, name, value),
{
    url.index_of_first_ensures('#');
}

proof fn short_urls_fit(url: Seq<char>, pairs: Seq<(Seq<char>, Seq<char>)>)
    requires
        with_pairs(url, pairs).len() <= u32::MAX,
    ensures
        all_positions_fit(url, pairs),
    decreases pairs.len(),
{
    if pairs.len() > 0 {
        let before = with_pairs(url, pairs.drop_last());
        parameter_takes_room(before, pairs.last().0, pairs.last().1);
        short_urls_fit(url, pairs.drop_last());
    }
}

/// There is a url exactly where the base parses, at least up to four gigabytes;
/// and it is what the base parses to with the parameters added.
pub proof fn urls_are_built_of_what_parses(base: Seq<char>, pairs: Seq<(Seq<char>, Seq<char>)>)
    ensures
        query_text(base, pairs) is Some ==> parsed_url(base) is Some && query_text(base, pairs)
            == Some(with_pairs(parsed_url(base)->0, pairs)),
        parsed_url(base) is Some && with_pairs(parsed_url(base)->0, pairs).len() <= 0xffff_ffff
            ==> query_text(base, pairs) is Some,
{
    if parsed_url(base) is Some && with_pairs(parsed_url(base)->0, pairs).len() <= 0xffff_ffff {
        short_urls_fit(parsed_url(base)->0, pairs);
    }
}

/// A parameter can be told from the url: two values give the same url only if
/// they are the same.
pub proof fn values_are_told_apart(url: Seq<char>, name: Seq<char>, a: Seq<char>, b: Seq<char>)
    requires
        with_pair(url, name, a) == with_pair(url, name, b),
    ensures
        a == b,
{
    url.index_of_first_ensures('#');
    let head = url.take(fragment_start(url));
    let tail = url.skip(fragment_start(url));
    let front = head + separator(head) + encoded(name) + seq!['='];
    let n = front.len() as int;
    let x = with_pair(url, name, a);
    let y = with_pair(url, name, b);
    assert(x =~= front + encoded(a) + tail);
    assert(y =~= front + encoded(b) + tail);
    assert(encoded(a).len() == encoded(b).len());
    assert(encoded(a) =~= x.subrange(n, n + encoded(a).len()));
    assert(encoded(b) =~= y.subrange(n, n + encoded(b).len()));
    encoding_loses_nothing(a, b);
}

proof fn parameter_text_is_plain(name: Seq<char>, value: Seq<char>)
    ensures
        ({
            let text = encoded(name) + seq!['='] + encoded(value);
            forall|i: int| 0 <= i < text.len() ==> #[trigger] text[i] != '?' && text[i] != '#'
        }),
{
    encoding_is_inert(name);
    encoding_is_inert(value);
    let text = encoded(name) + seq!['='] + encoded(value);
    assert forall|i: int| 0 <= i < text.len() implies #[trigger] text[i] != '?' && text[i]
        != '#' by {
        if i < encoded(name).len() {
            assert(is_inert(encoded(name)[i]));
        } else if i > encoded(name).len() {
            assert(is_inert(encoded(value)[i - encoded(name).len() - 1]));
        }
    }
}

/// Added to a url that has parameters already, but no fragment, another one comes
/// behind an ampersand, and the url still has no fragment.
proof fn one_more_parameter(
    front: Seq<char>,
    rest: Seq<char>,
    name: Seq<char>,
    value: Seq<char>,
) -> (longer: Seq<char>)
    requires
        !front.contains('?'),
        !front.contains('#'),
        rest.len() > 0,
        rest.last() != '?',
        !rest.contains('#'),
    ensures
        longer == rest + seq!['&'] + encoded(name) + seq!['='] + encoded(value),
        with_pair(front + seq!['?'] + rest, name, value) == front + seq!['?'] + longer,
        longer.len() > 0,
        longer.last() != '?',
        !longer.contains('#'),
{
    let url = front + seq!['?'] + rest;
    let text = encoded(name) + seq!['='] + encoded(value);
    let longer = rest + seq!['&'] + encoded(name) + seq!['='] + encoded(value);
    parameter_text_is_plain(name, value);
    assert forall|i: int| 0 <= i < url.len() implies url[i] != '#' by {
        if i < front.len() {
            assert(url[i] == front[i]);
            assert(front.contains(front[i]));
        } else if i > front.len() {
            assert(url[i] == rest[i - front.len() - 1]);
            assert(rest.contains(rest[i - front.len() - 1]));
        }
    }
    assert(url[front.len() as int] == '?');
    assert(url.contains('?'));
    assert(url.last() == rest.last());
    added_parameter_comes_last(url, name, value);
    assert(with_pair(url, name, value) =~= front + seq!['?'] + longer);
    assert(longer =~= rest + seq!['&'] + text);
    assert(longer.last() == text.last());
    assert forall|i: int| 0 <= i < longer.len() implies longer[i] != '#' by {
        if i < rest.len() {
            assert(longer[i] == rest[i]);
            assert(rest.contains(rest[i]));
        } else if i > rest.len() {
            assert(longer[i] == text[i - rest.len() - 1]);
        }
    }
    longer
}

/// A search is one url: the key, the query as it is and the limit, each under its
/// name, in this order.
pub proof fn search_asks_for_all_of_it(
    url: Seq<char>,
    key: Seq<char>,
    q: Seq<char>,
    limit: u32,
)
    requires
        !url.contains('?'),
        !url.contains('#'),
    ensures
        with_pairs(url, search_pairs(key, q, limit)) == url + seq!['?'] + (encoded("api_key"@)
            + seq!['='] + encoded(key) + seq!['&'] + encoded("q"@) + seq!['='] + encoded(q)
            + seq!['&'] + encoded("limit"@) + seq!['='] + encoded(decimal(limit as nat))),
{
    let pairs = search_pairs(key, q, limit);
    let one = seq![("api_key"@, key)];
    let two = one.push(("q"@, q));
    assert(pairs =~= two.push(("limit"@, decimal(limit as nat))));
    assert(one =~= Seq::empty().push(("api_key"@, key)));
    parameters_come_in_order(url, Seq::empty(), "api_key"@, key);
    parameters_come_in_order(url, one, "q"@, q);
    parameters_come_in_order(url, two, "limit"@, decimal(limit as nat));
    added_parameter_comes_last(url, "api_key"@, key);
    parameter_text_is_plain("api_key"@, key);
    let rest = encoded("api_key"@) + seq!['='] + encoded(key);
    assert(with_pair(url, "api_key"@, key) =~= url + seq!['?'] + rest);
    let more = one_more_parameter(url, rest, "q"@, q);
    let most = one_more_parameter(url, more, "limit"@, decimal(limit as nat));
    assert(most =~= encoded("api_key"@) + seq!['='] + encoded(key) + seq!['&'] + encoded("q"@)
        + seq!['='] + encoded(q) + seq!['&'] + encoded("limit"@) + seq!['='] + encoded(
        decimal(limit as nat),
    ));
}

/// Two searches get the same url only if they are for the same query.
pub proof fn searches_are_told_apart(url: Seq<char>, key: Seq<char>, a: Seq<char>, b: Seq<char>, limit: u32)
    requires
        !url.contains('?'),
        !url.contains('#'),
        with_pairs(url, search_pairs(key, a, limit)) == with_pairs(url, search_pairs(key, b, limit)),
    ensures
        a == b,
{
    search_asks_for_all_of_it(url, key, a, limit);
    search_asks_for_all_of_it(url, key, b, limit);
    let front = url + seq!['?'] + encoded("api_key"@) + seq!['='] + encoded(key) + seq!['&']
        + encoded("q"@) + seq!['='];
    let tail = seq!['&'] + encoded("limit"@) + seq!['='] + encoded(decimal(limit as nat));
    let n = front.len() as int;
    let x = with_pairs(url, search_pairs(key, a, limit));
    let y = with_pairs(url, search_pairs(key, b, limit));
    assert(x =~= front + encoded(a) + tail);
    assert(y =~= front + encoded(b) + tail);
    assert(encoded(a) =~= x.subrange(n, n + encoded(a).len()));
    assert(encoded(b) =~= y.subrange(n, n + encoded(b).len()));
    encoding_loses_nothing(a, b);
}

/// What is asked of Giphy's API for a search and for one gif: its own endpoints,
/// with the key of the client.
pub proof fn giphy_is_asked_at_its_endpoints(
    api_key: String,
    client: GiphyClient,
    q: &str,
    limit: u32,
    id: &str,
    found: Option<String>,
    one: String,
)
    requires
        call_ensures(GiphyClient::new, (api_key,), client),
        call_ensures(GiphyClient::search, (&client, q, limit), found),
        call_ensures(GiphyClient::get_by_id, (&client, id), one),
    ensures
        one@ == "https://api.giphy.com/v1/gifs/"@ + id@ + "?api_key="@ + api_key@,
        found is Some ==> parsed_url("https://api.giphy.com/v1/gifs/search"@) is Some && found->0@
            == with_pairs(
            parsed_url("https://api.giphy.com/v1/gifs/search"@)->0,
            search_pairs(api_key@, q@, limit),
        ),
        parsed_url("https://api.giphy.com/v1/gifs/search"@) is Some && with_pairs(
            parsed_url("https://api.giphy.com/v1/gifs/search"@)->0,
            search_pairs(api_key@, q@, limit),
        ).len() <= 0xffff_ffff ==> found is Some,
{
    urls_are_built_of_what_parses(
        "https://api.giphy.com/v1/gifs/search"@,
        search_pairs(api_key@, q@, limit),
    );
}

/// What the builders of urls give is what is said of urls here.
pub proof fn builders_keep_their_word(
    base: &str,
    parsed: Option<ParsedUrl>,
    start: ParsedUrl,
    pairs: &Vec<(String, String)>,
    built: Option<String>,
    added: Option<String>,
)
    requires
        call_ensures(ParsedUrl::parse, (base,), parsed),
        call_ensures(query_url, (base, pairs), built),
        call_ensures(add_pairs, (start, pairs), added),
    ensures
        pair_texts(pairs@).len() == pairs@.len(),
        forall|i: int|
            0 <= i < pairs@.len() ==> #[trigger] pair_texts(pairs@)[i] == (
                pairs@[i].0@,
                pairs@[i].1@,
            ),
        parsed is Some <==> parsed_url(base@) is Some,
        parsed is Some ==> Some(url_text(parsed->0)) == parsed_url(base@),
        built is Some <==> query_text(base@, pair_texts(pairs@)) is Some,
        built is Some ==> Some(built->0@) == query_text(base@, pair_texts(pairs@)),
        with_pairs(url_text(start), pair_texts(pairs@)).len() <= 0xffff_ffff ==> added is Some,
        added is Some ==> added->0@ == with_pairs(url_text(start), pair_texts(pairs@)),
{
    if with_pairs(url_text(start), pair_texts(pairs@)).len() <= 0xffff_ffff {
        short_urls_fit(url_text(start), pair_texts(pairs@));
    }
}

/// The full rendition of a found gif is its original, and the thumbnail the one of
/// fixed width; without the latter it is the original too.
pub proof fn renditions_of_a_found_gif(found: FoundGif, urls: GifUrls)
    requires
        call_ensures(gif_urls, (&found,), urls),
    ensures
        urls.full@ == found.gif.images.original.url@,
        found.fixed_width is Some ==> urls.thumb@ == found.fixed_width->0@,
        found.fixed_width is None ==> urls.thumb@ == found.gif.images.original.url@,
        urls_of(found).full == urls.full@,
        urls_of(found).thumb == urls.thumb@,
{
}

/// The statuses that report success are those from 200 to 299. An answer with one
/// of them, and content that can be read, is good; with any other status the
/// error tells it; and without either it is that of the request.
pub proof fn answers_are_judged_by_their_class(
    status: u16,
    good: Result<(), GiphyError>,
    missing: Result<(), GiphyError>,
    content: u64,
    read: Result<u64, GiphyError>,
    unread: Result<u64, GiphyError>,
)
    requires
        call_ensures(check_status, (Some(status),), good),
        call_ensures(check_status, (None::<u16>,), missing),
        call_ensures(check_content::<u64>, (Some(content),), read),
        call_ensures(check_content::<u64>, (None::<u64>,), unread),
    ensures
        is_success(status) <==> status as int / 100 == 2,
        status as int / 100 == 2 ==> good == Ok::<(), GiphyError>(()),
        status as int / 100 != 2 ==> good == Err::<(), GiphyError>(GiphyError::Status(status)),
        missing == Err::<(), GiphyError>(GiphyError::Request),
        read == Ok::<u64, GiphyError>(content),
        unread == Err::<u64, GiphyError>(GiphyError::Request),
{
}

} // verus!
