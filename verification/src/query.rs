//! Urls with query parameters.
use crate::text::chars_of;
use reqwest::Url;
use vstd::prelude::*;
use vstd::utf8::encode_utf8;

verus! {

/// A `reqwest::Url` that comes of parsing, and has had nothing done to it since
/// but parameters added.
///
/// A `Url` keeps the positions of its query and fragment beside its text, and
/// setters can bring the two apart: a path that is set may hold a `?` or `#` that
/// begins nothing. Parsing encodes every such character, so here the query begins
/// at the first `?`, and the fragment at the first `#`.
#[verifier::external_body]
pub struct ParsedUrl {
    url: Url,
}

/// The text of a parsed url, as `Url::as_str` gives it.
pub uninterp spec fn url_text(url: ParsedUrl) -> Seq<char>;

/// The text of the url that `Url::parse` makes of its input, if it makes one.
pub uninterp spec fn parsed_url(input: Seq<char>) -> Option<Seq<char>>;

/// Whether a byte stands for itself in a query parameter.
pub open spec fn stands_for_itself(b: u8) -> bool {
    ||| 0x30 <= b <= 0x39
    ||| 0x41 <= b <= 0x5a
    ||| 0x61 <= b <= 0x7a
    ||| b == 0x2a
    ||| b == 0x2d
    ||| b == 0x2e
    ||| b == 0x5f
}

/// The hexadecimal digit that stands for `n`, which is below sixteen.
pub open spec fn hex_digit(n: int) -> char {
    if n < 10 {
        ('0' as int + n) as char
    } else {
        ('A' as int + n - 10) as char
    }
}

/// How a byte is written in a query parameter: as itself, as a plus sign for a
/// space, or else as a percent sign and two hexadecimal digits.
pub open spec fn encoded_byte(b: u8) -> Seq<char> {
    if stands_for_itself(b) {
        seq![b as char]
    } else if b == 0x20 {
        seq!['+']
    } else {
        seq!['%', hex_digit(b as int / 16), hex_digit(b as int % 16)]
    }
}

/// How a row of bytes is written in a query parameter.
pub open spec fn encoded_bytes(bytes: Seq<u8>) -> Seq<char>
    decreases bytes.len(),
{
    if bytes.len() == 0 {
        Seq::empty()
    } else {
        encoded_bytes(bytes.drop_last()) + encoded_byte(bytes.last())
    }
}

/// How a text is written in a query parameter: its bytes in UTF-8, each encoded.
pub open spec fn encoded(text: Seq<char>) -> Seq<char> {
    encoded_bytes(encode_utf8(text))
}

/// Where the fragment of a url begins, or where the url ends if it has none.
pub open spec fn fragment_start(url: Seq<char>) -> int {
    match url.index_of_first('#') {
        Some(i) => i,
        None => url.len() as int,
    }
}

/// What comes between a url, without its fragment, and a parameter that is added
/// to it: a question mark if there is no query yet, nothing if the query is
/// empty, and an ampersand otherwise.
pub open spec fn separator(head: Seq<char>) -> Seq<char> {
    match head.index_of_first('?') {
        None => seq!['?'],
        Some(i) => if i == head.len() - 1 {
            Seq::empty()
        } else {
            seq!['&']
        },
    }
}

/// `url` with one more query parameter.
pub open spec fn with_pair(url: Seq<char>, name: Seq<char>, value: Seq<char>) -> Seq<char> {
    let head = url.take(fragment_start(url));
    head + separator(head) + encoded(name) + seq!['='] + encoded(value) + url.skip(
        fragment_start(url),
    )
}

/// `url` with more query parameters, one after the other.
pub open spec fn with_pairs(url: Seq<char>, pairs: Seq<(Seq<char>, Seq<char>)>) -> Seq<char>
    decreases pairs.len(),
{
    if pairs.len() == 0 {
        url
    } else {
        with_pair(with_pairs(url, pairs.drop_last()), pairs.last().0, pairs.last().1)
    }
}

/// Whether the positions that a url keeps of its query and fragment fit in 32
/// bits when one more parameter is added: that of the query, if it begins with
/// this parameter, and that of the fragment, if there is one.
pub open spec fn positions_fit(url: Seq<char>, name: Seq<char>, value: Seq<char>) -> bool {
    let head = url.take(fragment_start(url));
    &&& head.contains('?') || head.len() <= u32::MAX
    &&& url.contains('#') ==> (head + separator(head) + encoded(name) + seq!['='] + encoded(
        value,
    )).len() <= u32::MAX
}

/// Whether the positions fit for each of a list of parameters, added one after
/// the other.
pub open spec fn all_positions_fit(url: Seq<char>, pairs: Seq<(Seq<char>, Seq<char>)>) -> bool
    decreases pairs.len(),
{
    pairs.len() > 0 ==> {
        &&& all_positions_fit(url, pairs.drop_last())
        &&& positions_fit(with_pairs(url, pairs.drop_last()), pairs.last().0, pairs.last().1)
    }
}

/// The texts of a list of parameters.
pub open spec fn pair_texts(pairs: Seq<(String, String)>) -> Seq<(Seq<char>, Seq<char>)> {
    pairs.map_values(|p: (String, String)| (p.0@, p.1@))
}

/// The url that `base` names with parameters added to it. There is none if
/// `base` does not parse, or if a position that the url keeps of its query or
/// fragment would not fit in 32 bits.
pub open spec fn query_text(
    base: Seq<char>,
    pairs: Seq<(Seq<char>, Seq<char>)>,
) -> Option<Seq<char>> {
    match parsed_url(base) {
        Some(url) => if all_positions_fit(url, pairs) {
            Some(with_pairs(url, pairs))
        } else {
            None
        },
        None => None,
    }
}

/// Calls `Url::parse`.
#[verifier::external_body]
fn url_parse(input: &str) -> (url: Option<ParsedUrl>)
    ensures
        url is Some <==> parsed_url(input@) is Some,
        url matches Some(u) ==> Some(url_text(u)) == parsed_url(input@),
{
    match Url::parse(input) {
        Ok(url) => Some(ParsedUrl { url }),
        Err(_) => None,
    }
}

/// Calls `Url::as_str`.
#[verifier::external_body]
fn url_as_str(url: &ParsedUrl) -> (text: &str)
    ensures
        text@ == url_text(*url),
{
    url.url.as_str()
}

/// Calls `append_pair` on `Url::query_pairs_mut`: one more parameter ends up
/// behind those that are there and before the fragment, its name and value
/// encoded. It would panic if the position of the query or of the fragment did
/// not fit in 32 bits.
#[verifier::external_body]
fn url_append_pair(url: &mut ParsedUrl, name: &str, value: &str)
    requires
        positions_fit(url_text(*old(url)), name@, value@),
    ensures
        url_text(*final(url)) == with_pair(url_text(*old(url)), name@, value@),
{
    url.url.query_pairs_mut().append_pair(name, value);
}

fn encoded_len(s: &str) -> (n: u128)
    ensures
        n == encoded(s@).len(),
        n <= 3 * usize::MAX,
{
    let bytes = s.as_bytes();
    let mut n: u128 = 0;
    let mut i: usize = 0;
    proof {
        assert(bytes@.take(0) =~= Seq::<u8>::empty());
    }
    while i < bytes.len()
        invariant
            i <= bytes.len(),
            n == encoded_bytes(bytes@.take(i as int)).len(),
            n <= 3 * i,
        decreases bytes.len() - i,
    {
        let b = bytes[i];
        proof {
            assert(bytes@.take(i + 1).drop_last() =~= bytes@.take(i as int));
            assert(bytes@.take(i + 1).last() == b);
        }
        let plain = (0x30 <= b && b <= 0x39) || (0x41 <= b && b <= 0x5a) || (0x61 <= b && b <= 0x7a)
            || b == 0x2a || b == 0x2d || b == 0x2e || b == 0x5f || b == 0x20;
        n = n + if plain {
            1
        } else {
            3
        };
        i = i + 1;
    }
    proof {
        assert(bytes@.take(i as int) =~= bytes@);
    }
    n
}

fn position_of(chars: &Vec<char>, c: char) -> (at: Option<usize>)
    ensures
        at is Some <==> chars@.contains(c),
        at matches Some(i) ==> i < chars@.len() && chars@.index_of_first(c) == Some(i as int),
        at is None ==> chars@.index_of_first(c) is None,
{
    proof {
        chars@.index_of_first_ensures(c);
    }
    let mut i: usize = 0;
    while i < chars.len()
        invariant
            i <= chars.len(),
            forall|k: int| 0 <= k < i ==> #[trigger] chars@[k] != c,
        decreases chars.len() - i,
    {
        if chars[i] == c {
            proof {
                assert(chars@.contains(c));
                chars@.index_of_first_ensures(c);
            }
            return Some(i);
        }
        i = i + 1;
    }
    None
}

fn check_positions(url: &str, name: &str, value: &str) -> (fit: bool)
    ensures
        fit == positions_fit(url@, name@, value@),
{
    let chars = chars_of(url);
    let hash = position_of(&chars, '#');
    let mark = position_of(&chars, '?');
    let end: usize = match hash {
        Some(i) => i,
        None => chars.len(),
    };
    let has_query = match mark {
        Some(i) => i < end,
        None => false,
    };
    let ghost head = url@.take(fragment_start(url@));
    proof {
        url@.index_of_first_ensures('#');
        url@.index_of_first_ensures('?');
        head.index_of_first_ensures('?');
        assert(head.len() == end);
        if has_query {
            assert(head[mark->0 as int] == '?');
            assert(head.contains('?'));
            let i = head.index_of_first('?')->0;
            assert(head[i] == url@[i]);
        } else if head.contains('?') {
            let i = choose|i: int| 0 <= i < head.len() && head[i] == '?';
            assert(url@[i] == '?');
            assert(url@.contains('?'));
        }
    }
    if !has_query && end as u128 > u32::MAX as u128 {
        return false;
    }
    if hash.is_none() {
        return true;
    }
    let between: u128 = match mark {
        Some(i) => if i < end {
            if i == end - 1 {
                0
            } else {
                1
            }
        } else {
            1
        },
        None => 1,
    };
    let added = encoded_len(name);
    let added_value = encoded_len(value);
    end as u128 + between + added + 1 + added_value <= u32::MAX as u128
}

impl ParsedUrl {
    /// Parses a url.
    pub fn parse(input: &str) -> (url: Option<ParsedUrl>)
        ensures
            url is Some <==> parsed_url(input@) is Some,
            url matches Some(u) ==> Some(url_text(u)) == parsed_url(input@),
    {
        url_parse(input)
    }
}

/// Builds the url that `base` names with parameters added to it.
pub fn query_url(base: &str, pairs: &Vec<(String, String)>) -> (url: Option<String>)
    ensures
        url is Some <==> query_text(base@, pair_texts(pairs@)) is Some,
        url matches Some(u) ==> query_text(base@, pair_texts(pairs@)) == Some(u@),
{
    match ParsedUrl::parse(base) {
        Some(url) => add_pairs(url, pairs),
        None => None,
    }
}

proof fn positions_fit_so_far(url: Seq<char>, pairs: Seq<(Seq<char>, Seq<char>)>, n: int)
    requires
        0 <= n <= pairs.len(),
        all_positions_fit(url, pairs),
    ensures
        all_positions_fit(url, pairs.take(n)),
    decreases pairs.len(),
{
    if n < pairs.len() {
        positions_fit_so_far(url, pairs.drop_last(), n);
        assert(pairs.drop_last().take(n) =~= pairs.take(n));
    } else {
        assert(pairs.take(n) =~= pairs);
    }
}

/// Adds parameters to a parsed url, if the positions that it keeps of its query
/// and fragment still fit in 32 bits.
pub fn add_pairs(base: ParsedUrl, pairs: &Vec<(String, String)>) -> (text: Option<String>)
    ensures
        text is Some <==> all_positions_fit(url_text(base), pair_texts(pairs@)),
        text matches Some(t) ==> t@ == with_pairs(url_text(base), pair_texts(pairs@)),
{
    let ghost start = url_text(base);
    let mut url = base;
    let ghost list = pair_texts(pairs@);
    let mut i: usize = 0;
    proof {
        assert(list.take(0) =~= Seq::<(Seq<char>, Seq<char>)>::empty());
    }
    while i < pairs.len()
        invariant
            i <= pairs.len(),
            list == pair_texts(pairs@),
            start == url_text(base),
            url_text(url) == with_pairs(start, list.take(i as int)),
            all_positions_fit(start, list.take(i as int)),
        decreases pairs.len() - i,
    {
        let name = pairs[i].0.as_str();
        let value = pairs[i].1.as_str();
        let ghost next = list.take(i + 1);
        proof {
            assert(next.drop_last() =~= list.take(i as int));
            assert(next.last() == (name@, value@));
        }
        if !check_positions(url_as_str(&url), name, value) {
            proof {
                if all_positions_fit(start, list) {
                    positions_fit_so_far(start, list, i + 1);
                }
            }
            return None;
        }
        url_append_pair(&mut url, name, value);
        i = i + 1;
    }
    proof {
        assert(list.take(i as int) =~= list);
    }
    Some(url_as_str(&url).to_owned())
}

proof fn encoded_bytes_front(bytes: Seq<u8>)
    requires
        bytes.len() > 0,
    ensures
        encoded_bytes(bytes) == encoded_byte(bytes.first()) + encoded_bytes(bytes.drop_first()),
    decreases bytes.len(),
{
    let rest = bytes.drop_first();
    if rest.len() == 0 {
        assert(bytes.drop_last() =~= rest);
        assert(encoded_bytes(rest) =~= Seq::<char>::empty());
        assert(encoded_bytes(bytes) =~= encoded_byte(bytes.first()) + encoded_bytes(rest));
    } else {
        encoded_bytes_front(bytes.drop_last());
        assert(bytes.drop_last().drop_first() =~= rest.drop_last());
        assert(encoded_bytes(bytes) =~= encoded_byte(bytes.first()) + encoded_bytes(rest));
    }
}

/// Whether a character can stand in an encoded parameter.
pub open spec fn is_inert(c: char) -> bool {
    ||| '0' <= c <= '9'
    ||| 'A' <= c <= 'Z'
    ||| 'a' <= c <= 'z'
    ||| c == '*'
    ||| c == '-'
    ||| c == '.'
    ||| c == '_'
    ||| c == '+'
    ||| c == '%'
}

proof fn encoded_bytes_are_inert(bytes: Seq<u8>)
    ensures
        forall|i: int| 0 <= i < encoded_bytes(bytes).len() ==> is_inert(#[trigger] encoded_bytes(bytes)[i]),
    decreases bytes.len(),
{
    if bytes.len() > 0 {
        let front = encoded_bytes(bytes.drop_last());
        let b = bytes.last();
        encoded_bytes_are_inert(bytes.drop_last());
        assert forall|i: int| 0 <= i < encoded_byte(b).len() implies is_inert(
            #[trigger] encoded_byte(b)[i],
        ) by {}
        assert forall|i: int| 0 <= i < encoded_bytes(bytes).len() implies is_inert(
            #[trigger] encoded_bytes(bytes)[i],
        ) by {
            if i < front.len() {
                assert(encoded_bytes(bytes)[i] == front[i]);
            } else {
                assert(encoded_bytes(bytes)[i] == encoded_byte(b)[i - front.len()]);
            }
        }
    }
}

/// Nothing in a parameter can end it, start another one, or leave the query: an
/// encoded text holds no `&`, `=`, `?` or `#`.
pub proof fn encoding_is_inert(text: Seq<char>)
    ensures
        forall|i: int| 0 <= i < encoded(text).len() ==> is_inert(#[trigger] encoded(text)[i]),
        !is_inert('&'),
        !is_inert('='),
        !is_inert('?'),
        !is_inert('#'),
{
    encoded_bytes_are_inert(encode_utf8(text));
}

proof fn encoded_byte_is_prefix_free(a: u8, b: u8, x: Seq<char>, y: Seq<char>)
    requires
        encoded_byte(a) + x == encoded_byte(b) + y,
    ensures
        a == b,
        x == y,
{
    let s = encoded_byte(a) + x;
    let t = encoded_byte(b) + y;
    assert(s[0] == encoded_byte(a)[0]);
    assert(t[0] == encoded_byte(b)[0]);
    assert(encoded_byte(a).len() == encoded_byte(b).len());
    if encoded_byte(a).len() == 3 {
        assert(s[1] == encoded_byte(a)[1]);
        assert(t[1] == encoded_byte(b)[1]);
        assert(s[2] == encoded_byte(a)[2]);
        assert(t[2] == encoded_byte(b)[2]);
    }
    assert(a == b);
    assert(x =~= s.skip(encoded_byte(a).len() as int));
    assert(y =~= t.skip(encoded_byte(b).len() as int));
}

proof fn encoded_bytes_injective(a: Seq<u8>, b: Seq<u8>)
    requires
        encoded_bytes(a) == encoded_bytes(b),
    ensures
        a == b,
    decreases a.len(),
{
    if a.len() > 0 {
        encoded_bytes_front(a);
        assert(encoded_bytes(a).len() > 0);
    }
    if b.len() > 0 {
        encoded_bytes_front(b);
        assert(encoded_bytes(b).len() > 0);
    }
    if a.len() > 0 && b.len() > 0 {
        encoded_byte_is_prefix_free(
            a.first(),
            b.first(),
            encoded_bytes(a.drop_first()),
            encoded_bytes(b.drop_first()),
        );
        encoded_bytes_injective(a.drop_first(), b.drop_first());
        assert(a =~= seq![a.first()] + a.drop_first());
        assert(b =~= seq![b.first()] + b.drop_first());
    } else {
        assert(a =~= b);
    }
}

/// Encoding loses nothing: two texts are encoded alike only if they are the same.
pub proof fn encoding_loses_nothing(a: Seq<char>, b: Seq<char>)
    requires
        encoded(a) == encoded(b),
    ensures
        a == b,
{
    encoded_bytes_injective(encode_utf8(a), encode_utf8(b));
    vstd::utf8::encode_utf8_decode_utf8(a);
    vstd::utf8::encode_utf8_decode_utf8(b);
}

} // verus!
