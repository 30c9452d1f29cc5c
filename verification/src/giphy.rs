//! Giphy's API: what is asked of it, and what it answers.
use crate::query::pair_texts;
use crate::query::query_text;
use crate::query::query_url;
use crate::text::decimal;
use crate::text::decimal_text;
use vstd::prelude::*;

verus! {

/// A client of Giphy's API.
pub struct GiphyClient {
    api_key: String,
}

/// Why a call of Giphy's API gave nothing.
#[derive(Debug, PartialEq, Eq, Clone, Copy, Structural)]
pub enum GiphyError {
    /// The request could not be sent, or its answer could not be read.
    Request,
    /// Giphy answered with this status.
    Status(u16),
}

/// One rendition of a gif. Giphy writes the numbers as text.
pub struct GiphyImage {
    pub url: String,
    pub width: Option<String>,
    pub height: Option<String>,
    pub size: Option<String>,
}

/// The renditions of a gif.
pub struct GiphyImages {
    pub original: GiphyImage,
}

/// A gif as Giphy describes it.
pub struct GiphyGif {
    pub id: String,
    pub title: String,
    pub url: String,
    pub images: GiphyImages,
}

/// A gif that a search found, with the url of its `fixed_width` rendition where
/// Giphy gave one.
pub struct FoundGif {
    pub gif: GiphyGif,
    pub fixed_width: Option<String>,
}

/// Where the renditions of a gif are on Giphy's CDN.
pub struct GifUrls {
    pub full: String,
    pub thumb: String,
}

/// What `GifUrls` holds.
#[verifier::ext_equal]
pub struct GifUrlsView {
    pub full: Seq<char>,
    pub thumb: Seq<char>,
}

impl View for GifUrls {
    type V = GifUrlsView;

    open spec fn view(&self) -> GifUrlsView {
        GifUrlsView { full: self.full@, thumb: self.thumb@ }
    }
}

impl Clone for GifUrls {
    fn clone(&self) -> (urls: GifUrls)
        ensures
            urls == *self,
    {
        GifUrls { full: self.full.clone(), thumb: self.thumb.clone() }
    }
}

/// Where the renditions of a found gif are: the full one is the original, the
/// thumbnail the one of fixed width. Without the latter the original serves as
/// both.
pub open spec fn urls_of(found: FoundGif) -> GifUrlsView {
    GifUrlsView {
        full: found.gif.images.original.url@,
        thumb: match found.fixed_width {
            Some(url) => url@,
            None => found.gif.images.original.url@,
        },
    }
}

/// Where the renditions of a found gif are.
pub fn gif_urls(found: &FoundGif) -> (urls: GifUrls)
    ensures
        urls@ == urls_of(*found),
{
    let full = found.gif.images.original.url.clone();
    let thumb = match &found.fixed_width {
        Some(url) => url.clone(),
        None => found.gif.images.original.url.clone(),
    };
    GifUrls { full, thumb }
}

/// Whether an HTTP status reports success.
pub open spec fn is_success(status: u16) -> bool {
    200 <= status < 300
}

/// The parameters of a search.
pub open spec fn search_pairs(
    api_key: Seq<char>,
    q: Seq<char>,
    limit: u32,
) -> Seq<(Seq<char>, Seq<char>)> {
    seq![("api_key"@, api_key), ("q"@, q), ("limit"@, decimal(limit as nat))]
}

impl View for GiphyClient {
    type V = Seq<char>;

    /// The API key.
    closed spec fn view(&self) -> Seq<char> {
        self.api_key@
    }
}

impl GiphyClient {
    /// A client that uses `api_key`.
    pub fn new(api_key: String) -> (client: GiphyClient)
        ensures
            client@ == api_key@,
    {
        GiphyClient { api_key }
    }

    /// The url to get for a search. The API key is put in here, on the server's
    /// side.
    pub fn search(&self, q: &str, limit: u32) -> (url: Option<String>)
        ensures
            url is Some <==> query_text(
                "https://api.giphy.com/v1/gifs/search"@,
                search_pairs(self@, q@, limit),
            ) is Some,
            url matches Some(u) ==> query_text(
                "https://api.giphy.com/v1/gifs/search"@,
                search_pairs(self@, q@, limit),
            ) == Some(u@),
    {
        let mut pairs: Vec<(String, String)> = Vec::new();
        pairs.push(("api_key".to_owned(), self.api_key.clone()));
        pairs.push(("q".to_owned(), q.to_owned()));
        pairs.push(("limit".to_owned(), decimal_text(limit as u64)));
        proof {
            assert(pair_texts(pairs@) =~= search_pairs(self@, q@, limit));
        }
        query_url("https://api.giphy.com/v1/gifs/search", &pairs)
    }

    /// The url to get for one gif.
    pub fn get_by_id(&self, id: &str) -> (url: String)
        ensures
            url@ == "https://api.giphy.com/v1/gifs/"@ + id@ + "?api_key="@ + self@,
    {
        let mut url = "https://api.giphy.com/v1/gifs/".to_owned();
        url.append(id);
        url.append("?api_key=");
        url.append(self.api_key.as_str());
        url
    }
}

/// Judges the answer to a call by its status, which is missing if the request
/// could not be sent.
pub fn check_status(status: Option<u16>) -> (r: Result<(), GiphyError>)
    ensures
        r == (match status {
            None => Err::<(), GiphyError>(GiphyError::Request),
            Some(code) => if is_success(code) {
                Ok(())
            } else {
                Err(GiphyError::Status(code))
            },
        }),
{
    match status {
        None => Err(GiphyError::Request),
        Some(code) => if 200 <= code && code < 300 {
            Ok(())
        } else {
            Err(GiphyError::Status(code))
        },
    }
}

/// Judges the answer to a call by its content, which is missing if it could not
/// be read.
pub fn check_content<T>(content: Option<T>) -> (r: Result<T, GiphyError>)
    ensures
        r == (match content {
            None => Err::<T, GiphyError>(GiphyError::Request),
            Some(c) => Ok(c),
        }),
{
    match content {
        None => Err(GiphyError::Request),
        Some(c) => Ok(c),
    }
}

} // verus!
