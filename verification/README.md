# gif-bridge

A caching proxy in front of Giphy, for a chat client's GIF picker. What it
decides and computes is verified with Verus; what talks to the network and the
disk is ordinary Rust around that.

## Layout

- `src/` is the library. Requests are state machines: told what has happened, a
  machine says what to do next, and its contract says exactly what that is.
  - `auth`, `search`, `media`: verifying tokens, answering searches, serving gifs.
  - `giphy`, `query`: what is asked of Giphy's API, and how urls are put together.
  - `disk_cache`, `recency`, `order`: the index of the media cache, least recently
    used first, and the url records.
  - `downloads`: requests for the same rendition share one download.
  - `config`, `status`, `text`: settings, HTTP statuses, text helpers.
  - `disk_cache_laws`, `media_laws`, `search_laws`, `sharing_laws`: what holds
    across calls and requests.
- `app/` is the proxy: routes, HTTP clients, files, JSON.
- `tests/` runs the library on concrete values.

## Endpoints

- `GET /search?q=&limit=` with `Authorization: Bearer <token>`, a Matrix OpenID
  token.
- `GET /media/:id/:variant`, where the variant is `thumb` or `full`.

## Settings

- `GIPHY_API_KEY` (required)
- `OPENID_VERIFY_URL` (default
  `https://matrix.loaf.moe/_matrix/federation/v1/openid/userinfo`)
- `PORT` (default `8080`)
- `CACHE_DIR` (default `./cache`)
- `CACHE_MAX_BYTES` (default `2147483648`)
