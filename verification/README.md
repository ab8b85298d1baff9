# music_blog

The core of a small blog server written without a web framework, verified
with Verus: reading HTTP requests from raw bytes, query strings and
URL-encoded forms, `multipart/form-data` uploads (through the `multipart`
crate), slugs, image checks, routing, and the text of HTTP responses.

- `src/` is the verified library:
  - `text.rs`: character-level specifications and helpers (trimming,
    splitting, lines, words, decimal numbers).
  - `domain.rs`: posts, slugs and the slug law, navigation, page models.
  - `error.rs`: the error type and status codes.
  - `form.rs`: a map with `HashMap::insert` semantics.
  - `request.rs`: request heads, query strings, URL-encoded bodies, and the
    reader that turns the bytes of a connection into a request.
  - `multi_exp.rs`: boundaries and multipart forms.
  - `response.rs`: responses and the text of HTTP messages.
  - `route.rs`: uploads, files, assets, pages and routing.
  - `laws.rs`: properties that relate several operations.
- `app/` is the server around it: sockets, files, askama templates, timing.

Routes: `GET /` (home), `GET /upload` (the form for a new post), `POST /`
(an upload), `GET /posts/<slug>` and `GET /post/<slug>` (a post),
`GET /file/<slug>` (a post's image), `GET /static/<name>` (assets).
- `tests/` runs the library on concrete inputs.
