# resonance

The verified core of a provider-neutral music library client for
Subsonic and OpenSubsonic servers.

- `src/` is the library, verified with Verus:
  - `model` — media identities, albums, tracks, provider issues and errors;
  - `text` — decimal rendering and parsing, trimming, substring search and
    text order;
  - `subsonic` — server addresses, authentication (API key or salted MD5
    token) and the endpoint URLs of the REST API;
  - `response` — the checks on every answer and the lenient reading of its
    values;
  - `paging` — collecting a provider's albums page by page;
  - `library` — the provider registry, provider-qualified identities, the
    merging of every provider's answer, and registration checks;
  - `ordering`, `ranking` — the sort orders of the library and of the
    browsing screens;
  - `catalog`, `browse` — what the browsing screens show;
  - `playback` — the play queue with shuffle and repeat.
- `app/` is the HTTP server around it (axum, reqwest, serde).
- `tests/` exercises the library on concrete values.
