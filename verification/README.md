# quaver_stats

A service that renders a Quaver player's statistics as a PNG card
(`GET /card/{name}`) and reports its liveness (`GET /health`).

- `src/` is the verified library (Verus):
  - `cache.rs`: the TTL cache of rendered cards, with its model
    (a map from keys to bytes and expiry time) and the laws of reading,
    writing, eviction and counting;
  - `card.rs`: card layout, the integer and name text lines, and how a card
    request is answered from lookups and the cache;
  - `user.rs`: key modes, Quaver API addresses, and what a user search yields;
  - `avatar.rs`: the avatar disk-cache key (SHA-1) and the decoding and
    resizing of avatar images;
  - `health.rs`: the liveness report;
  - `text.rs`: decimal and hexadecimal text.
- `app/` is the server around it: HTTP (axum, reqwest), JSON decoding (serde),
  files, the async shared cache, and text drawing.
- `tests/` exercise the library.
