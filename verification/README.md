# meev

The backend of MEEV, a messenger with friend suggestions: REST API,
WebSocket delivery, an MQTT bus between instances, PostgreSQL storage and an
ffmpeg media pipeline.

The decisions of the backend are a library verified with Verus (`src/`);
the server around it (`app/`) performs the I/O.

## Library (`src/`)

| module       | what it decides |
|--------------|-----------------|
| `validate`   | usernames, e-mail addresses, display names, bios, interests |
| `auth`       | password policy, Argon2id hashing, token claims, where a request carries its token, percent-decoding, the stored form of refresh tokens |
| `jwt`        | signing access and refresh tokens (HS512) and reading the claims of a presented token |
| `requests`   | the request bodies and query strings, and what each handler derives from them |
| `routes`     | cleaned free text, message content, group members, paging, `LIKE` patterns, unread markers, follow status |
| `rate_limit` | the sliding-window limiter and whom a request is counted against |
| `dedup`      | the TTL table that keeps bus echoes from being delivered twice |
| `hub`, `ws`  | which sockets are connected, who is in which room, one WebSocket session |
| `mqtt`       | broker address, topic names, which incoming topics are handled, the event loop's reconnect decisions |
| `media`      | safe display names, media kinds, stored extensions, the compression pipeline as a state machine |
| `suggest`    | shared interests, suggestion reasons, recent activity, ranking |
| `config`     | reading and checking every setting |
| `db`         | splitting the schema into statements |
| `error`      | the error type and the response each error becomes |
| `laws`       | properties that hold across calls |

Calls into `argon2`, `sha2`, `hex`, `uuid`, `jsonwebtoken` and a few `std`
functions stand behind small trusted wrappers whose contracts say what those
crates do.

## Server (`app/`)

`app/main.rs` wires Axum, sqlx, rumqttc and tower-http around
the library: it reads requests, the database, the broker and the clock, and
hands the library plain values. Floating-point work (distances, the weighted
suggestion score, ffprobe durations) stays there.

The schema is read at start-up from `migrations/0001_init.sql`.
