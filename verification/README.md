# capsule_runtime

The Capsule runtime serves sandboxed coding sessions: each session is a Docker
container with a terminal behind a PTY, reached over a WebSocket and a small
REST API, with an optional Observal dashboard proxied beside it.

The crate is in two parts.

- `src/` is the library, verified with Verus. It holds the session table and
  its timeouts, the container and exec settings, the REST replies and the
  commands each endpoint runs, the file-listing parser, the WebSocket
  handshake, the PTY command loop, the provider key pool, the Observal client's
  requests and the proxy's routing and header rules. Every function carries a
  contract, and the laws that relate them (what a lookup gives back after an
  insert, what cleanup keeps, that a listing reads back as the entries it was
  printed for, ...) are proof functions named `law_*`.
- `app/` is the server around it: `main`, the axum routes, Docker calls through
  bollard, PTYs through portable-pty, HTTP through reqwest, and the serde
  copies of the wire types.

Tests under `tests/` run the library on concrete values.
