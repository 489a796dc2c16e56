# proxy_core

The verified decisions of a chained proxy: streams inside gRPC messages, an HTTP inbound with
`CONNECT` tunnels and forwarding, and relays between two streams.

- `src/` is the library. No function in it waits: each takes the event that just happened and
  answers with a `Step`, which is an action to perform or the result to return.
  - `step` holds `Step`.
  - `varint` and `proxy::grpc::frame` say what a message is and what received bytes are worth, with
    the laws that reading gives back what was written.
  - `proxy::grpc::stream` and `proxy::grpc::builder` are the stream inside a call, and how a call is
    opened.
  - `proxy::http_inbound` routes requests, answers `CONNECT`, strips headers and steers tunnels.
  - `proxy::direct` and `proxy::blackhole` are the two trivial protocols.
  - `common::net` reads into buffers, tells poll results apart and lays out relays.
  - `buffers` and `web` state what the `bytes`, `tokio` and `http` crates are relied on for.
- `tests/` runs the library on the real crates.
- `app/` performs the actions, on tokio, h2 and hyper.

Buffer sizes are given in units; the library takes the size of a unit as a parameter, and `app/`
sets it.
