# pyvoy

pyvoy runs Python ASGI and WSGI applications inside Envoy as a dynamic
module. This repository holds its request-handling logic as a library
verified with Verus, plus the glue that ties it to Envoy and to Python.

## Layout

- `src/` — the verified library. Its functions carry `requires` /
  `ensures` contracts proved by Verus, except the small trusted wrappers
  around outside crates listed below, whose contracts Verus takes on trust.
  - `eventbridge` — the queue between a filter and the Python side.
  - `headers`, `scope`, `body`, `response` — reading requests from Envoy
    (headers, pseudo-headers, addresses, TLS, body buffers) and writing
    responses to it.
  - `config` — the filter configuration and tuning knobs.
  - `asgi` — the ASGI `http` scope, the `receive` / `send` protocol, the
    lifespan protocol, streamed upstream response bodies, and WebSockets.
  - `wsgi` — the WSGI environ, input and error streams, `start_response`,
    and the filter's reads and writes.
  - `transport` — upstream requests made by applications through the HTTP
    client: request checks, stream headers, and stream bookkeeping.
- `tests/` — tests of the library on concrete inputs.
- `app/` — the Envoy filters and the Python classes (PyO3) that perform the
  calls the library decides on: threads, event loops, Python objects and
  Envoy's callbacks.

Calls into `http`, `url`, `urlencoding`, `encoding_rs`, `itoa`,
`yaml-rust2` and a few std conversions stand behind small trusted wrappers.
A wrapper makes one call and converts its arguments and result, nothing
more; its contract states what the crate's source or documentation shows,
or names the result where it takes pages to state (how a URL or a YAML text
parses). Everything built on them is proved.
