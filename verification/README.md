# yggdrasil

The rules, state machines and parsers of a reverse proxy, written in Verus.

- `src/` is the verified library. It holds no I/O: it takes bytes, files already
  read, times and events as plain values and returns decisions.
  - `proxy_protocol`, `addr`, `text`: wire formats and their texts.
  - `tcp`, `udp`, `canary`, `h3_interpose`: the relays as functions from an event
    to the next state and the action to take.
  - `headers`, `forward`, `http_frontend`, `h3_frontend`: routing and rewriting
    of requests and responses.
  - `certs`, `acme`: loading, watching, issuing and renewing certificates.
  - `rule`, `resolver`, `supervisor`: rule sets and what a change of them stops
    and starts.
- `app/` runs the library on sockets, files and timers.
- `tests/` runs the library on concrete values.

What several functions promise together is stated in public proof functions whose
names start with `law_`. Calls into other crates stand in small functions marked
`external_body`; the comment above each says what is taken from the crate.
