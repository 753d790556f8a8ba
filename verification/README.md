# async_minreq

A small asynchronous HTTP client whose protocol core is verified with Verus.

## Layout

- `src/` is the verified library. It holds the protocol logic: how a
  response is read and what it means, and the decisions of a request:
  - `parse.rs`: the status line, header lines, chunk size lines and
    `content-length` values, each with a specification of what the text
    means;
  - `line.rs`: assembling a line of the response head from the chunks the
    connection delivers;
  - `headers.rs`: the header fields, a map from lower-cased name to value;
  - `framing.rs`: how the body is delimited (`content-length`, chunked, or
    until the connection closes), and the steps that read the header and
    trailer sections under a size limit;
  - `response.rs`: the lazily loaded response as a state machine over its
    body framing, and the loaded `Response`;
  - `redirect.rs`, `host.rs`, `timeout.rs`: redirect decisions, punycode
    host names, and timeout arithmetic;
  - `number.rs`, `text.rs`: integer grammar and formatting, and character
    helpers.
- `app/` is the unverified shell around it: sockets, TLS, the async
  stream plumbing that feeds the library's steps, and the request itself
  (URL parsing, the request bytes, following a redirect's location and
  refusing redirect loops), which is not verified.
- `tests/` runs the library on concrete inputs.

Calls into outside crates (`punycode`, `serde_json`) and into parts of std
that have no specification stand behind small trusted wrappers, each
documented where it is declared.
