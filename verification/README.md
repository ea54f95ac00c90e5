# http_server

A small HTTP/1.0–1.1 server. The library under `src/` holds the server's
parsing, framing, routing and connection decisions, each function with a
contract proved by Verus:

- `text` — Unicode whitespace, trimming, splitting, ASCII case folding and
  UTF-8 lengths over character sequences.
- `request` — parsing a request head (request line, header fields, size
  limits) against the specification `parse_request`.
- `response` — responses and their wire form (`http_message`), header-value
  checks, gzip for large bodies.
- `handlers`, `router` — which answer a request gets.
- `static_files` — which file a request path names, whether it may be
  served, its media type.
- `connection` — when a request head is complete, the step of the request
  loop (`step`: state and event to next state and action), how a reply is
  framed, and the fallback when framing fails.
- `laws` — properties across these functions (the shape of a parsed
  request, normalized header names, the body not affecting a parse, the body
  of a response following its first blank line, relative static paths,
  nothing being done on a connection after it ends).

`app/` is the program around it: sockets, timeouts, the clock, the file
system and the task per connection.
