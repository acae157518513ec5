# stream_converter

A proxy for OpenAI-compatible chat completions. A request for a stream is passed through; any
other request is sent upstream as a streamed one, and the stream is collected into one answer.
Answers that are not streamed can be cached.

The library under `src/` is verified with Verus:

- `json`, `interop`, `number`: JSON values, and the boundary to `serde_json`.
- `text`, `lines`, `decimal`: strings, lines that arrive in pieces, decimal numbers.
- `canonical`, `sorting`, `digest`, `key`: fingerprints of responses and cache keys of requests.
- `cache_model`, `cache`, `clock`: the response cache, with a time to live, a least-recently-used
  order and a warm-up.
- `cache_laws`, `history`, `content_laws`: what holds of the cache, also over any history of calls,
  and of fingerprints and keys as a whole.
- `gate`, `exchange`: when the cache serves and stores, and what to do about a request.
- `tools`, `forward`, `collect`: names of tool calls, forwarding and collecting a stream.
- `chat`, `usage`, `upstream`, `config`, `mask`, `ids`: the bodies of answers and errors, usage
  reports, addresses, settings, masked keys and identifiers.

`app/` is the server around the library: sockets, environment variables, logging, the calls to the
upstream, and what is computed in floating point. `tests/` runs the library.
