# codexl

The logic of a desktop application's AI gateway extension and remote control, as a
Verus library. Every function states in its contract what it returns, and Verus
proves it.

- `src/text.rs`, `src/json.rs`, `src/json_text.rs`: text and JSON, and the
  mathematics in which the other contracts are written.
- `src/gateway/`: the gateway's configuration and model catalog, where its files
  are, and when its process is started.
- `src/remote/`: query strings, tokens, relay URLs, base64 text, the choice of this
  machine's address, and the file picker.
- `tests/`: the library on concrete values.
- `app/`: ordinary Rust around the library: files, processes, sockets and requests.

What is taken from outside stands behind wrappers and specifications whose doc
comments say what they claim: `serde_json` for JSON text and numbers,
`reqwest::Url` for URLs, `rand` for random bytes, and the standard library for the
clock, for small letters, and for bytes that are not UTF-8.

Laws that relate several functions are public proof functions whose names start
with `law_`.
