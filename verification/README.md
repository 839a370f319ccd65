# h11 (verified core)

A sans-I/O HTTP/1.1 library core whose behaviour is stated as Verus contracts
and proved.

- `src/text.rs`: byte-string helpers (ASCII lower-casing, trimming, splitting
  on commas, decimal and `{:?}` rendering) and the `ByteSource` trait for
  constructor arguments.
- `src/grammar.rs`: the HTTP grammar rules (token, version, target, reason
  phrase, field value, `Content-Length`), checked with the `regex` crate
  behind one trusted wrapper whose contract states what each pattern matches.
- `src/headers.rs`: `Headers`, `normalize_and_validate` with a spec model of
  normalisation, comma-separated headers and `Expect: 100-continue`.
- `src/events.rs`: request/response heads and their validation, the other
  events, and `Event` conversions.
- `src/render.rs`: `{:?}`-style quoting of byte strings, used by the
  `debug_text` methods of `Headers` and `Request`.
- `src/error.rs`: protocol error types and their text.
- `src/laws.rs`: proved properties of normalisation and comma headers.
- `src/targets.rs`: request targets built from arbitrary bytes.
- `app/lib.rs`: `Display` and `std::error::Error` on copies of the error types.
