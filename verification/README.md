# pubky_hs_inspect

A command-line inspector for Pubky homeservers, written in Verus.

- `src/` is the verified library: reading user input and keys, choosing the
  homeserver a PKRR record names and building its URLs, parsing
  `/events-stream/` batches and event lines, following a stream as its text
  arrives (`src/stream.rs`: what to print and when to stop), and presenting
  listings and fetched bodies. Each public function states its result in its
  contract; `src/laws.rs`, `src/sse.rs` and `src/stream.rs` hold properties
  proved across functions.
- `src/pubkey.rs` holds the only calls into the `pubky` crate (key parsing and
  identifier resolution), and `src/body.rs` the one into `serde_json`
  (pretty-printing JSON), with what the library assumes of them.
- `app/` is the program: argument parsing with clap, network requests through
  the pubky SDK and reqwest, decoding the bytes of a stream, and printing.
- `tests/` runs the library on concrete inputs.
