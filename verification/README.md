# netwatch

The logic of a network monitor, written and proved in Verus.

- `src/dpi/` recognizes application protocols in the first bytes of a flow:
  one file per protocol, each with a mathematical description of what its
  classifier answers, and `classify_once`, which runs them in order of
  priority. `ja4.rs` computes JA4 fingerprints of TLS ClientHellos and
  `ja4_db.rs` names them.
- `src/collectors/` holds the bookkeeping of the collectors: the output of
  `traceroute`, the probing sequence of the native traceroute, and the traffic
  of the network interfaces.
- `src/scan.rs`, `src/text.rs` and `src/number.rs` are what the others build
  on: searching, text, and numbers in text.

Functions named `law_...` state what holds of several functions together.

SHA-256 comes from `ring` and JSON parsing from `serde_json`; the few functions
that call them, or parts of the standard library without a specification, say
in their comments what is taken on trust.

`app/` is the ordinary Rust around the library: files, sockets, processes,
threads, logging, floating-point rates and the serialized forms.
