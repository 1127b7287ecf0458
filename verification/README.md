# stomper

A network intrusion detection system. The library in `src/` holds its logic, verified with
Verus; the program in `app/` wires it to libpcap, SQLite, an HTTP API and the console.

## Layout

- `src/capture/parser.rs` decodes Ethernet, IPv4, IPv6 (walking extension headers), TCP, UDP and
  ICMP headers straight from the bytes of a frame; each decoder's result is stated as a function
  of those bytes.
- `src/capture/mod.rs` holds the capture settings, the decode errors, and the decisions of the
  capture loop (count, forward, drop when the queue is full, stop).
- `src/detection/` holds the port-scan and SYN-flood detectors, each modelled as a map from what
  it tracks to what it has seen, with the proved properties of their windows and thresholds, and
  the sampling of evidence.
- `src/alert.rs` turns detections into alerts and renders them; `src/db.rs` rebuilds alerts from
  stored rows; `src/api.rs` and `src/stats.rs` keep the counters the dashboard shows;
  `src/console.rs` renders the per-packet console lines.
- `src/net.rs`, `src/text.rs` and `src/time.rs` provide addresses and their text forms, numerals,
  and times; `src/assoc.rs` relates association lists to maps.
- Calls into `chrono` and the standard library that the library cannot see into stand behind
  small wrappers whose contracts are trusted; they are marked `#[verifier::external_body]`.

## Checking

Verify with Verus on `src/lib.rs`; the tests in `tests/` run against the compiled library, and
`tests/pnet_agreement.rs` compares the header decoders with `pnet_packet`.
