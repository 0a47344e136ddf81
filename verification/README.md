# desyncd

A DPI-desynchronization toolkit: it rewrites the first bytes a client sends
(TLS ClientHello, HTTP request) so that middleboxes cannot read the server
name, while the server still sees the same handshake.

## Layout

- `src/` — the library, verified with Verus. Every public function carries a
  contract over spec models (`Seq<u8>` for byte buffers, maps for caches,
  state enums for the searches).
  - Parsers: `tls`, `http`, `quic`, `packet`, `raw_packet`, `dns`, `socks`,
    `http_proxy`, `http_head`, `numparse`, `timestamp`.
  - Techniques: `tcp_split`, `disorder`, `slow_split`, `ccs_inject`,
    `tls_record_frag`, `multi_stream_frag`, `padding`, `sni_manip`,
    `http_host`, `fake_packet`, `combo`, with `registry` and `technique`
    dispatching by name; `reassembly` proves that the split outputs
    rejoin to the input and still parse as the same ClientHello.
  - Decisions: `strategy` (per-domain rules, wildcard matching, learned
    blocks), `conn_tracker` and `nfq` (packet interception state),
    `relay` (per-connection state), `morphing` (DPI classification),
    `search` and `morph_search` (the
    strategy searches as state machines driven by probe results),
    `probe`, `config`, `firewall`, `dns_cache`, `records`.
- `app/` — the program: command line, configuration files, SQLite store,
  sockets, DNS-over-TLS, netfilter queue and the async drivers that run the
  library's state machines.
- `tests/` — executable tests of the library.
