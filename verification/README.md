# netutils

A network diagnostics toolkit: network interfaces, routes, egress and proxy
detection, ping, DNS queries, traceroute, port scanning, connectivity checks
and full-link diagnosis (DNS → Ping → TCP → HTTPS → Traceroute).

The library under `src/` holds the toolkit's logic, verified with Verus:

- `icmp` — Echo Request construction, the Internet checksum and the matching
  of replies (Echo Reply, Time Exceeded) to our probes, with proofs that a
  checksum written into any zeroed 16-bit word makes a message verify, that
  every request we build passes checksum verification, and that the answers
  to it are recognised.
- `text` — character-level parsing: lines, splitting, trimming, decimal numbers.
- `table` — tables aligned by display width (character widths come from
  unicode-width, which makes printable ASCII one column wide and the CJK
  Unified Ideographs U+4E00–U+9FFF two), with proofs that every cell fills its column and
  that, when every row has a cell for each column, every line `render_table`
  returns has the same display width.
- `info` — interface, route and proxy listings read from the system queries'
  output, interface classification, egress lookup; reading a listing line gives
  back the fields it was written with.
- `traceroute` — probe identifiers, how far a trace goes (the next hop or
  stop) and the row shown for each hop.
- `diagnose` — each step of the link diagnosis (its verdict and message),
  the conclusion, the chain summary, and reading the resolved address back
  from the DNS step.
- `report`, `connectivity`, `portscan`, `dns`, `output`, `i18n` — the
  decisions and texts of the individual commands, and the choice of the
  display language.

`app/` is the command-line program: argument parsing, system queries (the
Windows registry among them), sockets, HTTP and DNS clients, floating-point
timings, and printing. `tests/` exercises the library.
