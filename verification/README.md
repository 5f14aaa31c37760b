# dnsmonitor

Monitors the resolution of DNS names: each name is looked up periodically,
and per name the number of failed lookups and the minimum, maximum and
average lookup time (in microseconds) are kept. `GET /metrics HTTP/1.1` on
port 8080 returns them as Prometheus gauges and resets them.

Usage: `dnsmonitor [-d] [-s <wait ms>] [-w <warning ms>] <name>...`

Layout:

- `src/` the verified library: the statistics (`metrics`), the registry of
  names (`registry`), recording a lookup (`lookup`), the metrics page and the
  HTTP answers (`exposition`), decimal printing (`decimal`) and the command
  line flags (`flags`).
- `app/` the program: resolving names, timing, threads, the TCP listener,
  Ctrl-C handling and the floating-point average and sleep computation.
- `tests/` tests of the library.
