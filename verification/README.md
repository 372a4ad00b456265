# netlink_exporter

A Prometheus exporter for Linux network state: nftables, routing, xfrm, IPVS,
ethtool, WireGuard, and the network files below `/proc` and `/sys`.

## Layout

- `src/` is the library, verified with Verus: netlink attribute parsing, the
  parsers of each subsystem, the samples they give, the text exposition, the
  configuration rules, and the decisions of the scrape loop and the HTTP server.
- `tests/` runs the library on concrete frames and files.
- `app/` is the program around it: sockets, files, timers, command line,
  configuration loading and logging.

## Conventions

- Parsers take bytes or text and return plain values; what they return is stated
  by a spec function of the input.
- Properties that span functions are public proof functions whose names start
  with `law_`.
- Attribute headers and native integers are in the byte order of the host;
  attributes that the kernel sends in network byte order are big-endian.
- Gauge readings are exact numbers. Whole numbers and thousandths are written by
  the library; readings that need rounding, and readings given as binary64 bit
  patterns, are turned into text by `app/`.
- The collectors for conntrack, expectations, devlink, drop monitoring, socket
  diagnostics, traffic control and the extended routing surface have a name and a
  startup probe only; collecting from them fails.
