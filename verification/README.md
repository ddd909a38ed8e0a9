# hako

A box of small command-line utilities (`hello`, `dig`, `fetch`, `ping`,
`traceroute`, `httpserver`, `tar`, `tlscheck`, `calc`, checksums, ...) whose
logic is verified with Verus.

- `src/` is the library. Each utility is a module with a `run` function that
  takes the system services it needs (file system, DNS, clock, network, ...)
  as trait parameters and writes its output into a `String`. The parsers and
  encoders behind them (DNS messages, HTTP requests and responses, URLs, the
  calculator's grammar, ICMP packets, certificate dates, tar paths) are
  verified against specifications written as spec functions; `law_*` proof
  functions state the properties that hold across inputs.
- `app/` is the program: it dispatches on the command name, implements the
  services over the operating system (sockets, TLS through rustls, the file
  system), and evaluates the calculator's floating-point arithmetic.
- `tests/` exercises the library with fake services.
