# mdns-reflector

Repeats multicast DNS packets between the networks that a host is on, so that
services announced on one of them are found on the others.

`src/` is the library: every decision of the reflector, verified with Verus. It
performs no I/O. Where the reflector alternates system calls and decisions, a
function of the library takes what the last call came to and returns what is to be
done next.

The proofs rest on two wrappers whose contracts are believed: `filter::parse_filter`
around `EnvFilter::builder().parse` of tracing-subscriber, and `sockets::ifnamsiz`
around the constant `IFNAMSIZ` of libc.

* `reflector`: which packet is repeated on which interface.
* `sockets`, `unix`: how sockets are set up, and what is asked about an interface.
* `pidfile`, `daemon`, `tasks`: one instance at a time, from launch to goodbye.
* `filter`, `header`: what is logged, and the line printed at the start.
* `addr`, `utils`: addresses and conversions.

`app/` is the program around it: command line, sockets, signals, the log.
`tests/` runs the library.
