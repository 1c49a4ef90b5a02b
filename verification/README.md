# jls_forward

A JLS server hides behind an ordinary QUIC server. Whoever fails to
authenticate is forwarded there, and sees that server and nothing else.

This crate holds the decisions of the forwarding, verified with Verus:

| module     | subject                                                       |
|------------|---------------------------------------------------------------|
| `forward`  | the peers that are forwarded, and what becomes of a datagram  |
| `limiter`  | the byte budget of a peer, renewed once per cycle             |
| `transmit` | datagrams on their way out, cut out of a shared buffer        |
| `upstream` | from what an upstream's name resolved to, to a bound socket   |
| `table`    | a map keyed by socket address                                 |
| `addr`, `ecn`, `time`, `buffer` | the plain values that the rest works on  |
| `probe`    | what an echo server answers, and how a client tells who did   |
| `laws`     | what holds of the forwarding as a whole                       |

Sockets are a type parameter: the library moves them around and never touches
them. `app/` binds the sockets, runs the tasks and reads the network.

Time is counted in nanoseconds of a `Clock`, which wraps the monotonic clock of
the standard library.
