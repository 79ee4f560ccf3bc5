# socks5_proxy

A SOCKS5 front end and the relay server it forwards to.

- `src/socks5.rs`: the connect request of a client (`Socks5::new`), the frame
  sent to the relay server (`encrypt`) and its reading there (`decrypt`).
- `src/session.rs`: one connection as a state machine: the handshake, the
  connect or dial, then the relay of bytes in both directions.
- `src/scheduler.rs`: the pairs of streams, and the token helpers of the
  `mio` event loop.
- `app/`: the servers themselves (sockets, threads, the tokio runtime), which
  feed each read to a session and carry out what it answers.

Run with `proxy`, `server`, `proxy_tokio` or `server_tokio` as argument.
