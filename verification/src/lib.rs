//! A verified WebSocket chat core. `frame` encodes and decodes wire frames,
//! `handshake` negotiates the HTTP upgrade, `session` runs one connection's
//! state machine and heartbeat policy, and `hub` is the single authority
//! over identities, display names and broadcast fan-out. Sockets, threads
//! and serialization live with the callers; every function here carries a
//! contract, checked by Verus.
pub mod frame;
pub mod handshake;
pub mod hub;
pub mod session;
