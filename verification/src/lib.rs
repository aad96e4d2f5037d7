//! Verified core of the maplayer host daemon and its clients: line framing on
//! the wire, control-plane routing and authorization, the one-shot pairing
//! window, the endpoint allowlist, profile rules, external-session discovery,
//! rollout tailing, the per-session output backlog and the launcher's reading
//! of the daemon's stdout.
pub mod text;
pub mod wire;
pub mod proto;
pub mod rpc;
pub mod pairing;
pub mod config;
pub mod session;
pub mod discovery;
pub mod tail;
pub mod profiles;
pub mod launcher;
