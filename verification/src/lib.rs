//! Core logic of a two-node proxy chain: a client-facing forward proxy and a
//! backend-facing reverse proxy that build an end-to-end encrypted virtual
//! connection.  This crate holds the verified data model and decision logic:
//! the wire codec for the JSON message shapes, the per-request context, the
//! route table, JWT claim handling, session tables, and the per-phase request
//! handlers of both nodes.  Network and process plumbing live outside.

pub mod ctx;
pub mod fp;
pub mod headers;
pub mod json;
pub mod jwt;
pub mod keys;
pub mod maps;
pub mod router;
pub mod rp;
pub mod rp_legacy;
pub mod stats;
pub mod tls;
pub mod trusted;
pub mod util;
pub mod wire;
