//! A multi-tenant JSON-RPC tool router: wire codec, token-bucket rate
//! limiting, tenant sessions with request counters, a permission-gated
//! handler registry, and a sub-server supervisor state machine.
pub mod handlers;
pub mod json;
pub mod mcp;
pub mod rate_limiting;
pub mod registry;
pub mod tenant;
