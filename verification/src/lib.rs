//! Presence synchronization engine for a shared canvas of "dots".
//!
//! Authenticated participants each control one dot; every position or
//! color change is fanned out to all live connections, with cleanup on
//! disconnect. The engine itself is synchronous and in-memory: transport
//! and storage sit outside it and hand it plain values.

pub mod assoc;
pub mod checkout;
pub mod color;
pub mod lifecycle;
pub mod membership;
pub mod model;
pub mod presence;
pub mod registry;
pub mod signature;
pub mod store;
pub mod text;
