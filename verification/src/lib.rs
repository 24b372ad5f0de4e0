//! A verified core for building and serving an RPC router: procedure names,
//! procedure stores, the router builder and the desktop-window plugin state.

pub mod datatype;
pub mod integrations;
pub mod naming;
pub mod procedure_store;
pub mod router_builder;
