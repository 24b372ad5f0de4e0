//! Integrations with the hosts that serve a router.

pub mod tauri;
