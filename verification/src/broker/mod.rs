//! Rules of the HTTP and WebSocket service.

pub mod laws;
pub mod ota_routes;
pub mod store_adapter;
pub mod ws;
