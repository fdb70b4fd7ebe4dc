//! Transports.

pub mod bridge;
pub mod laws;
pub mod lite;
pub mod lite_ota;
pub mod ota_laws;
pub mod wire;
