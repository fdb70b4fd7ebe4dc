//! Keys, certificates, enrollment and the genesis of a mesh.

pub mod bundle;
pub mod certificate;
pub mod crypto;
pub mod enrollment;
pub mod error;
pub mod genesis;
pub mod keypair;
pub mod laws;
pub mod permissions;
pub mod tier_order;
