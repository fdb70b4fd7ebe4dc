//! Mesh membership, enrollment, lightweight transport and synchronisation
//! rules of a peer-to-peer mesh, with contracts proved by Verus.
#![allow(unused_imports)]

pub mod base64_text;
pub mod broker;
pub mod bytes;
pub mod clock;
pub mod doubles;
pub mod json;
pub mod node;
pub mod security;
pub mod storage;
pub mod sync;
pub mod text;
pub mod text_laws;
pub mod transport;
pub mod vec_map;
