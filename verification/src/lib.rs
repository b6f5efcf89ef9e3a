//! Verified decoding of wireless M-Bus / OMS meter telegrams.
pub mod text;
pub mod traits;
pub mod mbus;
pub mod crypto;
pub mod security;
pub mod drivers;
pub mod registry;
pub mod encoding;
pub mod service;
pub mod legacy;
pub mod dto;
pub mod laws;
