//! Simple stand-ins for keys, data and networks.
pub mod bad;
pub mod constant;
pub mod dataio;
pub mod dummy;
pub mod hasher;
pub mod key_box;
pub mod keychain;
pub mod network;
pub mod router;
pub mod signable;
pub mod signature_set;
pub mod threshold;
pub mod verbose;
pub mod wrappers;
