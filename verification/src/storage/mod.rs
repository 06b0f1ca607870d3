//! Durable storage: what is stored, patches to it, and their binary form.
pub mod snapshot;
pub mod delta;
pub mod laws;
pub mod bytes;
pub mod patch_codec;
pub mod patch_decode;
pub mod codec_laws;
pub mod extension_laws;
pub mod frames;
pub mod replay_laws;
pub mod projection;
pub mod projection_laws;
pub mod durability;
pub mod restore_laws;
pub mod offline_state;
pub mod legacy;
pub mod tables;
pub mod table_laws;
pub mod record_laws;
pub mod log;
pub mod manifest;
pub mod manifest_laws;
pub mod recovery;
pub mod start_laws;
