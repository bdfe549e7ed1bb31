//! Verified core of the Ghost end-to-end encrypted chat client: wire formats,
//! membership bindings, presence blobs, identifiers and key derivation.

pub mod account_recovery;
pub mod aead;
pub mod audio_control;
pub mod avatar;
pub mod capture;
pub mod codec;
pub mod constants;
pub mod credential;
pub mod device_store;
pub mod identity;
pub mod group_policy;
pub mod idlog;
pub mod ids;
pub mod jitter;
pub mod keys;
pub mod links;
pub mod mailbox_events;
pub mod mailbox_link;
pub mod dto;
pub mod epoch_recovery;
pub mod error;
pub mod kinds;
pub mod membership;
pub mod metadata;
pub mod pairing;
pub mod payload;
pub mod presence;
pub mod records;
pub mod relay;
pub mod relay_paths;
pub mod rosters;
pub mod recovery;
pub mod session;
pub mod signature;
pub mod server_export;
pub mod sync;
pub mod sync_entries;
pub mod text;
pub mod voice;
pub mod voice_session;
pub mod wire;
