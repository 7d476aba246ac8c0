//! Core of a join-sound service: users attach a short audio clip to their
//! account, either globally or scoped to one community, and the clip is played
//! into a voice session the moment they enter it.
//!
//! The crate holds the verified pipeline: ingestion and validation of a media
//! attachment, a storage model with a filesystem and an object-store strategy,
//! the registry that resolves which sound plays for a user in a community
//! (community-scoped entries win over the global one), the anti-spam cooldown,
//! and the per-community playback state machine. All input/output — the actual
//! filesystem, the transcoder subprocess, the voice library — lives outside
//! and is driven by the decisions made here.

pub mod backend;
pub mod clock;
pub mod cooldown;
pub mod errors;
pub mod ingest;
pub mod models;
pub mod numbers;
pub mod orchestrator;
pub mod paths;
pub mod registry;
pub mod render;
pub mod store;
pub mod youtube;
