//! Voice-to-gateway listening logic.
pub mod audio;
pub mod capture;
pub mod config;
pub mod conversation_log;
pub mod encoding;
pub mod gateway;
pub mod handshake;
pub mod identity;
pub mod json;
pub mod level;
pub mod report;
pub mod responses;
pub mod sessions;
pub mod target;
pub mod text;
pub mod transcription;
pub mod utterance;
pub mod wake_sidecar;
