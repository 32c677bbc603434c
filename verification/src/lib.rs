//! Speaker recognition, transcript export and transcription scheduling for meeting recordings.

pub mod audio;
pub mod bytes;
pub mod double;
pub mod engine;
pub mod events;
pub mod export;
pub mod identification;
pub mod labels;
pub mod models;
pub mod order;
pub mod outside;
pub mod paths;
pub mod prefixes;
pub mod propagation;
pub mod recording;
pub mod speaker;
pub mod speaker_sidecar;
pub mod speaker_turn;
pub mod speakers;
pub mod status;
pub mod stream;
pub mod text;
pub mod worker;
