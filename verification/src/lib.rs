//! Gatherer: the verified core of an adaptive-music authoring hub.
//!
//! The library holds the project tree and its edits, the section sequencer,
//! the asset file formats and the rules of the hub's controls. Sound cards,
//! windows and files are the business of the application around it.
pub mod adaptive;
pub mod asset;
pub mod audio;
pub mod bytes;
pub mod export;
pub mod hub;
pub mod ids;
pub mod json;
pub mod listing;
pub mod measurement;
pub mod midi;
pub mod navigator;
pub mod number;
pub mod params;
pub mod playback;
pub mod record_laws;
pub mod recording;
pub mod seqs;
pub mod sequencer;
pub mod session;
pub mod session_laws;
pub mod take;
pub mod template;
pub mod text;
pub mod text_laws;
