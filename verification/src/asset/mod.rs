//! The files of an asset bundle.
pub mod document_laws;
pub mod format_laws;
pub mod model_laws;
pub mod ogg;
pub mod ogg_laws;
pub mod ttasset;
pub mod vorbis;
pub mod wlabank;
pub mod wlamodel;
