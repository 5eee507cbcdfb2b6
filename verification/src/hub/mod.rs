//! The hub: its sections, their transitions, and what its controls do.
pub mod assembly;
pub mod bundle;
pub mod bundle_laws;
pub mod control_laws;
pub mod labels;
pub mod mixer;
pub mod state;
pub mod takes;
