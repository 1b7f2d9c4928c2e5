//! Hot-corner monitoring: the configuration grammar, the corner table, and the
//! dwell/cooldown state machine that decides when a corner command fires.

pub mod config;
pub mod config_proofs;
pub mod corner;
pub mod detector;
pub mod detector_proofs;
pub mod text;
