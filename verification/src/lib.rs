//! Verified core of a line-following robot simulator: race bookkeeping,
//! editor histories, validation of track definitions, robot assemblies and
//! sensor timing, the vocabulary of track rules and models, replay framing,
//! deterministic noise and the text conventions of the simulator's files.
pub mod assembly;
pub mod components;
pub mod definition;
pub mod fidelity;
pub mod files;
pub mod history;
pub mod models;
pub mod power;
pub mod race;
pub mod replay;
pub mod rng;
pub mod run_loop;
pub mod sensing;
pub mod sim;
pub mod stepping;
pub mod text;
pub mod track_rules;
