//! Keeps a saved talent-loadout table in step with builds published on a
//! build-aggregation site: a catalogue of classes and specializations, a naming
//! scheme for generated entries, a reader and writer for the saved table, and
//! the reconciliation policy that decides which entries are replaced.

pub mod text;
pub mod keyed;
pub mod wow;
pub mod archon;
pub mod config;
pub mod lua_talent;
pub mod lua_text;
pub mod lua_tree;
pub mod lua_decode;
pub mod round_trip;
pub mod orchestrator;
pub mod warcraft_logs;
pub mod wow_scanner;
