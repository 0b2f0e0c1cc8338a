//! Reconstruction and analysis of a community registry's history.
//!
//! The library ingests ordered snapshots of a software registry (plugin and
//! theme listings tied to commits) together with pointwise download
//! statistics, rebuilds each entry's lifecycle (addition, field changes,
//! removal, re-addition, version releases, download series), and answers
//! analytical queries over the reconstructed timelines: weekly and monthly
//! rollups, rankings, and milestone threshold crossings.
#![verifier::loop_isolation(false)]

pub mod bundlers;
pub mod commit;
pub mod common;
pub mod data_array;
pub mod date;
pub mod digits;
pub mod input_data;
pub mod license;
pub mod milestones;
pub mod packages;
pub mod plugin;
pub mod release;
pub mod stats;
pub mod testing;
pub mod theme;
pub mod version;
pub mod warnings;
