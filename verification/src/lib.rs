//! Verified core logic of the Ymir planet generator: pipeline stage
//! bookkeeping, deterministic seed derivation, catalog text parsing and
//! exoplanet indexing, atmosphere recipes, biome palettes and the water
//! overlay, regional hex-grid topology, provenance tallies and the viewer's
//! plain state types.

pub mod stage;
pub mod prng;
pub mod text;
pub mod exoplanet;
pub mod archive;
pub mod names;
pub mod spectral;
pub mod atmosphere;
pub mod composition;
pub mod biome;
pub mod water;
pub mod whittaker;
pub mod region;
pub mod hex;
pub mod flow;
pub mod detail;
pub mod provenance;
pub mod overrides;
pub mod gui;
pub mod planets;
pub mod exoplanets;
pub mod gaia;
