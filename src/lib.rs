//! A package manager core: the recipe format, the two-layer archive rules,
//! architecture gating, index trust policy, publishing, build-system
//! detection and the isolated build plan.

pub mod arch;
pub mod archive;
pub mod buildsys;
pub mod config;
pub mod index;
pub mod ini;
pub mod isolation;
pub mod pipeline;
pub mod publish;
pub mod recipe;
pub mod repo;
pub mod sandbox;
pub mod store;
pub mod text;
pub mod trust;
