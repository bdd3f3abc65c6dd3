//! Image-freshness detection for workloads of a cluster orchestrator: image
//! references, tag versions and their order, the registry's bearer-token
//! protocol, and the per-cycle reconciliation of tasks into gauge updates.
pub mod events;
pub mod freshness;
pub mod image;
pub mod nomad;
pub mod reconcile;
pub mod registry;
pub mod text;
pub mod version;
