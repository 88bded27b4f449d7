//! Agent-harness support: template rendering, version compatibility of
//! generated hooks, and health findings.

pub mod compat;
pub mod doctor;
pub mod templates;
