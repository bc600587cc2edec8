//! Privileged disk-partitioning core of a guided OS installer: device
//! enumeration, partition planning, the per-disk execution sequence, and
//! mount ordering, together with the installer's configuration model and
//! message formatting helpers.

pub mod config;
pub mod disk;
pub mod enumerate;
pub mod files;
pub mod i18n;
pub mod install;
pub mod layout;
pub mod model;
pub mod mount;
pub mod order;
pub mod plan;
pub mod privilege;
pub mod schema;
