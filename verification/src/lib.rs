//! Module registry and account module-management core.
//!
//! Independent deployable units ("modules") are published to a shared
//! registry under a namespace, a name and a semantic version.  Per-user
//! accounts install, upgrade and uninstall module instances subject to
//! dependency constraints and two-phase ownership transfer.  The host
//! platform's storage and cross-program calls are modelled as plain
//! in-memory state, so the registry rules, the dependency resolution and
//! the account state machine are all verified.

pub mod account;
pub mod adapter;
pub mod error;
pub mod factory;
pub mod msg;
pub mod ownership;
pub mod registry;
pub mod version;
