//! Error taxonomy: authorization, lookup, integrity and propagated
//! execution failures.  Every failure aborts the whole enclosing call and
//! carries the offending identity, so callers can act without inspecting
//! internal state.

use vstd::prelude::*;
use crate::version::Version;

verus! {

/// Failures of the version control service (registry mutation and lookup).
#[derive(Clone, Debug, PartialEq)]
pub enum RegistryError {
    /// The caller is not the registry owner.
    Unauthorized,
    /// The caller does not own the namespace it is publishing under.
    NamespaceNotOwned { namespace: String },
    /// The (namespace, name, version) triple is already registered.
    DuplicateVersion { namespace: String, name: String, version: Version },
    /// The version string does not parse as `major.minor.patch`.
    InvalidVersionFormat { given: String },
    /// The module string does not parse as `namespace:name`.
    InvalidModuleFormat { given: String },
    /// No registry entry matches the lookup.
    NotFound { namespace: String, name: String },
}

/// Failures of the account manager (install, upgrade, uninstall,
/// ownership transfer).
#[derive(Clone, Debug, PartialEq)]
pub enum ManagerError {
    /// The caller is not the account owner, or the account is suspended.
    Unauthorized,
    /// The registry or the installed table has no matching module.
    ModuleNotFound { namespace: String, name: String },
    /// A declared dependency resolves to no published version.
    DependencyUnsatisfiable { namespace: String, name: String },
    /// The dependency closure revisited a module already in progress.
    CyclicDependency { namespace: String, name: String },
    /// The same namespace+name is already installed; upgrade instead.
    AlreadyInstalled { namespace: String, name: String },
    /// The platform failed to instantiate the module's code.
    InstantiationFailed { code_id: u64 },
    /// The existing instance rejected the migration to the new code.
    MigrationFailed { code_id: u64 },
    /// Installed modules still depend on the module; listed as
    /// `namespace:name` strings.
    DependentModulesPresent { dependents: Vec<String> },
    /// No ownership transfer is pending on the account.
    NoPendingTransfer,
    /// The pending ownership transfer's expiry has passed.
    TransferExpired,
}

} // verus!
