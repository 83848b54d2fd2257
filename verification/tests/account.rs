use dao_os::account::{install, uninstall, upgrade, Account};
use dao_os::error::ManagerError;
use dao_os::factory::ModuleFactory;
use dao_os::registry::{DependencyDecl, Registry};
use dao_os::version::{Version, VersionReq};

fn v(major: u64, minor: u64, patch: u64) -> Version {
    Version { major, minor, patch }
}

fn s(t: &str) -> String {
    t.to_string()
}

fn dep(ns: &str, name: &str, req: VersionReq) -> DependencyDecl {
    DependencyDecl {
        namespace: s(ns),
        name: s(name),
        req,
    }
}

fn publish(
    reg: &mut Registry,
    ns: &str,
    name: &str,
    ver: Version,
    code: u64,
    deps: Vec<DependencyDecl>,
) {
    reg.register(&s("publisher"), s(ns), s(name), ver, code, deps, None)
        .unwrap();
}

fn setup() -> (Registry, ModuleFactory, Account) {
    (
        Registry::new(s("admin")),
        ModuleFactory::new(100, Vec::new()),
        Account::new(s("owner")),
    )
}

#[test]
fn install_single_module() {
    let (mut reg, mut fac, mut acc) = setup();
    publish(&mut reg, "dex", "swap", v(1, 0, 0), 10, vec![]);
    let addr = install(
        &mut acc,
        &reg,
        &mut fac,
        &s("owner"),
        &s("dex"),
        &s("swap"),
        &VersionReq::Latest,
    )
    .unwrap();
    assert_eq!(addr, 100);
    assert_eq!(acc.installed.len(), 1);
    assert_eq!(acc.installed[0].namespace, s("dex"));
    assert_eq!(acc.installed[0].name, s("swap"));
    assert_eq!(acc.installed[0].version, v(1, 0, 0));
    assert_eq!(acc.installed[0].address, 100);
}

#[test]
fn install_pulls_dependencies_leaves_first() {
    let (mut reg, mut fac, mut acc) = setup();
    publish(&mut reg, "base", "core", v(1, 0, 0), 1, vec![]);
    publish(
        &mut reg,
        "dex",
        "swap",
        v(1, 0, 0),
        2,
        vec![dep("base", "core", VersionReq::Compatible(v(1, 0, 0)))],
    );
    install(
        &mut acc,
        &reg,
        &mut fac,
        &s("owner"),
        &s("dex"),
        &s("swap"),
        &VersionReq::Latest,
    )
    .unwrap();
    assert_eq!(acc.installed.len(), 2);
    // The dependency was instantiated before its dependent.
    assert_eq!(acc.installed[0].name, s("core"));
    assert_eq!(acc.installed[1].name, s("swap"));
    assert!(acc.installed[0].address < acc.installed[1].address);
}

#[test]
fn install_respects_already_installed_dependency() {
    let (mut reg, mut fac, mut acc) = setup();
    publish(&mut reg, "base", "core", v(1, 0, 0), 1, vec![]);
    publish(
        &mut reg,
        "dex",
        "swap",
        v(1, 0, 0),
        2,
        vec![dep("base", "core", VersionReq::Latest)],
    );
    install(
        &mut acc,
        &reg,
        &mut fac,
        &s("owner"),
        &s("base"),
        &s("core"),
        &VersionReq::Latest,
    )
    .unwrap();
    install(
        &mut acc,
        &reg,
        &mut fac,
        &s("owner"),
        &s("dex"),
        &s("swap"),
        &VersionReq::Latest,
    )
    .unwrap();
    // The dependency is not installed a second time.
    assert_eq!(acc.installed.len(), 2);
}

#[test]
fn install_twice_is_rejected() {
    let (mut reg, mut fac, mut acc) = setup();
    publish(&mut reg, "dex", "swap", v(1, 0, 0), 10, vec![]);
    install(
        &mut acc,
        &reg,
        &mut fac,
        &s("owner"),
        &s("dex"),
        &s("swap"),
        &VersionReq::Latest,
    )
    .unwrap();
    let err = install(
        &mut acc,
        &reg,
        &mut fac,
        &s("owner"),
        &s("dex"),
        &s("swap"),
        &VersionReq::Latest,
    )
    .unwrap_err();
    assert!(matches!(err, ManagerError::AlreadyInstalled { .. }));
    assert_eq!(acc.installed.len(), 1);
}

#[test]
fn install_unknown_module_is_module_not_found() {
    let (reg, mut fac, mut acc) = setup();
    let err = install(
        &mut acc,
        &reg,
        &mut fac,
        &s("owner"),
        &s("dex"),
        &s("swap"),
        &VersionReq::Latest,
    )
    .unwrap_err();
    assert!(matches!(err, ManagerError::ModuleNotFound { .. }));
}

#[test]
fn install_unresolvable_dependency_fails() {
    let (mut reg, mut fac, mut acc) = setup();
    publish(
        &mut reg,
        "dex",
        "swap",
        v(1, 0, 0),
        2,
        vec![dep("base", "core", VersionReq::Exact(v(3, 0, 0)))],
    );
    publish(&mut reg, "base", "core", v(1, 0, 0), 1, vec![]);
    let err = install(
        &mut acc,
        &reg,
        &mut fac,
        &s("owner"),
        &s("dex"),
        &s("swap"),
        &VersionReq::Latest,
    )
    .unwrap_err();
    assert_eq!(
        err,
        ManagerError::DependencyUnsatisfiable {
            namespace: s("base"),
            name: s("core")
        }
    );
    assert!(acc.installed.is_empty());
}

#[test]
fn cyclic_dependency_is_rejected_and_nothing_lingers() {
    // X depends on Y and Y depends on X: installing X fails with
    // CyclicDependency and the installed table stays empty.
    let (mut reg, mut fac, mut acc) = setup();
    publish(
        &mut reg,
        "m",
        "x",
        v(1, 0, 0),
        1,
        vec![dep("m", "y", VersionReq::Latest)],
    );
    publish(
        &mut reg,
        "m",
        "y",
        v(1, 0, 0),
        2,
        vec![dep("m", "x", VersionReq::Latest)],
    );
    let err = install(
        &mut acc,
        &reg,
        &mut fac,
        &s("owner"),
        &s("m"),
        &s("x"),
        &VersionReq::Latest,
    )
    .unwrap_err();
    assert!(matches!(err, ManagerError::CyclicDependency { .. }));
    assert!(acc.installed.is_empty());
}

#[test]
fn failed_transitive_instantiation_leaves_table_unchanged() {
    // T -> D1 -> D2 -> D3, and D3's code fails to instantiate: the
    // whole install aborts with no partially-installed dependencies.
    let mut reg = Registry::new(s("admin"));
    publish(
        &mut reg,
        "m",
        "d3",
        v(1, 0, 0),
        33,
        vec![],
    );
    publish(
        &mut reg,
        "m",
        "d2",
        v(1, 0, 0),
        22,
        vec![dep("m", "d3", VersionReq::Latest)],
    );
    publish(
        &mut reg,
        "m",
        "d1",
        v(1, 0, 0),
        11,
        vec![dep("m", "d2", VersionReq::Latest)],
    );
    publish(
        &mut reg,
        "m",
        "t",
        v(1, 0, 0),
        44,
        vec![dep("m", "d1", VersionReq::Latest)],
    );
    let mut fac = ModuleFactory::new(500, vec![33]);
    let mut acc = Account::new(s("owner"));
    let err = install(
        &mut acc,
        &reg,
        &mut fac,
        &s("owner"),
        &s("m"),
        &s("t"),
        &VersionReq::Latest,
    )
    .unwrap_err();
    assert_eq!(err, ManagerError::InstantiationFailed { code_id: 33 });
    assert!(acc.installed.is_empty());
    assert_eq!(fac.next_address, 500);
}

#[test]
fn pending_owner_cannot_install_until_accepting() {
    let (mut reg, mut fac, mut acc) = setup();
    publish(&mut reg, "dex", "swap", v(1, 0, 0), 10, vec![]);
    acc.transfer_ownership(&s("owner"), s("heir"), Some(100))
        .unwrap();
    // Proposing does not transfer: the new owner is not yet the owner.
    let err = install(
        &mut acc,
        &reg,
        &mut fac,
        &s("heir"),
        &s("dex"),
        &s("swap"),
        &VersionReq::Latest,
    )
    .unwrap_err();
    assert_eq!(err, ManagerError::Unauthorized);
    // Accepting before expiry makes the same call succeed.
    acc.accept_ownership(&s("heir"), 50).unwrap();
    install(
        &mut acc,
        &reg,
        &mut fac,
        &s("heir"),
        &s("dex"),
        &s("swap"),
        &VersionReq::Latest,
    )
    .unwrap();
}

#[test]
fn acceptance_after_expiry_fails() {
    let (_, _, mut acc) = setup();
    acc.transfer_ownership(&s("owner"), s("heir"), Some(100))
        .unwrap();
    let err = acc.accept_ownership(&s("heir"), 100).unwrap_err();
    assert_eq!(err, ManagerError::TransferExpired);
    // The original owner still owns the account.
    assert_eq!(acc.ownership.owner, s("owner"));
}

#[test]
fn uninstall_guard_names_the_dependent() {
    // B depends on A: uninstalling A fails and names B.
    let (mut reg, mut fac, mut acc) = setup();
    publish(&mut reg, "m", "a", v(1, 0, 0), 1, vec![]);
    publish(
        &mut reg,
        "m",
        "b",
        v(1, 0, 0),
        2,
        vec![dep("m", "a", VersionReq::Latest)],
    );
    install(
        &mut acc,
        &reg,
        &mut fac,
        &s("owner"),
        &s("m"),
        &s("b"),
        &VersionReq::Latest,
    )
    .unwrap();
    let err = uninstall(&mut acc, &s("owner"), &s("m"), &s("a")).unwrap_err();
    assert_eq!(
        err,
        ManagerError::DependentModulesPresent {
            dependents: vec![s("m:b")]
        }
    );
    assert_eq!(acc.installed.len(), 2);
    // Removing the dependent first unblocks the dependency.
    uninstall(&mut acc, &s("owner"), &s("m"), &s("b")).unwrap();
    uninstall(&mut acc, &s("owner"), &s("m"), &s("a")).unwrap();
    assert!(acc.installed.is_empty());
}

#[test]
fn upgrade_replaces_in_place_and_pulls_new_dependencies() {
    let (mut reg, mut fac, mut acc) = setup();
    publish(&mut reg, "m", "a", v(1, 0, 0), 1, vec![]);
    publish(&mut reg, "base", "core", v(1, 0, 0), 5, vec![]);
    publish(
        &mut reg,
        "m",
        "a",
        v(2, 0, 0),
        9,
        vec![dep("base", "core", VersionReq::Latest)],
    );
    install(
        &mut acc,
        &reg,
        &mut fac,
        &s("owner"),
        &s("m"),
        &s("a"),
        &VersionReq::Exact(v(1, 0, 0)),
    )
    .unwrap();
    let old_addr = acc.installed[0].address;
    let addr = upgrade(
        &mut acc,
        &reg,
        &mut fac,
        &s("owner"),
        &s("m"),
        &s("a"),
        &VersionReq::Latest,
    )
    .unwrap();
    // Migration keeps the address; the new dependency is installed.
    assert_eq!(addr, old_addr);
    assert_eq!(acc.installed.len(), 2);
    assert_eq!(acc.installed[0].version, v(2, 0, 0));
    assert_eq!(acc.installed[0].code_id, 9);
    assert_eq!(acc.installed[0].address, old_addr);
    assert_eq!(acc.installed[1].name, s("core"));
}

#[test]
fn upgrade_leaves_dropped_dependencies_orphaned() {
    // The old version depends on core; the new one does not.  The
    // orphaned dependency stays installed, it is not auto-removed.
    let (mut reg, mut fac, mut acc) = setup();
    publish(&mut reg, "base", "core", v(1, 0, 0), 5, vec![]);
    publish(
        &mut reg,
        "m",
        "a",
        v(1, 0, 0),
        1,
        vec![dep("base", "core", VersionReq::Latest)],
    );
    publish(&mut reg, "m", "a", v(2, 0, 0), 9, vec![]);
    install(
        &mut acc,
        &reg,
        &mut fac,
        &s("owner"),
        &s("m"),
        &s("a"),
        &VersionReq::Exact(v(1, 0, 0)),
    )
    .unwrap();
    assert_eq!(acc.installed.len(), 2);
    upgrade(
        &mut acc,
        &reg,
        &mut fac,
        &s("owner"),
        &s("m"),
        &s("a"),
        &VersionReq::Latest,
    )
    .unwrap();
    assert_eq!(acc.installed.len(), 2);
    assert!(acc.installed.iter().any(|m| m.name == s("core")));
}

#[test]
fn failed_migration_keeps_prior_code_active() {
    let mut reg = Registry::new(s("admin"));
    publish(&mut reg, "m", "a", v(1, 0, 0), 1, vec![]);
    publish(&mut reg, "m", "a", v(2, 0, 0), 66, vec![]);
    let mut fac = ModuleFactory::new(100, vec![66]);
    let mut acc = Account::new(s("owner"));
    install(
        &mut acc,
        &reg,
        &mut fac,
        &s("owner"),
        &s("m"),
        &s("a"),
        &VersionReq::Exact(v(1, 0, 0)),
    )
    .unwrap();
    let err = upgrade(
        &mut acc,
        &reg,
        &mut fac,
        &s("owner"),
        &s("m"),
        &s("a"),
        &VersionReq::Latest,
    )
    .unwrap_err();
    assert_eq!(err, ManagerError::MigrationFailed { code_id: 66 });
    assert_eq!(acc.installed[0].version, v(1, 0, 0));
    assert_eq!(acc.installed[0].code_id, 1);
}

#[test]
fn upgrade_blocked_by_pinned_dependent() {
    // B pins A at exactly 1.0.0: upgrading A to 2.0.0 must fail.
    let (mut reg, mut fac, mut acc) = setup();
    publish(&mut reg, "m", "a", v(1, 0, 0), 1, vec![]);
    publish(
        &mut reg,
        "m",
        "b",
        v(1, 0, 0),
        2,
        vec![dep("m", "a", VersionReq::Exact(v(1, 0, 0)))],
    );
    publish(&mut reg, "m", "a", v(2, 0, 0), 3, vec![]);
    install(
        &mut acc,
        &reg,
        &mut fac,
        &s("owner"),
        &s("m"),
        &s("b"),
        &VersionReq::Latest,
    )
    .unwrap();
    let err = upgrade(
        &mut acc,
        &reg,
        &mut fac,
        &s("owner"),
        &s("m"),
        &s("a"),
        &VersionReq::Latest,
    )
    .unwrap_err();
    assert_eq!(
        err,
        ManagerError::DependentModulesPresent {
            dependents: vec![s("m:b")]
        }
    );
    let a = acc
        .installed
        .iter()
        .find(|m| m.name == s("a"))
        .unwrap();
    assert_eq!(a.version, v(1, 0, 0));
}

#[test]
fn accept_without_pending_transfer_fails() {
    let (_, _, mut acc) = setup();
    let err = acc.accept_ownership(&s("anyone"), 0).unwrap_err();
    assert_eq!(err, ManagerError::NoPendingTransfer);
}

#[test]
fn uninstall_needs_owner_and_presence() {
    let (mut reg, mut fac, mut acc) = setup();
    publish(&mut reg, "dex", "swap", v(1, 0, 0), 10, vec![]);
    install(
        &mut acc,
        &reg,
        &mut fac,
        &s("owner"),
        &s("dex"),
        &s("swap"),
        &VersionReq::Latest,
    )
    .unwrap();
    let err = uninstall(&mut acc, &s("mallory"), &s("dex"), &s("swap")).unwrap_err();
    assert_eq!(err, ManagerError::Unauthorized);
    let err = uninstall(&mut acc, &s("owner"), &s("dex"), &s("absent")).unwrap_err();
    assert!(matches!(err, ManagerError::ModuleNotFound { .. }));
    assert_eq!(acc.installed.len(), 1);
}

#[test]
fn suspended_account_rejects_mutations() {
    let (mut reg, mut fac, mut acc) = setup();
    publish(&mut reg, "dex", "swap", v(1, 0, 0), 10, vec![]);
    acc.suspended = true;
    let err = install(
        &mut acc,
        &reg,
        &mut fac,
        &s("owner"),
        &s("dex"),
        &s("swap"),
        &VersionReq::Latest,
    )
    .unwrap_err();
    assert_eq!(err, ManagerError::Unauthorized);
}

#[test]
fn list_installed_reports_address_and_version() {
    let (mut reg, mut fac, mut acc) = setup();
    publish(&mut reg, "dex", "swap", v(1, 2, 3), 10, vec![]);
    install(
        &mut acc,
        &reg,
        &mut fac,
        &s("owner"),
        &s("dex"),
        &s("swap"),
        &VersionReq::Latest,
    )
    .unwrap();
    let listing = acc.list_installed();
    assert_eq!(listing.len(), 1);
    assert_eq!(listing[0].namespace, s("dex"));
    assert_eq!(listing[0].name, s("swap"));
    assert_eq!(listing[0].version, v(1, 2, 3));
    assert_eq!(listing[0].address, 100);
}
