use dao_os::error::RegistryError;
use dao_os::msg::{execute, parse_module_id, query, ExecuteMsg, QueryAnswer, QueryMsg};
use dao_os::account::Account;
use dao_os::registry::{DependencyDecl, Registry};
use dao_os::version::{Version, VersionReq};

fn v(major: u64, minor: u64, patch: u64) -> Version {
    Version { major, minor, patch }
}

fn s(t: &str) -> String {
    t.to_string()
}

fn publish(reg: &mut Registry, owner: &str, ns: &str, name: &str, ver: Version, code: u64) {
    reg.register(&s(owner), s(ns), s(name), ver, code, Vec::new(), None)
        .unwrap();
}

#[test]
fn register_and_resolve_exact() {
    let mut reg = Registry::new(s("admin"));
    publish(&mut reg, "alice", "dex", "swap", v(1, 0, 0), 7);
    let (ver, code) = reg
        .resolve(&s("dex"), &s("swap"), &VersionReq::Exact(v(1, 0, 0)))
        .unwrap();
    assert_eq!(ver, v(1, 0, 0));
    assert_eq!(code, 7);
}

#[test]
fn resolve_latest_is_highest_whatever_the_insertion_order() {
    // Registering 1.0.0, 1.2.0, 1.1.0 in that order: "latest" is 1.2.0.
    let mut reg = Registry::new(s("admin"));
    publish(&mut reg, "alice", "dex", "swap", v(1, 0, 0), 1);
    publish(&mut reg, "alice", "dex", "swap", v(1, 2, 0), 2);
    publish(&mut reg, "alice", "dex", "swap", v(1, 1, 0), 3);
    let (ver, code) = reg
        .resolve(&s("dex"), &s("swap"), &VersionReq::Latest)
        .unwrap();
    assert_eq!(ver, v(1, 2, 0));
    assert_eq!(code, 2);
}

#[test]
fn resolve_is_idempotent_against_unchanged_registry() {
    let mut reg = Registry::new(s("admin"));
    publish(&mut reg, "alice", "dex", "swap", v(1, 0, 0), 1);
    publish(&mut reg, "alice", "dex", "swap", v(1, 2, 0), 2);
    let first = reg.resolve(&s("dex"), &s("swap"), &VersionReq::Latest).unwrap();
    let second = reg.resolve(&s("dex"), &s("swap"), &VersionReq::Latest).unwrap();
    assert_eq!(first, second);
}

#[test]
fn resolve_compatible_range() {
    let mut reg = Registry::new(s("admin"));
    publish(&mut reg, "alice", "dex", "swap", v(1, 0, 0), 1);
    publish(&mut reg, "alice", "dex", "swap", v(1, 5, 0), 2);
    publish(&mut reg, "alice", "dex", "swap", v(2, 0, 0), 3);
    let (ver, _) = reg
        .resolve(&s("dex"), &s("swap"), &VersionReq::Compatible(v(1, 1, 0)))
        .unwrap();
    assert_eq!(ver, v(1, 5, 0));
    // Nothing in the 3.x line.
    let err = reg
        .resolve(&s("dex"), &s("swap"), &VersionReq::Compatible(v(3, 0, 0)))
        .unwrap_err();
    assert!(matches!(err, RegistryError::NotFound { .. }));
}

#[test]
fn duplicate_version_is_rejected() {
    let mut reg = Registry::new(s("admin"));
    publish(&mut reg, "alice", "dex", "swap", v(1, 0, 0), 1);
    let err = reg
        .register(&s("alice"), s("dex"), s("swap"), v(1, 0, 0), 9, Vec::new(), None)
        .unwrap_err();
    assert_eq!(
        err,
        RegistryError::DuplicateVersion {
            namespace: s("dex"),
            name: s("swap"),
            version: v(1, 0, 0)
        }
    );
}

#[test]
fn namespace_is_claimed_and_defended() {
    let mut reg = Registry::new(s("admin"));
    publish(&mut reg, "alice", "dex", "swap", v(1, 0, 0), 1);
    assert_eq!(reg.namespace_owner(&s("dex")), Some(&s("alice")));
    let err = reg
        .register(&s("bob"), s("dex"), s("pool"), v(1, 0, 0), 2, Vec::new(), None)
        .unwrap_err();
    assert_eq!(err, RegistryError::NamespaceNotOwned { namespace: s("dex") });
}

#[test]
fn deregister_requires_owner_and_presence() {
    let mut reg = Registry::new(s("admin"));
    publish(&mut reg, "alice", "dex", "swap", v(1, 0, 0), 1);
    let err = reg
        .deregister(&s("bob"), s("dex"), s("swap"), v(1, 0, 0))
        .unwrap_err();
    assert_eq!(err, RegistryError::NamespaceNotOwned { namespace: s("dex") });
    let err = reg
        .deregister(&s("alice"), s("dex"), s("swap"), v(9, 9, 9))
        .unwrap_err();
    assert!(matches!(err, RegistryError::NotFound { .. }));
    reg.deregister(&s("alice"), s("dex"), s("swap"), v(1, 0, 0))
        .unwrap();
    let err = reg
        .resolve(&s("dex"), &s("swap"), &VersionReq::Latest)
        .unwrap_err();
    assert!(matches!(err, RegistryError::NotFound { .. }));
}

#[test]
fn list_versions_is_ascending_newest_last() {
    let mut reg = Registry::new(s("admin"));
    publish(&mut reg, "alice", "dex", "swap", v(1, 2, 0), 1);
    publish(&mut reg, "alice", "dex", "swap", v(1, 0, 0), 2);
    publish(&mut reg, "alice", "dex", "swap", v(2, 0, 0), 3);
    publish(&mut reg, "alice", "dex", "other", v(9, 0, 0), 4);
    let versions = reg.list_versions(&s("dex"), &s("swap"));
    assert_eq!(versions, vec![v(1, 0, 0), v(1, 2, 0), v(2, 0, 0)]);
}

#[test]
fn parse_module_id_splits_namespace_and_name() {
    assert_eq!(parse_module_id("dex:swap"), Some((s("dex"), s("swap"))));
    assert_eq!(parse_module_id("dexswap"), None);
    assert_eq!(parse_module_id(":swap"), None);
    assert_eq!(parse_module_id("dex:"), None);
    assert_eq!(parse_module_id("a:b:c"), None);
}

#[test]
fn execute_add_code_id_and_query_os() {
    let mut reg = Registry::new(s("admin"));
    execute(
        &mut reg,
        &s("alice"),
        ExecuteMsg::AddCodeId {
            module: s("dex:swap"),
            version: s("1.0.0"),
            code_id: 42,
        },
    )
    .unwrap();
    let (ver, code) = reg
        .resolve(&s("dex"), &s("swap"), &VersionReq::Latest)
        .unwrap();
    assert_eq!(ver, v(1, 0, 0));
    assert_eq!(code, 42);

    // Account bookkeeping is admin-gated.
    let err = execute(
        &mut reg,
        &s("mallory"),
        ExecuteMsg::AddOs {
            os_id: 4,
            os_manager_address: s("manager4"),
        },
    )
    .unwrap_err();
    assert_eq!(err, RegistryError::Unauthorized);
    execute(
        &mut reg,
        &s("admin"),
        ExecuteMsg::AddOs {
            os_id: 4,
            os_manager_address: s("manager4"),
        },
    )
    .unwrap();
    assert_eq!(reg.query_os_address(4), Some(s("manager4")));
    execute(&mut reg, &s("admin"), ExecuteMsg::RemoveOs { os_id: 4 }).unwrap();
    assert_eq!(reg.query_os_address(4), None);
}

#[test]
fn execute_rejects_malformed_strings() {
    let mut reg = Registry::new(s("admin"));
    let err = execute(
        &mut reg,
        &s("alice"),
        ExecuteMsg::AddCodeId {
            module: s("noseparator"),
            version: s("1.0.0"),
            code_id: 1,
        },
    )
    .unwrap_err();
    assert_eq!(err, RegistryError::InvalidModuleFormat { given: s("noseparator") });
    let err = execute(
        &mut reg,
        &s("alice"),
        ExecuteMsg::AddCodeId {
            module: s("dex:swap"),
            version: s("1.0"),
            code_id: 1,
        },
    )
    .unwrap_err();
    assert_eq!(err, RegistryError::InvalidVersionFormat { given: s("1.0") });
    let err = execute(
        &mut reg,
        &s("alice"),
        ExecuteMsg::RemoveCodeId {
            module: s("dex:swap"),
            version: s("x.y.z"),
        },
    )
    .unwrap_err();
    assert_eq!(err, RegistryError::InvalidVersionFormat { given: s("x.y.z") });
}

#[test]
fn query_enabled_modules_and_os_address() {
    let mut reg = Registry::new(s("admin"));
    reg.add_os(&s("admin"), 1, s("manager1")).unwrap();
    let account = Account::new(s("owner"));
    let answer = query(
        &reg,
        &account,
        &QueryMsg::QueryOsAddress { os_id: 1 },
    );
    assert_eq!(answer, QueryAnswer::OsAddress(Some(s("manager1"))));
    let answer = query(
        &reg,
        &account,
        &QueryMsg::QueryEnabledModules {
            os_address: s("manager1"),
        },
    );
    assert_eq!(answer, QueryAnswer::EnabledModules(vec![]));
}

#[test]
fn register_with_dependencies_keeps_them() {
    let mut reg = Registry::new(s("admin"));
    let dep = DependencyDecl {
        namespace: s("base"),
        name: s("core"),
        req: VersionReq::Latest,
    };
    reg.register(&s("alice"), s("dex"), s("swap"), v(1, 0, 0), 1, vec![dep], None)
        .unwrap();
    assert_eq!(reg.entries.len(), 1);
    assert_eq!(reg.entries[0].dependencies.len(), 1);
    assert_eq!(reg.entries[0].dependencies[0].namespace, s("base"));
}
