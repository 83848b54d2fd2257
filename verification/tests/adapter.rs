use dao_os::adapter::{
    AdapterContract, AdapterInstantiateMsg, AdapterState, BaseInstantiateMsg, ContractVersion,
    ModuleData,
};
use dao_os::error::ManagerError;
use dao_os::registry::DependencyDecl;
use dao_os::version::{Version, VersionReq};

#[derive(Clone, Debug, PartialEq)]
struct MockInitMsg {}

fn s(t: &str) -> String {
    t.to_string()
}

fn mock_dep() -> DependencyDecl {
    DependencyDecl {
        namespace: s("tester"),
        name: s("mock-dep"),
        req: VersionReq::Compatible(Version {
            major: 1,
            minor: 0,
            patch: 0,
        }),
    }
}

fn mock_adapter() -> AdapterContract<MockInitMsg> {
    AdapterContract::new(s("tester:mock-adapter"), s("1.0.0"), Some(s("test_metadata")))
}

#[test]
fn successful() {
    let mut api = mock_adapter().with_dependencies(vec![mock_dep()]);
    let init_msg = AdapterInstantiateMsg {
        base: BaseInstantiateMsg {
            ans_host_address: s("ans_host"),
            version_control_address: s("version_control"),
        },
        module: MockInitMsg {},
    };
    // The mock module's instantiate handler answers with "mock_init".
    let res = api.instantiate(s("manager"), init_msg, Some(s("mock_init")));
    assert_eq!(res.messages.len(), 0);
    // The mock init handler's result is the response data.
    assert_eq!(res.data, Some(s("mock_init")));

    let module_data = api.module_data.clone().unwrap();
    assert_eq!(
        module_data,
        ModuleData {
            module: s("tester:mock-adapter"),
            version: s("1.0.0"),
            dependencies: vec![mock_dep()],
            metadata: Some(s("test_metadata")),
        }
    );

    let contract_version = api.contract_version.clone().unwrap();
    assert_eq!(
        contract_version,
        ContractVersion {
            contract: s("tester:mock-adapter"),
            version: s("1.0.0"),
        }
    );

    let none_authorized = api.authorized_addresses.is_empty();
    assert!(none_authorized);

    let state = api.base_state.clone().unwrap();
    assert_eq!(
        state,
        AdapterState {
            version_control: s("version_control"),
            ans_host: s("ans_host"),
        }
    );
}

#[test]
fn query_reads_module_data_without_authorization() {
    let mut api = mock_adapter().with_dependencies(vec![mock_dep()]);
    assert_eq!(api.base_query(), None);
    let init_msg = AdapterInstantiateMsg {
        base: BaseInstantiateMsg {
            ans_host_address: s("ans_host"),
            version_control_address: s("version_control"),
        },
        module: MockInitMsg {},
    };
    api.instantiate(s("manager"), init_msg, None);
    let data = api.base_query().unwrap();
    assert_eq!(data.module, s("tester:mock-adapter"));
    assert_eq!(data.version, s("1.0.0"));
    assert_eq!(data.dependencies, vec![mock_dep()]);
}

#[test]
fn execute_gate_is_default_deny() {
    let mut api = mock_adapter();
    let init_msg = AdapterInstantiateMsg {
        base: BaseInstantiateMsg {
            ans_host_address: s("ans_host"),
            version_control_address: s("version_control"),
        },
        module: MockInitMsg {},
    };
    api.instantiate(s("manager"), init_msg, None);
    // The owning account passes; a stranger does not.
    assert!(api.base_execute(&s("manager")).is_ok());
    assert_eq!(
        api.base_execute(&s("stranger")).unwrap_err(),
        ManagerError::Unauthorized
    );
    // Only the owning account may extend the allow-list.
    let err = api
        .authorize_address(&s("stranger"), s("stranger"))
        .unwrap_err();
    assert_eq!(err, ManagerError::Unauthorized);
    api.authorize_address(&s("manager"), s("friend")).unwrap();
    assert!(api.base_execute(&s("friend")).is_ok());
    assert!(api.base_execute(&s("stranger")).is_err());
}
