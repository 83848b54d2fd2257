//! The registry's message interface: plain data in, one result out.
//!
//! A module is addressed as a `namespace:name` string and a version as a
//! `major.minor.patch` string; both are parsed and validated here before
//! the version control service is touched, so a malformed message is
//! rejected without any state change.

use vstd::prelude::*;
use vstd::string::StrSliceExecFns;
use crate::account::{label_of, mod_label, Account};
use crate::error::RegistryError;
use crate::registry::{
    has_version, may_publish, spec_namespace_owner, spec_os_addr, Registry,
};
use crate::version::{
    parse_version, valid_version_chars, version_of_chars,
};

verus! {

/// Instantiation payload of the version control service.
#[derive(Clone, Debug, PartialEq)]
pub struct InstantiateMsg {}

/// The mutations the version control service accepts.
#[derive(Clone, Debug, PartialEq)]
pub enum ExecuteMsg {
    /// Publish `module` (a `namespace:name` string) at `version`,
    /// binding `code_id`.
    AddCodeId { module: String, version: String, code_id: u64 },
    /// Remove a published entry.
    RemoveCodeId { module: String, version: String },
    /// Record the manager address of account `os_id`.
    AddOs { os_id: u32, os_manager_address: String },
    /// Forget the manager address of account `os_id`.
    RemoveOs { os_id: u32 },
}

/// The queries the version control service answers.
#[derive(Clone, Debug, PartialEq)]
pub enum QueryMsg {
    /// The modules enabled on the account at `os_address`.
    QueryEnabledModules { os_address: String },
    /// The manager address of account `os_id`.
    QueryOsAddress { os_id: u32 },
}

/// One answer per query variant.
#[derive(Clone, Debug, PartialEq)]
pub enum QueryAnswer {
    /// The `namespace:name` labels of the enabled modules, in table order.
    EnabledModules(Vec<String>),
    /// The recorded manager address, if any.
    OsAddress(Option<String>),
}

/// `s` splits as `namespace:name` at position `i`: the only colon, with
/// both sides non-empty.
pub open spec fn module_split_at(s: Seq<char>, i: int) -> bool {
    &&& 0 < i
    &&& i + 1 < s.len()
    &&& s[i] == ':'
    &&& forall|k: int| 0 <= k < s.len() && k != i ==> s[k] != ':'
}

/// Whether `s` is a well-formed `namespace:name` module string.
pub open spec fn valid_module_chars(s: Seq<char>) -> bool {
    exists|i: int| module_split_at(s, i)
}

/// The namespace part of a well-formed module string.
pub open spec fn module_ns_of(s: Seq<char>) -> Seq<char> {
    let i = choose|i: int| module_split_at(s, i);
    s.subrange(0, i)
}

/// The name part of a well-formed module string.
pub open spec fn module_name_of(s: Seq<char>) -> Seq<char> {
    let i = choose|i: int| module_split_at(s, i);
    s.subrange(i + 1, s.len() as int)
}

/// Find the first `':'` at or after `from`.
fn find_colon(s: &str, from: usize, n: usize) -> (r: Option<usize>)
    requires
        from <= n == s@.len(),
    ensures
        match r {
            Some(i) => from <= i < n && s@[i as int] == ':' && (forall|k: int|
                from <= k < i ==> s@[k] != ':'),
            None => forall|k: int| from <= k < n ==> s@[k] != ':',
        },
{
    let mut k: usize = from;
    while k < n
        invariant
            from <= k <= n == s@.len(),
            forall|t: int| from <= t < k ==> s@[t] != ':',
        decreases n - k,
    {
        let c = s.get_char(k);
        if c == ':' {
            return Some(k);
        }
        k = k + 1;
    }
    None
}

/// Parse a `namespace:name` module string; `None` when it is malformed.
pub fn parse_module_id(s: &str) -> (r: Option<(String, String)>)
    ensures
        match r {
            Some((ns, nm)) => valid_module_chars(s@) && ns@ == module_ns_of(s@) && nm@
                == module_name_of(s@),
            None => !valid_module_chars(s@),
        },
{
    let n = s.unicode_len();
    let i = match find_colon(s, 0, n) {
        Some(i) => i,
        None => {
            proof {
                if valid_module_chars(s@) {
                    let i = choose|i: int| module_split_at(s@, i);
                    assert(s@[i] == ':');
                    assert(false);
                }
            }
            return None;
        },
    };
    match find_colon(s, i + 1, n) {
        Some(j) => {
            proof {
                if valid_module_chars(s@) {
                    let w = choose|w: int| module_split_at(s@, w);
                    assert(s@[i as int] == ':' && s@[j as int] == ':');
                    assert(i < j);
                    assert(false);
                }
            }
            return None;
        },
        None => {},
    }
    if i == 0 || i + 1 >= n {
        proof {
            if valid_module_chars(s@) {
                let w = choose|w: int| module_split_at(s@, w);
                assert(w == i);
                assert(false);
            }
        }
        return None;
    }
    proof {
        assert(module_split_at(s@, i as int));
        let w = choose|w: int| module_split_at(s@, w);
        assert(w == i);
    }
    let ns = s.substring_char(0, i).to_owned();
    let nm = s.substring_char(i + 1, n).to_owned();
    Some((ns, nm))
}

/// Handle one mutation of the version control service, as one atomic
/// unit: a malformed module or version string, a namespace owned by
/// another principal, a duplicate version or an unauthorized account
/// mutation leave the registry unchanged.
pub fn execute(registry: &mut Registry, caller: &String, msg: ExecuteMsg) -> (r: Result<
    (),
    RegistryError,
>)
    requires
        old(registry).wf(),
    ensures
        final(registry).wf(),
        final(registry).ownership == old(registry).ownership,
        r is Err ==> *final(registry) == *old(registry),
        match msg {
            ExecuteMsg::AddCodeId { module, version, code_id } => {
                if !valid_module_chars(module@) {
                    r == Err::<(), RegistryError>(
                        (RegistryError::InvalidModuleFormat { given: module }),
                    )
                } else if !valid_version_chars(version@) {
                    r == Err::<(), RegistryError>(
                        (RegistryError::InvalidVersionFormat { given: version }),
                    )
                } else {
                    let ns = module_ns_of(module@);
                    let nm = module_name_of(module@);
                    let v = version_of_chars(version@);
                    &&& (r is Ok <==> may_publish(old(registry).namespaces@, ns, caller@)
                        && !has_version(old(registry).entries@, ns, nm, v))
                    &&& (r is Ok ==> final(registry).entries@.len() == old(registry).entries@.len() + 1 && final(registry).entries@.last().namespace@ == ns
                        && final(registry).entries@.last().name@ == nm && final(registry).entries@.last().version == v && final(registry).entries@.last().code_id
                        == code_id && final(registry).entries@.last().dependencies@.len() == 0
                        && final(registry).entries@.subrange(
                        0,
                        old(registry).entries@.len() as int,
                    ) == old(registry).entries@)
                    &&& (r is Err ==> (r->Err_0 is NamespaceNotOwned
                        || r->Err_0 is DuplicateVersion))
                    &&& final(registry).os_addresses@ == old(registry).os_addresses@
                }
            },
            ExecuteMsg::RemoveCodeId { module, version } => {
                if !valid_module_chars(module@) {
                    r == Err::<(), RegistryError>(
                        (RegistryError::InvalidModuleFormat { given: module }),
                    )
                } else if !valid_version_chars(version@) {
                    r == Err::<(), RegistryError>(
                        (RegistryError::InvalidVersionFormat { given: version }),
                    )
                } else {
                    let ns = module_ns_of(module@);
                    let nm = module_name_of(module@);
                    let v = version_of_chars(version@);
                    &&& (r is Ok <==> spec_namespace_owner(old(registry).namespaces@, ns) == Some(
                        caller@,
                    ) && has_version(old(registry).entries@, ns, nm, v))
                    &&& (r is Ok ==> !has_version(final(registry).entries@, ns, nm, v))
                    &&& (r is Err ==> (r->Err_0 is NamespaceNotOwned || r->Err_0 is NotFound))
                    &&& final(registry).os_addresses@ == old(registry).os_addresses@
                    &&& final(registry).namespaces@ == old(registry).namespaces@
                }
            },
            ExecuteMsg::AddOs { os_id, os_manager_address } => {
                &&& (r is Ok <==> caller@ == old(registry).ownership.owner@)
                &&& (r is Ok ==> spec_os_addr(final(registry).os_addresses@, os_id) == Some(
                    os_manager_address@,
                ) && (forall|id2: u32|
                    id2 != os_id ==> spec_os_addr(final(registry).os_addresses@, id2)
                        == spec_os_addr(old(registry).os_addresses@, id2)))
                &&& (r is Err ==> r->Err_0 is Unauthorized)
                &&& final(registry).entries@ == old(registry).entries@
                &&& final(registry).namespaces@ == old(registry).namespaces@
            },
            ExecuteMsg::RemoveOs { os_id } => {
                &&& (r is Ok <==> caller@ == old(registry).ownership.owner@)
                &&& (r is Ok ==> spec_os_addr(final(registry).os_addresses@, os_id) is None && (
                forall|id2: u32|
                    id2 != os_id ==> spec_os_addr(final(registry).os_addresses@, id2)
                        == spec_os_addr(old(registry).os_addresses@, id2)))
                &&& (r is Err ==> r->Err_0 is Unauthorized)
                &&& final(registry).entries@ == old(registry).entries@
                &&& final(registry).namespaces@ == old(registry).namespaces@
            },
        },
{
    match msg {
        ExecuteMsg::AddCodeId { module, version, code_id } => {
            let (ns, nm) = match parse_module_id(module.as_str()) {
                Some(p) => p,
                None => {
                    return Err(RegistryError::InvalidModuleFormat { given: module });
                },
            };
            let v = match parse_version(version.as_str()) {
                Some(v) => v,
                None => {
                    return Err(RegistryError::InvalidVersionFormat { given: version });
                },
            };
            registry.register(caller, ns, nm, v, code_id, Vec::new(), None)
        },
        ExecuteMsg::RemoveCodeId { module, version } => {
            let (ns, nm) = match parse_module_id(module.as_str()) {
                Some(p) => p,
                None => {
                    return Err(RegistryError::InvalidModuleFormat { given: module });
                },
            };
            let v = match parse_version(version.as_str()) {
                Some(v) => v,
                None => {
                    return Err(RegistryError::InvalidVersionFormat { given: version });
                },
            };
            registry.deregister(caller, ns, nm, v)
        },
        ExecuteMsg::AddOs { os_id, os_manager_address } => {
            registry.add_os(caller, os_id, os_manager_address)
        },
        ExecuteMsg::RemoveOs { os_id } => registry.remove_os(caller, os_id),
    }
}

/// Answer one query.  Which account stands at a queried address is the
/// caller's to establish; the enabled-modules query reads the given
/// account's installed table.
pub fn query(registry: &Registry, account: &Account, msg: &QueryMsg) -> (r: QueryAnswer)
    ensures
        match *msg {
            QueryMsg::QueryEnabledModules { .. } => r is EnabledModules
                && r->EnabledModules_0@.len() == account.installed@.len() && (forall|i: int|
                0 <= i < account.installed@.len() ==> (#[trigger] r->EnabledModules_0@[i])@
                    == mod_label(
                    account.installed@[i].namespace@,
                    account.installed@[i].name@,
                )),
            QueryMsg::QueryOsAddress { os_id } => r is OsAddress && (match r->OsAddress_0 {
                Some(a) => spec_os_addr(registry.os_addresses@, os_id) == Some(a@),
                None => spec_os_addr(registry.os_addresses@, os_id) is None,
            }),
        },
{
    match msg {
        QueryMsg::QueryEnabledModules { .. } => {
            let n = account.installed.len();
            let mut out: Vec<String> = Vec::new();
            let mut k: usize = 0;
            while k < n
                invariant
                    k <= n == account.installed@.len(),
                    out@.len() == k,
                    forall|i: int|
                        0 <= i < k ==> (#[trigger] out@[i])@ == mod_label(
                            account.installed@[i].namespace@,
                            account.installed@[i].name@,
                        ),
                decreases n - k,
            {
                out.push(label_of(&account.installed[k]));
                k = k + 1;
            }
            QueryAnswer::EnabledModules(out)
        },
        QueryMsg::QueryOsAddress { os_id } => {
            QueryAnswer::OsAddress(registry.query_os_address(*os_id))
        },
    }
}

} // verus!
