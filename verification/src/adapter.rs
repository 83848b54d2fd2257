//! The module base contract: the scaffolding every installable module
//! implements.
//!
//! The base behaviour — the authorized-caller check, metadata
//! bookkeeping at instantiation, version stamping — is written once and
//! parameterized by the module-specific payload type, so every module
//! variant shares one verified implementation.  The module-specific
//! instantiate handler is the module author's own code: its result is
//! taken as an argument, and the base is specified for every value of
//! it.

use vstd::prelude::*;
use crate::error::ManagerError;
use crate::registry::DependencyDecl;

verus! {

/// The base state every module persists: where the name service and the
/// version control service live.
#[derive(Clone, Debug, PartialEq)]
pub struct AdapterState {
    pub version_control: String,
    pub ans_host: String,
}

/// The identity and dependency metadata a module records about itself
/// at instantiation, for introspection.
#[derive(Clone, Debug, PartialEq)]
pub struct ModuleData {
    pub module: String,
    pub version: String,
    pub dependencies: Vec<DependencyDecl>,
    pub metadata: Option<String>,
}

/// The version stamp of the deployed contract.
#[derive(Clone, Debug, PartialEq)]
pub struct ContractVersion {
    pub contract: String,
    pub version: String,
}

/// The base part of every module's instantiation payload.
#[derive(Clone, Debug, PartialEq)]
pub struct BaseInstantiateMsg {
    pub ans_host_address: String,
    pub version_control_address: String,
}

/// A module's full instantiation payload: the base configuration plus
/// the module-specific part.
pub struct AdapterInstantiateMsg<T> {
    pub base: BaseInstantiateMsg,
    pub module: T,
}

/// What an entry point hands back to the platform: follow-up messages
/// and an optional data payload.
#[derive(Clone, Debug, PartialEq)]
pub struct AdapterResponse {
    pub messages: Vec<String>,
    pub data: Option<String>,
}

/// The shared scaffolding of one installable module, generic over the
/// module-specific payload type.
pub struct AdapterContract<T> {
    pub module_id: String,
    pub version: String,
    pub metadata: Option<String>,
    pub dependencies: Vec<DependencyDecl>,
    pub base_state: Option<AdapterState>,
    pub module_data: Option<ModuleData>,
    pub contract_version: Option<ContractVersion>,
    pub authorized_addresses: Vec<String>,
    pub account: Option<String>,
    pub custom: Option<T>,
}

/// Whether `sender` may call into the module: it is the owning account,
/// or on the explicit allow-list.  Default-deny.
pub open spec fn caller_allowed<T>(c: AdapterContract<T>, sender: Seq<char>) -> bool {
    ||| (c.account is Some && c.account->0@ == sender)
    ||| exists|i: int|
        0 <= i < c.authorized_addresses@.len() && c.authorized_addresses@[i]@ == sender
}

/// An equal copy of an optional string.
fn dup_opt_string(o: &Option<String>) -> (r: Option<String>)
    ensures
        r == *o,
{
    match o {
        Some(s) => Some(s.clone()),
        None => None,
    }
}

impl<T> AdapterContract<T> {
    /// A module variant's compiled-in identity: not yet instantiated,
    /// nothing authorized.
    pub fn new(module_id: String, version: String, metadata: Option<String>) -> (r:
        AdapterContract<T>)
        ensures
            r.module_id == module_id,
            r.version == version,
            r.metadata == metadata,
            r.dependencies@.len() == 0,
            r.base_state is None,
            r.module_data is None,
            r.contract_version is None,
            r.authorized_addresses@.len() == 0,
            r.account is None,
            r.custom is None,
    {
        AdapterContract {
            module_id,
            version,
            metadata,
            dependencies: Vec::new(),
            base_state: None,
            module_data: None,
            contract_version: None,
            authorized_addresses: Vec::new(),
            account: None,
            custom: None,
        }
    }

    /// The same variant with its dependency declarations embedded.
    pub fn with_dependencies(self, dependencies: Vec<DependencyDecl>) -> (r: AdapterContract<T>)
        ensures
            r == (AdapterContract { dependencies, ..self }),
    {
        AdapterContract { dependencies, ..self }
    }

    /// The standardized instantiate entry point: records the base
    /// configuration, the module's published identity and dependency
    /// metadata, the version stamp, and the module-specific payload;
    /// the owning account is the sender.  `custom_result` is what the
    /// module's own instantiate handler returned (`None` when the
    /// module has no handler) and comes back as the response data.
    pub fn instantiate(
        &mut self,
        sender: String,
        msg: AdapterInstantiateMsg<T>,
        custom_result: Option<String>,
    ) -> (r: AdapterResponse)
        ensures
            final(self).module_id == old(self).module_id,
            final(self).version == old(self).version,
            final(self).metadata == old(self).metadata,
            final(self).dependencies@ == old(self).dependencies@,
            final(self).base_state == Some(
                (AdapterState {
                    version_control: msg.base.version_control_address,
                    ans_host: msg.base.ans_host_address,
                }),
            ),
            final(self).module_data is Some,
            final(self).module_data->0.module@ == old(self).module_id@,
            final(self).module_data->0.version@ == old(self).version@,
            final(self).module_data->0.dependencies@ == old(self).dependencies@,
            final(self).module_data->0.metadata == old(self).metadata,
            final(self).contract_version is Some,
            final(self).contract_version->0.contract@ == old(self).module_id@,
            final(self).contract_version->0.version@ == old(self).version@,
            final(self).authorized_addresses@ == old(self).authorized_addresses@,
            final(self).account == Some(sender),
            final(self).custom == Some(msg.module),
            r.messages@.len() == 0,
            r.data == custom_result,
    {
        self.base_state = Some(
            AdapterState {
                version_control: msg.base.version_control_address,
                ans_host: msg.base.ans_host_address,
            },
        );
        self.module_data = Some(
            ModuleData {
                module: self.module_id.clone(),
                version: self.version.clone(),
                dependencies: crate::account::dup_deps(&self.dependencies),
                metadata: dup_opt_string(&self.metadata),
            },
        );
        self.contract_version = Some(
            ContractVersion { contract: self.module_id.clone(), version: self.version.clone() },
        );
        self.account = Some(sender);
        self.custom = Some(msg.module);
        AdapterResponse { messages: Vec::new(), data: custom_result }
    }

    /// Whether `sender` passes the authorized-caller test.
    pub fn is_authorized(&self, sender: &String) -> (r: bool)
        ensures
            r == caller_allowed(*self, sender@),
    {
        match &self.account {
            Some(a) => {
                if *a == *sender {
                    return true;
                }
            },
            None => {},
        }
        let n = self.authorized_addresses.len();
        let mut k: usize = 0;
        while k < n
            invariant
                k <= n == self.authorized_addresses@.len(),
                forall|t: int| 0 <= t < k ==> self.authorized_addresses@[t]@ != sender@,
            decreases n - k,
        {
            if self.authorized_addresses[k] == *sender {
                return true;
            }
            k = k + 1;
        }
        false
    }

    /// Guards the execute entry point: module logic runs only for the
    /// owning account or an explicitly authorized address.
    pub fn base_execute(&self, sender: &String) -> (r: Result<(), ManagerError>)
        ensures
            r is Ok <==> caller_allowed(*self, sender@),
            r is Err ==> r->Err_0 is Unauthorized,
    {
        if self.is_authorized(sender) {
            Ok(())
        } else {
            Err(ManagerError::Unauthorized)
        }
    }

    /// The read-only query entry point: the module's recorded identity
    /// and dependency metadata, with no authorization check.
    pub fn base_query(&self) -> (r: Option<ModuleData>)
        ensures
            r is Some <==> self.module_data is Some,
            r is Some ==> r->0.module@ == self.module_data->0.module@ && r->0.version@
                == self.module_data->0.version@ && r->0.dependencies@
                == self.module_data->0.dependencies@ && r->0.metadata
                == self.module_data->0.metadata,
    {
        match &self.module_data {
            Some(d) => Some(
                ModuleData {
                    module: d.module.clone(),
                    version: d.version.clone(),
                    dependencies: crate::account::dup_deps(&d.dependencies),
                    metadata: dup_opt_string(&d.metadata),
                },
            ),
            None => None,
        }
    }

    /// Add an address to the allow-list.  Only the owning account may.
    pub fn authorize_address(&mut self, sender: &String, addr: String) -> (r: Result<
        (),
        ManagerError,
    >)
        ensures
            r is Ok <==> (old(self).account is Some && old(self).account->0@ == sender@),
            r is Ok ==> final(self).authorized_addresses@ == old(self).authorized_addresses@.push(
                addr,
            ) && final(self).account == old(self).account,
            r is Err ==> *final(self) == *old(self) && r->Err_0 is Unauthorized,
    {
        let allowed = match &self.account {
            Some(a) => *a == *sender,
            None => false,
        };
        if allowed {
            self.authorized_addresses.push(addr);
            Ok(())
        } else {
            Err(ManagerError::Unauthorized)
        }
    }
}

} // verus!
