//! The version control service: the shared registry that tracks which
//! code implements which module at which version.
//!
//! Storage is modelled as plain in-memory tables carrying the
//! invariants of the platform's key-value layout: one table of
//! (namespace, name, version) -> (code identifier, dependency
//! declarations, metadata), one table of namespace -> owner, and one
//! table of account id -> manager address.

use vstd::prelude::*;
use crate::error::RegistryError;
use crate::ownership::Ownership;
use crate::version::{lemma_version_order_total, satisfies, version_lt, Version, VersionReq};

verus! {

/// A module's published requirement that another named module (within a
/// version range) be installed alongside it.  Immutable once published.
#[derive(Clone, Debug, PartialEq)]
pub struct DependencyDecl {
    pub namespace: String,
    pub name: String,
    pub req: VersionReq,
}

impl DependencyDecl {
    /// An equal copy.
    pub fn dup(&self) -> (r: DependencyDecl)
        ensures
            r == *self,
    {
        DependencyDecl {
            namespace: self.namespace.clone(),
            name: self.name.clone(),
            req: self.req,
        }
    }
}

/// A claimed naming prefix; has exactly one owner.
#[derive(Clone, Debug, PartialEq)]
pub struct NamespaceClaim {
    pub namespace: String,
    pub owner: String,
}

/// One published module version: the identity triple, the code it binds,
/// and the metadata declared at publish time.
#[derive(Clone, Debug, PartialEq)]
pub struct RegistryEntry {
    pub namespace: String,
    pub name: String,
    pub version: Version,
    pub code_id: u64,
    pub dependencies: Vec<DependencyDecl>,
    pub metadata: Option<String>,
}

/// Maps an account id to the address of its manager.
#[derive(Clone, Debug, PartialEq)]
pub struct OsRecord {
    pub os_id: u32,
    pub manager_address: String,
}

/// The registry itself: namespace claims, published entries, account
/// manager addresses, and its own ownership record.
pub struct Registry {
    pub ownership: Ownership,
    pub namespaces: Vec<NamespaceClaim>,
    pub entries: Vec<RegistryEntry>,
    pub os_addresses: Vec<OsRecord>,
}

/// Whether entry `e` publishes module `ns:name`.
pub open spec fn entry_matches(e: RegistryEntry, ns: Seq<char>, name: Seq<char>) -> bool {
    e.namespace@ == ns && e.name@ == name
}

/// Whether some entry publishes `ns:name` at exactly version `v`.
pub open spec fn has_version(
    entries: Seq<RegistryEntry>,
    ns: Seq<char>,
    name: Seq<char>,
    v: Version,
) -> bool {
    exists|k: int|
        0 <= k < entries.len() && entry_matches(entries[k], ns, name) && entries[k].version == v
}

/// No two entries share a (namespace, name, version) triple.
pub open spec fn entries_unique(entries: Seq<RegistryEntry>) -> bool {
    forall|i: int, j: int|
        0 <= i < j < entries.len() ==> !(entry_matches(
            entries[j],
            entries[i].namespace@,
            entries[i].name@,
        ) && entries[i].version == entries[j].version)
}

/// The owner of namespace `ns`, by first match in the claim table.
pub open spec fn spec_namespace_owner(nss: Seq<NamespaceClaim>, ns: Seq<char>) -> Option<
    Seq<char>,
>
    decreases nss.len(),
{
    if nss.len() == 0 {
        None
    } else if nss.first().namespace@ == ns {
        Some(nss.first().owner@)
    } else {
        spec_namespace_owner(nss.drop_first(), ns)
    }
}

/// Whether `caller` may publish under `ns`: it owns the namespace, or the
/// namespace is unclaimed and `caller` is claiming it.
pub open spec fn may_publish(nss: Seq<NamespaceClaim>, ns: Seq<char>, caller: Seq<char>) -> bool {
    match spec_namespace_owner(nss, ns) {
        Some(o) => o == caller,
        None => true,
    }
}

/// The manager address recorded for account `os_id`, by first match.
pub open spec fn spec_os_addr(table: Seq<OsRecord>, os_id: u32) -> Option<Seq<char>>
    decreases table.len(),
{
    if table.len() == 0 {
        None
    } else if table.first().os_id == os_id {
        Some(table.first().manager_address@)
    } else {
        spec_os_addr(table.drop_first(), os_id)
    }
}

impl Registry {
    /// Registry well-formedness: claims, triples and account ids are
    /// unique, and every published entry's namespace is claimed.
    pub open spec fn wf(self) -> bool {
        &&& entries_unique(self.entries@)
        &&& (forall|i: int, j: int|
            0 <= i < j < self.namespaces@.len() ==> self.namespaces@[i].namespace@
                != self.namespaces@[j].namespace@)
        &&& (forall|i: int, j: int|
            0 <= i < j < self.os_addresses@.len() ==> self.os_addresses@[i].os_id
                != self.os_addresses@[j].os_id)
        &&& (forall|k: int|
            0 <= k < self.entries@.len() ==> spec_namespace_owner(
                self.namespaces@,
                self.entries@[k].namespace@,
            ) is Some)
    }

    /// A fresh registry owned by `owner`, with nothing published.
    pub fn new(owner: String) -> (r: Registry)
        ensures
            r.wf(),
            r.ownership.owner == owner,
            r.ownership.pending is None,
            r.namespaces@.len() == 0,
            r.entries@.len() == 0,
            r.os_addresses@.len() == 0,
    {
        Registry {
            ownership: Ownership::new(owner),
            namespaces: Vec::new(),
            entries: Vec::new(),
            os_addresses: Vec::new(),
        }
    }

    /// Look up the owner of a namespace.
    pub fn namespace_owner(&self, ns: &String) -> (r: Option<&String>)
        ensures
            match r {
                Some(o) => spec_namespace_owner(self.namespaces@, ns@) == Some(o@),
                None => spec_namespace_owner(self.namespaces@, ns@) is None,
            },
    {
        let n = self.namespaces.len();
        let mut k: usize = 0;
        proof {
            assert(self.namespaces@.skip(0) =~= self.namespaces@);
        }
        while k < n
            invariant
                k <= n == self.namespaces@.len(),
                spec_namespace_owner(self.namespaces@, ns@) == spec_namespace_owner(
                    self.namespaces@.skip(k as int),
                    ns@,
                ),
            decreases n - k,
        {
            proof {
                assert(self.namespaces@.skip(k as int).first() == self.namespaces@[k as int]);
                assert(self.namespaces@.skip(k as int).drop_first() =~= self.namespaces@.skip(
                    k + 1 as int,
                ));
            }
            if self.namespaces[k].namespace == *ns {
                return Some(&self.namespaces[k].owner);
            }
            k = k + 1;
        }
        proof {
            assert(self.namespaces@.skip(n as int) =~= Seq::<NamespaceClaim>::empty());
        }
        None
    }

    /// Whether `ns:name` is published at exactly version `v`.
    fn contains_version(&self, ns: &String, name: &String, v: &Version) -> (r: bool)
        ensures
            r == has_version(self.entries@, ns@, name@, *v),
    {
        let n = self.entries.len();
        let mut k: usize = 0;
        while k < n
            invariant
                k <= n == self.entries@.len(),
                forall|t: int|
                    0 <= t < k ==> !(entry_matches(self.entries@[t], ns@, name@)
                        && self.entries@[t].version == *v),
            decreases n - k,
        {
            let e = &self.entries[k];
            if e.namespace == *ns && e.name == *name && e.version.major == v.major
                && e.version.minor == v.minor && e.version.patch == v.patch {
                return true;
            }
            k = k + 1;
        }
        false
    }

    /// Publish `ns:name` at `version`, binding `code_id` and the declared
    /// dependencies.  Claims the namespace when it is unclaimed.  Fails
    /// with `NamespaceNotOwned` when another principal owns the
    /// namespace, and with `DuplicateVersion` when the triple is already
    /// published: an immutable entry is never silently rebound.
    pub fn register(
        &mut self,
        caller: &String,
        namespace: String,
        name: String,
        version: Version,
        code_id: u64,
        dependencies: Vec<DependencyDecl>,
        metadata: Option<String>,
    ) -> (r: Result<(), RegistryError>)
        requires
            old(self).wf(),
        ensures
            final(self).wf(),
            final(self).ownership == old(self).ownership,
            final(self).os_addresses@ == old(self).os_addresses@,
            r is Ok <==> may_publish(old(self).namespaces@, namespace@, caller@) && !has_version(
                old(self).entries@,
                namespace@,
                name@,
                version,
            ),
            (r is Err && r->Err_0 is NamespaceNotOwned) <==> !may_publish(
                old(self).namespaces@,
                namespace@,
                caller@,
            ),
            (r is Err && r->Err_0 is DuplicateVersion) <==> (may_publish(
                old(self).namespaces@,
                namespace@,
                caller@,
            ) && has_version(old(self).entries@, namespace@, name@, version)),
            r is Err ==> *final(self) == *old(self),
            r is Ok ==> final(self).entries@ == old(self).entries@.push(
                (RegistryEntry { namespace, name, version, code_id, dependencies, metadata }),
            ),
            r is Ok ==> spec_namespace_owner(final(self).namespaces@, namespace@) == Some(caller@),
            r is Ok ==> forall|ns2: Seq<char>|
                ns2 != namespace@ ==> spec_namespace_owner(final(self).namespaces@, ns2)
                    == spec_namespace_owner(old(self).namespaces@, ns2),
    {
        let claimed = match self.namespace_owner(&namespace) {
            Some(o) => {
                if !(*o == *caller) {
                    return Err(RegistryError::NamespaceNotOwned { namespace });
                }
                true
            },
            None => false,
        };
        if self.contains_version(&namespace, &name, &version) {
            return Err(RegistryError::DuplicateVersion { namespace, name, version });
        }
        if !claimed {
            let claim = NamespaceClaim { namespace: namespace.clone(), owner: caller.clone() };
            proof {
                lemma_ns_owner_push(self.namespaces@, claim, namespace@);
                assert forall|ns2: Seq<char>| ns2 != namespace@ implies spec_namespace_owner(
                    self.namespaces@.push(claim),
                    ns2,
                ) == spec_namespace_owner(self.namespaces@, ns2) by {
                    lemma_ns_owner_push(self.namespaces@, claim, ns2);
                }
                lemma_ns_owner_none_no_claim(self.namespaces@, namespace@);
            }
            let ghost prens = self.namespaces@;
            self.namespaces.push(claim);
            proof {
                let post = self.namespaces@;
                assert forall|i: int, j: int| 0 <= i < j < post.len() implies post[i].namespace@
                    != post[j].namespace@ by {
                    if j == post.len() - 1 {
                        assert(post[i] == prens[i]);
                        assert(post[j].namespace@ == namespace@);
                    } else {
                        assert(post[i] == prens[i]);
                        assert(post[j] == prens[j]);
                    }
                }
            }
        }
        let ghost nss = self.namespaces@;
        let entry = RegistryEntry { namespace, name, version, code_id, dependencies, metadata };
        proof {
            assert forall|k: int| 0 <= k < old(self).entries@.len() implies spec_namespace_owner(
                nss,
                old(self).entries@[k].namespace@,
            ) is Some by {
                if !claimed {
                    lemma_ns_owner_push(
                        old(self).namespaces@,
                        nss.last(),
                        old(self).entries@[k].namespace@,
                    );
                }
            }
            if !claimed {
                lemma_ns_owner_none_no_claim(old(self).namespaces@, namespace@);
            }
        }
        let ghost pre = self.entries@;
        self.entries.push(entry);
        proof {
            let post = self.entries@;
            assert(post == pre.push(entry));
            assert forall|i: int, j: int| 0 <= i < j < post.len() implies !(entry_matches(
                post[j],
                post[i].namespace@,
                post[i].name@,
            ) && post[i].version == post[j].version) by {
                if j == post.len() - 1 {
                    assert(post[i] == pre[i]);
                    assert(post[j] == entry);
                    if entry_matches(post[j], post[i].namespace@, post[i].name@) && post[i].version
                        == post[j].version {
                        assert(entry_matches(pre[i], namespace@, name@));
                        assert(has_version(pre, namespace@, name@, version));
                    }
                } else {
                    assert(post[i] == pre[i]);
                    assert(post[j] == pre[j]);
                }
            }
        }
        Ok(())
    }

    /// Remove a published entry.  Only the namespace owner may remove,
    /// and only an entry that exists.  The registry keeps no global
    /// index of installs, so it cannot tell whether some account still
    /// references the entry: that protection lives in each account
    /// manager's own dependency checks.
    pub fn deregister(&mut self, caller: &String, namespace: String, name: String, version:
        Version) -> (r: Result<(), RegistryError>)
        requires
            old(self).wf(),
        ensures
            final(self).wf(),
            final(self).ownership == old(self).ownership,
            final(self).os_addresses@ == old(self).os_addresses@,
            final(self).namespaces@ == old(self).namespaces@,
            r is Ok <==> (spec_namespace_owner(old(self).namespaces@, namespace@) == Some(caller@)
                && has_version(old(self).entries@, namespace@, name@, version)),
            (r is Err && r->Err_0 is NamespaceNotOwned) <==> spec_namespace_owner(
                old(self).namespaces@,
                namespace@,
            ) != Some(caller@),
            (r is Err && r->Err_0 is NotFound) <==> (spec_namespace_owner(
                old(self).namespaces@,
                namespace@,
            ) == Some(caller@) && !has_version(old(self).entries@, namespace@, name@, version)),
            r is Err ==> *final(self) == *old(self),
            r is Ok ==> !has_version(final(self).entries@, namespace@, name@, version),
            r is Ok ==> exists|k: int|
                0 <= k < old(self).entries@.len() && entry_matches(
                    old(self).entries@[k],
                    namespace@,
                    name@,
                ) && old(self).entries@[k].version == version && final(self).entries@ == old(
                    self,
                ).entries@.remove(k),
    {
        let owned = match self.namespace_owner(&namespace) {
            Some(o) => *o == *caller,
            None => false,
        };
        if !owned {
            return Err(RegistryError::NamespaceNotOwned { namespace });
        }
        let n = self.entries.len();
        let mut k: usize = 0;
        while k < n
            invariant
                *self == *old(self),
                k <= n == self.entries@.len(),
                old(self).wf(),
                spec_namespace_owner(old(self).namespaces@, namespace@) == Some(caller@),
                forall|t: int|
                    0 <= t < k ==> !(entry_matches(self.entries@[t], namespace@, name@)
                        && self.entries@[t].version == version),
            decreases n - k,
        {
            let e = &self.entries[k];
            if e.namespace == namespace && e.name == name && e.version.major == version.major
                && e.version.minor == version.minor && e.version.patch == version.patch {
                let ghost pre = self.entries@;
                self.entries.remove(k);
                proof {
                    lemma_entries_remove_keeps_wf(pre, k as int, *old(self));
                    assert forall|t: int|
                        0 <= t < self.entries@.len() implies !(entry_matches(
                        self.entries@[t],
                        namespace@,
                        name@,
                    ) && self.entries@[t].version == version) by {
                        if t < k {
                            assert(self.entries@[t] == pre[t]);
                        } else {
                            assert(self.entries@[t] == pre[t + 1]);
                            assert(entry_matches(pre[k as int], namespace@, name@));
                        }
                    }
                }
                return Ok(());
            }
            k = k + 1;
        }
        Err(RegistryError::NotFound { namespace, name })
    }
}

/// Whether `v` is a published version of `ns:name` that satisfies `req`.
pub open spec fn is_candidate(
    entries: Seq<RegistryEntry>,
    ns: Seq<char>,
    name: Seq<char>,
    req: VersionReq,
    v: Version,
) -> bool {
    has_version(entries, ns, name, v) && satisfies(v, req)
}

/// The version that resolving `(ns, name, req)` yields: the highest
/// published version of `ns:name` satisfying `req`, or `None`.  Defined
/// as a fold over the table, so resolution is a function of the registry
/// contents alone: resolving against an unchanged registry is
/// deterministic.
pub open spec fn spec_resolve(
    entries: Seq<RegistryEntry>,
    ns: Seq<char>,
    name: Seq<char>,
    req: VersionReq,
) -> Option<Version>
    decreases entries.len(),
{
    if entries.len() == 0 {
        None
    } else {
        let rest = spec_resolve(entries.drop_last(), ns, name, req);
        let e = entries.last();
        if entry_matches(e, ns, name) && satisfies(e.version, req) {
            match rest {
                None => Some(e.version),
                Some(v) => if version_lt(v, e.version) {
                    Some(e.version)
                } else {
                    Some(v)
                },
            }
        } else {
            rest
        }
    }
}

/// What resolution returns: a candidate when one exists, and then the
/// maximum candidate — so resolving "latest" returns the highest
/// registered version, whatever the insertion order.
pub proof fn lemma_resolve_is_max(
    entries: Seq<RegistryEntry>,
    ns: Seq<char>,
    name: Seq<char>,
    req: VersionReq,
)
    ensures
        match spec_resolve(entries, ns, name, req) {
            Some(v) => is_candidate(entries, ns, name, req, v) && (forall|w: Version|
                is_candidate(entries, ns, name, req, w) ==> !version_lt(v, w)),
            None => forall|w: Version| !is_candidate(entries, ns, name, req, w),
        },
    decreases entries.len(),
{
    if entries.len() > 0 {
        let dl = entries.drop_last();
        let e = entries.last();
        lemma_resolve_is_max(dl, ns, name, req);
        assert forall|w: Version| is_candidate(entries, ns, name, req, w) implies (is_candidate(
            dl,
            ns,
            name,
            req,
            w,
        ) || (entry_matches(e, ns, name) && e.version == w)) by {
            let k = choose|k: int|
                0 <= k < entries.len() && entry_matches(entries[k], ns, name) && entries[k].version
                    == w;
            if k < entries.len() - 1 {
                assert(dl[k] == entries[k]);
            }
        }
        assert forall|w: Version| is_candidate(dl, ns, name, req, w) implies is_candidate(
            entries,
            ns,
            name,
            req,
            w,
        ) by {
            let k = choose|k: int|
                0 <= k < dl.len() && entry_matches(dl[k], ns, name) && dl[k].version == w;
            assert(entries[k] == dl[k]);
        }
        let rest = spec_resolve(dl, ns, name, req);
        if entry_matches(e, ns, name) && satisfies(e.version, req) {
            assert(entries[entries.len() - 1] == e);
            assert(is_candidate(entries, ns, name, req, e.version));
            let v = spec_resolve(entries, ns, name, req)->0;
            assert(is_candidate(entries, ns, name, req, v));
            assert forall|w: Version| is_candidate(entries, ns, name, req, w) implies !version_lt(
                v,
                w,
            ) by {
                if is_candidate(dl, ns, name, req, w) {
                    assert(!version_lt(rest->0, w));
                } else {
                    assert(w == e.version);
                }
            }
        } else {
            if rest is Some {
                assert forall|w: Version| is_candidate(entries, ns, name, req, w) implies
                    !version_lt(rest->0, w) by {
                    if is_candidate(dl, ns, name, req, w) {
                    } else {
                        assert(entry_matches(e, ns, name) && e.version == w);
                    }
                }
            } else {
                assert forall|w: Version| !is_candidate(entries, ns, name, req, w) by {
                    if is_candidate(entries, ns, name, req, w) {
                        assert(is_candidate(dl, ns, name, req, w) || (entry_matches(e, ns, name)
                            && e.version == w));
                    }
                }
            }
        }
    }
}

/// Resolution is deterministic: against an unchanged registry, the one
/// candidate that no candidate exceeds is the resolved version, so
/// resolving the same requirement twice yields the same entry.
pub proof fn lemma_resolve_deterministic(
    entries: Seq<RegistryEntry>,
    ns: Seq<char>,
    name: Seq<char>,
    req: VersionReq,
    v: Version,
)
    requires
        is_candidate(entries, ns, name, req, v),
        forall|w: Version| is_candidate(entries, ns, name, req, w) ==> !version_lt(v, w),
    ensures
        spec_resolve(entries, ns, name, req) == Some(v),
{
    lemma_resolve_is_max(entries, ns, name, req);
    match spec_resolve(entries, ns, name, req) {
        Some(u) => {
            lemma_version_order_total(u, v);
        },
        None => {},
    }
}

/// An unclaimed namespace has no claim record at all.
proof fn lemma_ns_owner_none_no_claim(nss: Seq<NamespaceClaim>, ns: Seq<char>)
    requires
        spec_namespace_owner(nss, ns) is None,
    ensures
        forall|k: int| 0 <= k < nss.len() ==> nss[k].namespace@ != ns,
    decreases nss.len(),
{
    if nss.len() > 0 {
        lemma_ns_owner_none_no_claim(nss.drop_first(), ns);
        assert forall|k: int| 0 <= k < nss.len() implies nss[k].namespace@ != ns by {
            if k > 0 {
                assert(nss.drop_first()[k - 1] == nss[k]);
            }
        }
    }
}

/// Looking a namespace up after pushing one claim: the new claim answers
/// only where the table had no answer and the names agree.
proof fn lemma_ns_owner_push(nss: Seq<NamespaceClaim>, c: NamespaceClaim, ns: Seq<char>)
    ensures
        spec_namespace_owner(nss.push(c), ns) == (match spec_namespace_owner(nss, ns) {
            Some(o) => Some(o),
            None => if c.namespace@ == ns {
                Some(c.owner@)
            } else {
                None
            },
        }),
    decreases nss.len(),
{
    if nss.len() == 0 {
        assert(nss.push(c).drop_first() =~= Seq::<NamespaceClaim>::empty());
    } else {
        assert(nss.push(c).first() == nss.first());
        assert(nss.push(c).drop_first() =~= nss.drop_first().push(c));
        lemma_ns_owner_push(nss.drop_first(), c, ns);
    }
}

/// Removing one entry preserves the registry invariants on the table.
proof fn lemma_entries_remove_keeps_wf(pre: Seq<RegistryEntry>, k: int, reg: Registry)
    requires
        0 <= k < pre.len(),
        entries_unique(pre),
        forall|t: int|
            0 <= t < pre.len() ==> spec_namespace_owner(reg.namespaces@, pre[t].namespace@) is Some,
    ensures
        entries_unique(pre.remove(k)),
        forall|t: int|
            0 <= t < pre.remove(k).len() ==> spec_namespace_owner(
                reg.namespaces@,
                pre.remove(k)[t].namespace@,
            ) is Some,
{
    let post = pre.remove(k);
    assert forall|i: int, j: int| 0 <= i < j < post.len() implies !(entry_matches(
        post[j],
        post[i].namespace@,
        post[i].name@,
    ) && post[i].version == post[j].version) by {
        let i0 = if i < k {
            i
        } else {
            i + 1
        };
        let j0 = if j < k {
            j
        } else {
            j + 1
        };
        assert(post[i] == pre[i0]);
        assert(post[j] == pre[j0]);
    }
    assert forall|t: int| 0 <= t < post.len() implies spec_namespace_owner(
        reg.namespaces@,
        post[t].namespace@,
    ) is Some by {
        let t0 = if t < k {
            t
        } else {
            t + 1
        };
        assert(post[t] == pre[t0]);
    }
}

impl Registry {
    /// The index of the entry that `(ns, name, req)` resolves to.
    pub fn resolve_index(&self, ns: &String, name: &String, req: &VersionReq) -> (r: Option<
        usize,
    >)
        ensures
            match r {
                Some(b) => b < self.entries@.len() && entry_matches(
                    self.entries@[b as int],
                    ns@,
                    name@,
                ) && satisfies(self.entries@[b as int].version, *req) && spec_resolve(
                    self.entries@,
                    ns@,
                    name@,
                    *req,
                ) == Some(self.entries@[b as int].version),
                None => spec_resolve(self.entries@, ns@, name@, *req) is None,
            },
    {
        let n = self.entries.len();
        let mut best: Option<usize> = None;
        let mut k: usize = 0;
        proof {
            assert(self.entries@.subrange(0, 0) =~= Seq::<RegistryEntry>::empty());
        }
        while k < n
            invariant
                k <= n == self.entries@.len(),
                match best {
                    Some(b) => b < k && entry_matches(self.entries@[b as int], ns@, name@)
                        && satisfies(self.entries@[b as int].version, *req) && spec_resolve(
                        self.entries@.subrange(0, k as int),
                        ns@,
                        name@,
                        *req,
                    ) == Some(self.entries@[b as int].version),
                    None => spec_resolve(self.entries@.subrange(0, k as int), ns@, name@, *req)
                        is None,
                },
            decreases n - k,
        {
            let e = &self.entries[k];
            proof {
                assert(self.entries@.subrange(0, k + 1 as int).drop_last() =~= self.entries@
                    .subrange(0, k as int));
                assert(self.entries@.subrange(0, k + 1 as int).last() == self.entries@[k as int]);
            }
            if e.namespace == *ns && e.name == *name && e.version.matches_req(req) {
                match best {
                    None => {
                        best = Some(k);
                    },
                    Some(b) => {
                        let bv = self.entries[b].version;
                        if bv.lt(&e.version) {
                            best = Some(k);
                        }
                    },
                }
            }
            k = k + 1;
        }
        proof {
            assert(self.entries@.subrange(0, n as int) =~= self.entries@);
        }
        best
    }

    /// Resolve `(ns, name, req)` to the highest satisfying published
    /// version and its code identifier, or `NotFound`.
    pub fn resolve(&self, ns: &String, name: &String, req: &VersionReq) -> (r: Result<
        (Version, u64),
        RegistryError,
    >)
        ensures
            match r {
                Ok((v, c)) => spec_resolve(self.entries@, ns@, name@, *req) == Some(v) && exists|
                    k: int,
                |
                    0 <= k < self.entries@.len() && entry_matches(self.entries@[k], ns@, name@)
                        && self.entries@[k].version == v && self.entries@[k].code_id == c,
                Err(e) => spec_resolve(self.entries@, ns@, name@, *req) is None && e is NotFound,
            },
    {
        match self.resolve_index(ns, name, req) {
            Some(b) => {
                let e = &self.entries[b];
                Ok((e.version, e.code_id))
            },
            None => Err(
                RegistryError::NotFound { namespace: ns.clone(), name: name.clone() },
            ),
        }
    }

    /// All published versions of `ns:name`, in ascending version order:
    /// newest last.
    pub fn list_versions(&self, ns: &String, name: &String) -> (r: Vec<Version>)
        requires
            self.wf(),
        ensures
            forall|i: int, j: int| 0 <= i < j < r@.len() ==> version_lt(r@[i], r@[j]),
            forall|v: Version| r@.contains(v) <==> has_version(self.entries@, ns@, name@, v),
    {
        let n = self.entries.len();
        let mut out: Vec<Version> = Vec::new();
        let mut k: usize = 0;
        while k < n
            invariant
                k <= n == self.entries@.len(),
                self.wf(),
                forall|i: int, j: int| 0 <= i < j < out@.len() ==> version_lt(out@[i], out@[j]),
                forall|v: Version|
                    out@.contains(v) <==> exists|t: int|
                        0 <= t < k && entry_matches(self.entries@[t], ns@, name@)
                            && self.entries@[t].version == v,
            decreases n - k,
        {
            let e = &self.entries[k];
            if e.namespace == *ns && e.name == *name {
                let v = e.version;
                proof {
                    if out@.contains(v) {
                        let t = choose|t: int|
                            0 <= t < k && entry_matches(self.entries@[t], ns@, name@)
                                && self.entries@[t].version == v;
                        assert(!(entry_matches(
                            self.entries@[k as int],
                            self.entries@[t].namespace@,
                            self.entries@[t].name@,
                        ) && self.entries@[t].version == self.entries@[k as int].version));
                    }
                }
                let mut p: usize = 0;
                while p < out.len() && out[p].lt(&v)
                    invariant
                        p <= out@.len(),
                        forall|q: int| 0 <= q < p ==> version_lt(out@[q], v),
                    decreases out@.len() - p,
                {
                    p = p + 1;
                }
                let ghost pre = out@;
                proof {
                    if p < pre.len() {
                        assert(pre[p as int] != v);
                        lemma_version_order_total(pre[p as int], v);
                    }
                }
                out.insert(p, v);
                proof {
                    let post = out@;
                    assert(post == pre.insert(p as int, v));
                    assert forall|i: int| 0 <= i < post.len() implies post[i] == (if i < p {
                        pre[i]
                    } else if i == p {
                        v
                    } else {
                        pre[i - 1]
                    }) by {}
                    assert forall|i: int, j: int| 0 <= i < j < post.len() implies version_lt(
                        post[i],
                        post[j],
                    ) by {
                        if j < p {
                            assert(post[i] == pre[i] && post[j] == pre[j]);
                        } else if i < p && j == p {
                            assert(post[i] == pre[i] && post[j] == v);
                        } else if i < p && j > p {
                            assert(post[i] == pre[i] && post[j] == pre[j - 1]);
                            if i < j - 1 {
                                assert(version_lt(pre[i], pre[j - 1]));
                            }
                        } else if i == p {
                            assert(post[i] == v && post[j] == pre[j - 1]);
                            assert(version_lt(v, pre[p as int]));
                            if j - 1 > p {
                                assert(version_lt(pre[p as int], pre[j - 1]));
                            }
                        } else {
                            assert(post[i] == pre[i - 1] && post[j] == pre[j - 1]);
                        }
                    }
                    assert forall|w: Version| post.contains(w) implies (pre.contains(w) || w
                        == v) by {
                        let q = choose|q: int| 0 <= q < post.len() && post[q] == w;
                        if q < p {
                            assert(pre[q] == w);
                        } else if q > p {
                            assert(pre[q - 1] == w);
                        }
                    }
                    assert forall|w: Version| pre.contains(w) implies post.contains(w) by {
                        let q = choose|q: int| 0 <= q < pre.len() && pre[q] == w;
                        if q < p {
                            assert(post[q] == w);
                        } else {
                            assert(post[q + 1] == w);
                        }
                    }
                    assert(post[p as int] == v);
                    assert(post.contains(v));
                }
            }
            k = k + 1;
        }
        out
    }
}

/// Looking an account id up after pushing one record.
proof fn lemma_os_addr_push(table: Seq<OsRecord>, rec: OsRecord, id: u32)
    ensures
        spec_os_addr(table.push(rec), id) == (match spec_os_addr(table, id) {
            Some(a) => Some(a),
            None => if rec.os_id == id {
                Some(rec.manager_address@)
            } else {
                None
            },
        }),
    decreases table.len(),
{
    if table.len() == 0 {
        assert(table.push(rec).first() == rec);
        assert(table.push(rec).drop_first() =~= Seq::<OsRecord>::empty());
        if rec.os_id == id {
            assert(spec_os_addr(table.push(rec), id) == Some(rec.manager_address@));
        } else {
            assert(spec_os_addr(table.push(rec), id) == spec_os_addr(
                table.push(rec).drop_first(),
                id,
            ));
        }
    } else {
        assert(table.push(rec).first() == table.first());
        assert(table.push(rec).drop_first() =~= table.drop_first().push(rec));
        lemma_os_addr_push(table.drop_first(), rec, id);
        if table.first().os_id == id {
            assert(spec_os_addr(table.push(rec), id) == Some(table.first().manager_address@));
            assert(spec_os_addr(table, id) == Some(table.first().manager_address@));
        } else {
            assert(spec_os_addr(table.push(rec), id) == spec_os_addr(
                table.drop_first().push(rec),
                id,
            ));
            assert(spec_os_addr(table, id) == spec_os_addr(table.drop_first(), id));
        }
    }
}

/// An id that answers `None` has no record at all.
proof fn lemma_os_addr_none(table: Seq<OsRecord>, id: u32)
    requires
        spec_os_addr(table, id) is None,
    ensures
        forall|k: int| 0 <= k < table.len() ==> table[k].os_id != id,
    decreases table.len(),
{
    if table.len() > 0 {
        lemma_os_addr_none(table.drop_first(), id);
        assert forall|k: int| 0 <= k < table.len() implies table[k].os_id != id by {
            if k > 0 {
                assert(table.drop_first()[k - 1] == table[k]);
            }
        }
    }
}

/// Removing one record changes only that record's id.
proof fn lemma_os_addr_remove(table: Seq<OsRecord>, k: int, id: u32)
    requires
        0 <= k < table.len(),
        forall|i: int, j: int| 0 <= i < j < table.len() ==> table[i].os_id != table[j].os_id,
        table[k].os_id == id,
    ensures
        spec_os_addr(table.remove(k), id) is None,
        forall|id2: u32|
            id2 != id ==> spec_os_addr(table.remove(k), id2) == spec_os_addr(table, id2),
        forall|i: int, j: int|
            0 <= i < j < table.remove(k).len() ==> table.remove(k)[i].os_id != table.remove(
                k,
            )[j].os_id,
    decreases table.len(),
{
    let post = table.remove(k);
    if k == 0 {
        assert(post =~= table.drop_first());
        assert forall|id2: u32| id2 != id implies spec_os_addr(post, id2) == spec_os_addr(
            table,
            id2,
        ) by {}
        if spec_os_addr(post, id) is Some {
            lemma_os_addr_witness(post, id);
            let t = choose|t: int| 0 <= t < post.len() && post[t].os_id == id;
            assert(table[t + 1] == post[t]);
        }
    } else {
        assert(post.first() == table.first());
        assert(post.drop_first() =~= table.drop_first().remove(k - 1));
        assert forall|i: int, j: int|
            0 <= i < j < table.drop_first().len() implies table.drop_first()[i].os_id
            != table.drop_first()[j].os_id by {
            assert(table.drop_first()[i] == table[i + 1]);
            assert(table.drop_first()[j] == table[j + 1]);
        }
        assert(table.drop_first()[k - 1] == table[k]);
        lemma_os_addr_remove(table.drop_first(), k - 1, id);
        assert(table.first().os_id != id);
        assert(spec_os_addr(post, id) is None);
        assert forall|id2: u32| id2 != id implies spec_os_addr(post, id2) == spec_os_addr(
            table,
            id2,
        ) by {
            if post.first().os_id != id2 {
                assert(spec_os_addr(post, id2) == spec_os_addr(post.drop_first(), id2));
                assert(spec_os_addr(post.drop_first(), id2) == spec_os_addr(
                    table.drop_first().remove(k - 1),
                    id2,
                ));
                assert(spec_os_addr(table, id2) == spec_os_addr(table.drop_first(), id2));
            }
        }
    }
    assert forall|i: int, j: int| 0 <= i < j < post.len() implies post[i].os_id
        != post[j].os_id by {
        let i0 = if i < k {
            i
        } else {
            i + 1
        };
        let j0 = if j < k {
            j
        } else {
            j + 1
        };
        assert(post[i] == table[i0]);
        assert(post[j] == table[j0]);
    }
}

/// An id that answers `Some` has a record with that id.
proof fn lemma_os_addr_witness(table: Seq<OsRecord>, id: u32)
    requires
        spec_os_addr(table, id) is Some,
    ensures
        exists|t: int| 0 <= t < table.len() && table[t].os_id == id,
    decreases table.len(),
{
    if table.len() > 0 && table.first().os_id != id {
        lemma_os_addr_witness(table.drop_first(), id);
        let t = choose|t: int|
            0 <= t < table.drop_first().len() && table.drop_first()[t].os_id == id;
        assert(table[t + 1] == table.drop_first()[t]);
    }
}

impl Registry {
    /// Record the manager address of account `os_id`, replacing any
    /// earlier record.  Only the registry owner may do so.
    pub fn add_os(&mut self, caller: &String, os_id: u32, manager_address: String) -> (r: Result<
        (),
        RegistryError,
    >)
        requires
            old(self).wf(),
        ensures
            final(self).wf(),
            final(self).ownership == old(self).ownership,
            final(self).entries@ == old(self).entries@,
            final(self).namespaces@ == old(self).namespaces@,
            r is Ok <==> caller@ == old(self).ownership.owner@,
            r is Err ==> *final(self) == *old(self) && r->Err_0 is Unauthorized,
            r is Ok ==> spec_os_addr(final(self).os_addresses@, os_id) == Some(manager_address@),
            r is Ok ==> forall|id2: u32|
                id2 != os_id ==> spec_os_addr(final(self).os_addresses@, id2) == spec_os_addr(
                    old(self).os_addresses@,
                    id2,
                ),
    {
        if !self.ownership.is_owner(caller) {
            return Err(RegistryError::Unauthorized);
        }
        let n = self.os_addresses.len();
        let mut k: usize = 0;
        let mut found: Option<usize> = None;
        while k < n
            invariant
                *self == *old(self),
                k <= n == self.os_addresses@.len(),
                match found {
                    Some(f) => f < n && self.os_addresses@[f as int].os_id == os_id,
                    None => forall|t: int| 0 <= t < k ==> self.os_addresses@[t].os_id != os_id,
                },
            decreases n - k,
        {
            if found.is_none() && self.os_addresses[k].os_id == os_id {
                found = Some(k);
            }
            k = k + 1;
        }
        let ghost pre = self.os_addresses@;
        match found {
            Some(f) => {
                self.os_addresses.remove(f);
                proof {
                    lemma_os_addr_remove(pre, f as int, os_id);
                }
            },
            None => {},
        }
        let ghost mid = self.os_addresses@;
        let rec = OsRecord { os_id, manager_address };
        self.os_addresses.push(rec);
        proof {
            lemma_os_addr_push(mid, rec, os_id);
            if found is None {
                if spec_os_addr(mid, os_id) is Some {
                    lemma_os_addr_witness(mid, os_id);
                }
            }
            assert(spec_os_addr(mid, os_id) is None);
            assert forall|id2: u32| id2 != os_id implies spec_os_addr(
                self.os_addresses@,
                id2,
            ) == spec_os_addr(old(self).os_addresses@, id2) by {
                lemma_os_addr_push(mid, rec, id2);
            }
            let post = self.os_addresses@;
            assert forall|i: int, j: int| 0 <= i < j < post.len() implies post[i].os_id
                != post[j].os_id by {
                if j == post.len() - 1 {
                    assert(post[i] == mid[i]);
                    if post[i].os_id == os_id {
                        if found is None {
                            lemma_os_addr_none(mid, os_id);
                        }
                    }
                } else {
                    assert(post[i] == mid[i]);
                    assert(post[j] == mid[j]);
                }
            }
        }
        Ok(())
    }

    /// Forget the manager address of account `os_id`.  Only the registry
    /// owner; removing an absent record is a no-op.
    pub fn remove_os(&mut self, caller: &String, os_id: u32) -> (r: Result<(), RegistryError>)
        requires
            old(self).wf(),
        ensures
            final(self).wf(),
            final(self).ownership == old(self).ownership,
            final(self).entries@ == old(self).entries@,
            final(self).namespaces@ == old(self).namespaces@,
            r is Ok <==> caller@ == old(self).ownership.owner@,
            r is Err ==> *final(self) == *old(self) && r->Err_0 is Unauthorized,
            r is Ok ==> spec_os_addr(final(self).os_addresses@, os_id) is None,
            r is Ok ==> forall|id2: u32|
                id2 != os_id ==> spec_os_addr(final(self).os_addresses@, id2) == spec_os_addr(
                    old(self).os_addresses@,
                    id2,
                ),
    {
        if !self.ownership.is_owner(caller) {
            return Err(RegistryError::Unauthorized);
        }
        let n = self.os_addresses.len();
        let mut k: usize = 0;
        while k < n
            invariant
                *self == *old(self),
                k <= n == self.os_addresses@.len(),
                old(self).wf(),
                caller@ == old(self).ownership.owner@,
                forall|t: int| 0 <= t < k ==> self.os_addresses@[t].os_id != os_id,
            decreases n - k,
        {
            if self.os_addresses[k].os_id == os_id {
                let ghost pre = self.os_addresses@;
                self.os_addresses.remove(k);
                proof {
                    lemma_os_addr_remove(pre, k as int, os_id);
                }
                return Ok(());
            }
            k = k + 1;
        }
        proof {
            if spec_os_addr(self.os_addresses@, os_id) is Some {
                lemma_os_addr_witness(self.os_addresses@, os_id);
            }
        }
        Ok(())
    }

    /// The manager address recorded for account `os_id`.
    pub fn query_os_address(&self, os_id: u32) -> (r: Option<String>)
        ensures
            match r {
                Some(a) => spec_os_addr(self.os_addresses@, os_id) == Some(a@),
                None => spec_os_addr(self.os_addresses@, os_id) is None,
            },
    {
        let n = self.os_addresses.len();
        let mut k: usize = 0;
        proof {
            assert(self.os_addresses@.skip(0) =~= self.os_addresses@);
        }
        while k < n
            invariant
                k <= n == self.os_addresses@.len(),
                spec_os_addr(self.os_addresses@, os_id) == spec_os_addr(
                    self.os_addresses@.skip(k as int),
                    os_id,
                ),
            decreases n - k,
        {
            proof {
                assert(self.os_addresses@.skip(k as int).first() == self.os_addresses@[k as int]);
                assert(self.os_addresses@.skip(k as int).drop_first() =~= self.os_addresses@.skip(
                    k + 1 as int,
                ));
            }
            if self.os_addresses[k].os_id == os_id {
                return Some(self.os_addresses[k].manager_address.clone());
            }
            k = k + 1;
        }
        proof {
            assert(self.os_addresses@.skip(n as int) =~= Seq::<OsRecord>::empty());
        }
        None
    }
}

} // verus!
