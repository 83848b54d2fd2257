//! The account manager: the stateful core attached to each account.
//!
//! It holds the set of currently-installed module instances, performs
//! dependency resolution before an install, issues instantiate and
//! migrate calls to the module factory, and enforces the two standing
//! invariants: every installed instance's declared dependencies are
//! present at compatible versions, and at most one instance exists per
//! (namespace, name).  Any failure aborts the entire call and leaves the
//! installed table unchanged.

use vstd::prelude::*;
use crate::error::ManagerError;
use crate::factory::ModuleFactory;
use crate::ownership::{Ownership, OwnershipError};
use crate::registry::{
    entries_unique, entry_matches, has_version, is_candidate, lemma_resolve_deterministic,
    spec_resolve, DependencyDecl, Registry, RegistryEntry,
};
use crate::version::{satisfies, version_lt, Version, VersionReq};

verus! {

/// A live, addressable execution of a module's code, attached to exactly
/// one account.  The dependency declarations are copied from the
/// registry entry at install time; they are immutable once published.
pub struct InstalledModule {
    pub namespace: String,
    pub name: String,
    pub version: Version,
    pub address: u64,
    pub code_id: u64,
    pub dependencies: Vec<DependencyDecl>,
}

/// A per-user addressable entity that installs and manages module
/// instances.
pub struct Account {
    pub ownership: Ownership,
    pub installed: Vec<InstalledModule>,
    pub suspended: bool,
}

/// The identity and version of one available module, at spec level.
pub ghost struct ModRef {
    pub ns: Seq<char>,
    pub name: Seq<char>,
    pub version: Version,
}

impl InstalledModule {
    /// The instance's identity triple.
    pub open spec fn key(self) -> ModRef {
        ModRef { ns: self.namespace@, name: self.name@, version: self.version }
    }
}

/// The identity triple a registry entry publishes.
pub open spec fn entry_ref(e: RegistryEntry) -> ModRef {
    ModRef { ns: e.namespace@, name: e.name@, version: e.version }
}

/// The identity triples of a table of installed instances.
pub open spec fn refs_of(s: Seq<InstalledModule>) -> Seq<ModRef> {
    s.map_values(|m: InstalledModule| m.key())
}

/// The identity triples an install plan would add: each plan element is
/// an index into the registry's entry table.
pub open spec fn plan_refs(entries: Seq<RegistryEntry>, plan: Seq<usize>) -> Seq<ModRef> {
    plan.map_values(|b: usize| entry_ref(entries[b as int]))
}

/// Everything available once a plan commits: what is installed plus what
/// is planned, in that order.
pub open spec fn avail_refs(
    entries: Seq<RegistryEntry>,
    installed: Seq<InstalledModule>,
    plan: Seq<usize>,
) -> Seq<ModRef> {
    refs_of(installed) + plan_refs(entries, plan)
}

/// Whether `dep` is satisfied by some available module: same namespace
/// and name, version within the declared range.
pub open spec fn dep_ok(mods: Seq<ModRef>, dep: DependencyDecl) -> bool {
    exists|k: int|
        0 <= k < mods.len() && mods[k].ns == dep.namespace@ && mods[k].name == dep.name@
            && satisfies(mods[k].version, dep.req)
}

/// Whether every declaration in `deps` is satisfied.
pub open spec fn deps_ok(mods: Seq<ModRef>, deps: Seq<DependencyDecl>) -> bool {
    forall|j: int| 0 <= j < deps.len() ==> dep_ok(mods, deps[j])
}

/// At most one instance exists per (namespace, name).
pub open spec fn singleton_per_name(s: Seq<InstalledModule>) -> bool {
    forall|i: int, j: int|
        0 <= i < j < s.len() ==> !(s[i].namespace@ == s[j].namespace@ && s[i].name@
            == s[j].name@)
}

/// Every dependency declared by an installed instance is present in the
/// same table at a compatible version.
pub open spec fn dependency_invariant(s: Seq<InstalledModule>) -> bool {
    forall|i: int| 0 <= i < s.len() ==> deps_ok(refs_of(s), s[i].dependencies@)
}

/// Whether `ns:name` has an installed instance.
pub open spec fn installed_has(s: Seq<InstalledModule>, ns: Seq<char>, name: Seq<char>) -> bool {
    exists|i: int| 0 <= i < s.len() && s[i].namespace@ == ns && s[i].name@ == name
}

impl Account {
    /// The account's standing invariants: the dependency invariant and
    /// one instance per name.
    pub open spec fn wf(self) -> bool {
        &&& singleton_per_name(self.installed@)
        &&& dependency_invariant(self.installed@)
    }

    /// A fresh account owned by `owner`, with nothing installed.
    pub fn new(owner: String) -> (r: Account)
        ensures
            r.wf(),
            r.ownership.owner == owner,
            r.ownership.pending is None,
            r.installed@.len() == 0,
            !r.suspended,
    {
        Account { ownership: Ownership::new(owner), installed: Vec::new(), suspended: false }
    }

    /// The index of the installed instance of `ns:name`, if any.
    pub fn find_installed(&self, ns: &String, name: &String) -> (r: Option<usize>)
        ensures
            match r {
                Some(i) => i < self.installed@.len() && self.installed@[i as int].namespace@ == ns@
                    && self.installed@[i as int].name@ == name@,
                None => !installed_has(self.installed@, ns@, name@),
            },
    {
        let n = self.installed.len();
        let mut k: usize = 0;
        while k < n
            invariant
                k <= n == self.installed@.len(),
                forall|t: int|
                    0 <= t < k ==> !(self.installed@[t].namespace@ == ns@
                        && self.installed@[t].name@ == name@),
            decreases n - k,
        {
            let m = &self.installed[k];
            if m.namespace == *ns && m.name == *name {
                return Some(k);
            }
            k = k + 1;
        }
        None
    }
}

/// A module name under resolution, held in the planner's in-progress
/// set for back-edge (cycle) detection.
pub struct ModKey {
    pub namespace: String,
    pub name: String,
}

/// Whether the in-progress set holds `ns:name`.
pub open spec fn in_prog_contains(ip: Seq<ModKey>, ns: Seq<char>, name: Seq<char>) -> bool {
    exists|k: int| 0 <= k < ip.len() && ip[k].namespace@ == ns && ip[k].name@ == name
}

/// A well-formed install plan: every element indexes a registry entry;
/// planned names are pairwise distinct, absent from the installed table,
/// and absent from the in-progress set.
pub open spec fn plan_wf(
    entries: Seq<RegistryEntry>,
    installed: Seq<InstalledModule>,
    plan: Seq<usize>,
    ip: Seq<ModKey>,
) -> bool {
    &&& (forall|k: int| 0 <= k < plan.len() ==> (plan[k] as int) < entries.len())
    &&& (forall|k1: int, k2: int|
        0 <= k1 < k2 < plan.len() ==> !(entries[plan[k1] as int].namespace@ == entries[plan[k2]
            as int].namespace@ && entries[plan[k1] as int].name@ == entries[plan[k2]
            as int].name@))
    &&& (forall|k: int, i: int|
        0 <= k < plan.len() && 0 <= i < installed.len() ==> !(entries[plan[k] as int].namespace@
            == installed[i].namespace@ && entries[plan[k] as int].name@ == installed[i].name@))
    &&& (forall|k: int|
        0 <= k < plan.len() ==> !in_prog_contains(
            ip,
            entries[plan[k] as int].namespace@,
            entries[plan[k] as int].name@,
        ))
}

/// A closed plan: each planned entry's declarations are satisfied by
/// what is installed together with what is planned.
pub open spec fn plan_closed(
    entries: Seq<RegistryEntry>,
    installed: Seq<InstalledModule>,
    plan: Seq<usize>,
) -> bool {
    forall|k: int|
        0 <= k < plan.len() ==> deps_ok(
            avail_refs(entries, installed, plan),
            entries[plan[k] as int].dependencies@,
        )
}

/// Whether `(ns, name, req)` resolves, to an entry that declares no
/// dependencies of its own.
pub open spec fn dep_free_best_match(
    entries: Seq<RegistryEntry>,
    ns: Seq<char>,
    name: Seq<char>,
    req: VersionReq,
) -> bool {
    exists|k: int|
        0 <= k < entries.len() && entry_matches(entries[k], ns, name) && Some(entries[k].version)
            == spec_resolve(entries, ns, name, req) && entries[k].dependencies@.len() == 0
}

/// Under unique triples, the resolved version belongs to exactly one
/// entry: any entry carrying it is that entry.
proof fn lemma_resolved_entry_unique(
    entries: Seq<RegistryEntry>,
    ns: Seq<char>,
    name: Seq<char>,
    k1: int,
    k2: int,
)
    requires
        entries_unique(entries),
        0 <= k1 < entries.len(),
        0 <= k2 < entries.len(),
        entry_matches(entries[k1], ns, name),
        entry_matches(entries[k2], ns, name),
        entries[k1].version == entries[k2].version,
    ensures
        k1 == k2,
{
    if k1 < k2 {
        assert(!(entry_matches(entries[k2], entries[k1].namespace@, entries[k1].name@)
            && entries[k1].version == entries[k2].version));
    } else if k2 < k1 {
        assert(!(entry_matches(entries[k1], entries[k2].namespace@, entries[k2].name@)
            && entries[k2].version == entries[k1].version));
    }
}

/// A satisfied declaration stays satisfied when the available set grows.
proof fn lemma_dep_ok_prefix(m1: Seq<ModRef>, m2: Seq<ModRef>, dep: DependencyDecl)
    requires
        m1.is_prefix_of(m2),
        dep_ok(m1, dep),
    ensures
        dep_ok(m2, dep),
{
    let k = choose|k: int|
        0 <= k < m1.len() && m1[k].ns == dep.namespace@ && m1[k].name == dep.name@ && satisfies(
            m1[k].version,
            dep.req,
        );
    assert(m2.subrange(0, m1.len() as int)[k] == m2[k]);
}

/// Extending a plan extends the available set, in order.
proof fn lemma_avail_prefix(
    entries: Seq<RegistryEntry>,
    installed: Seq<InstalledModule>,
    p1: Seq<usize>,
    p2: Seq<usize>,
)
    requires
        p1.is_prefix_of(p2),
    ensures
        avail_refs(entries, installed, p1).is_prefix_of(avail_refs(entries, installed, p2)),
{
    let a1 = avail_refs(entries, installed, p1);
    let a2 = avail_refs(entries, installed, p2);
    let il = refs_of(installed).len() as int;
    assert forall|i: int| 0 <= i < a1.len() implies a1[i] == a2[i] by {
        if i >= il {
            assert(p1.subrange(0, p1.len() as int)[i - il] == p1[i - il]);
        }
    }
    assert(a1 =~= a2.subrange(0, a1.len() as int));
}

/// Resolve one dependency declaration against the registry, depth-first.
///
/// When the module is neither installed nor already planned, the best
/// matching registry entry is planned after its own declarations are
/// planned, so the plan stays in reverse topological order.  A name met
/// again while still in progress is a back-edge: the closure is cyclic.
fn plan_dep(
    registry: &Registry,
    installed: &Vec<InstalledModule>,
    plan: &mut Vec<usize>,
    in_progress: &mut Vec<ModKey>,
    dep: &DependencyDecl,
    fuel: usize,
) -> (r: Result<(), ManagerError>)
    requires
        registry.wf(),
        plan_wf(registry.entries@, installed@, old(plan)@, old(in_progress)@),
        plan_closed(registry.entries@, installed@, old(plan)@),
    ensures
        final(in_progress)@ == old(in_progress)@,
        r is Err ==> (r->Err_0 is DependencyUnsatisfiable || r->Err_0 is CyclicDependency),
        r is Ok ==> old(plan)@.is_prefix_of(final(plan)@) && plan_wf(
            registry.entries@,
            installed@,
            final(plan)@,
            old(in_progress)@,
        ) && plan_closed(registry.entries@, installed@, final(plan)@) && dep_ok(
            avail_refs(registry.entries@, installed@, final(plan)@),
            *dep,
        ),
        // From a clean start, a resolvable declaration whose best match
        // declares no dependencies of its own is owed a plan of exactly
        // that one module.
        ({
            &&& old(plan)@.len() == 0
            &&& old(in_progress)@.len() == 0
            &&& !installed_has(installed@, dep.namespace@, dep.name@)
            &&& fuel >= 1
            &&& dep_free_best_match(registry.entries@, dep.namespace@, dep.name@, dep.req)
        }) ==> r is Ok && final(plan)@.len() == 1,
    decreases fuel,
{
    let ghost entries = registry.entries@;
    // Already installed?
    let n = installed.len();
    let mut k: usize = 0;
    while k < n
        invariant
            *plan == *old(plan),
            *in_progress == *old(in_progress),
            k <= n == installed@.len(),
            registry.wf(),
            plan_wf(entries, installed@, plan@, in_progress@),
            plan_closed(entries, installed@, plan@),
            entries == registry.entries@,
            forall|t: int|
                0 <= t < k ==> !(installed@[t].namespace@ == dep.namespace@
                    && installed@[t].name@ == dep.name@),
        decreases n - k,
    {
        let m = &installed[k];
        if m.namespace == dep.namespace && m.name == dep.name {
            if m.version.matches_req(&dep.req) {
                proof {
                    let a = avail_refs(entries, installed@, plan@);
                    assert(a[k as int] == refs_of(installed@)[k as int]);
                    assert(refs_of(installed@)[k as int] == installed@[k as int].key());
                    assert(plan@.is_prefix_of(plan@));
                }
                return Ok(());
            } else {
                return Err(
                    ManagerError::DependencyUnsatisfiable {
                        namespace: dep.namespace.clone(),
                        name: dep.name.clone(),
                    },
                );
            }
        }
        k = k + 1;
    }
    // Already planned?
    let pn = plan.len();
    let mut k: usize = 0;
    while k < pn
        invariant
            *plan == *old(plan),
            *in_progress == *old(in_progress),
            k <= pn == plan@.len(),
            registry.wf(),
            plan_wf(entries, installed@, plan@, in_progress@),
            plan_closed(entries, installed@, plan@),
            entries == registry.entries@,
            forall|t: int|
                0 <= t < k ==> !(entries[plan@[t] as int].namespace@ == dep.namespace@
                    && entries[plan@[t] as int].name@ == dep.name@),
        decreases pn - k,
    {
        let idx = plan[k];
        let e = &registry.entries[idx];
        if e.namespace == dep.namespace && e.name == dep.name {
            if e.version.matches_req(&dep.req) {
                proof {
                    let a = avail_refs(entries, installed@, plan@);
                    let i = refs_of(installed@).len() + k;
                    assert(a[i as int] == plan_refs(entries, plan@)[k as int]);
                    assert(plan_refs(entries, plan@)[k as int] == entry_ref(
                        entries[plan@[k as int] as int],
                    ));
                    assert(plan@.is_prefix_of(plan@));
                }
                return Ok(());
            } else {
                return Err(
                    ManagerError::DependencyUnsatisfiable {
                        namespace: dep.namespace.clone(),
                        name: dep.name.clone(),
                    },
                );
            }
        }
        k = k + 1;
    }
    // In progress: a back-edge.
    let ipn = in_progress.len();
    let mut k: usize = 0;
    while k < ipn
        invariant
            *plan == *old(plan),
            *in_progress == *old(in_progress),
            k <= ipn == in_progress@.len(),
            forall|t: int|
                0 <= t < k ==> !(in_progress@[t].namespace@ == dep.namespace@
                    && in_progress@[t].name@ == dep.name@),
        decreases ipn - k,
    {
        let m = &in_progress[k];
        if m.namespace == dep.namespace && m.name == dep.name {
            return Err(
                ManagerError::CyclicDependency {
                    namespace: dep.namespace.clone(),
                    name: dep.name.clone(),
                },
            );
        }
        k = k + 1;
    }
    let b = match registry.resolve_index(&dep.namespace, &dep.name, &dep.req) {
        Some(b) => b,
        None => {
            return Err(
                ManagerError::DependencyUnsatisfiable {
                    namespace: dep.namespace.clone(),
                    name: dep.name.clone(),
                },
            );
        },
    };
    // The names in progress are pairwise distinct and each resolved
    // against the registry, so a chain deeper than the entry table must
    // have closed a cycle already: running out of fuel is a back-edge.
    if fuel == 0 {
        return Err(
            ManagerError::CyclicDependency {
                namespace: dep.namespace.clone(),
                name: dep.name.clone(),
            },
        );
    }
    let ghost ip0 = in_progress@;
    in_progress.push(ModKey { namespace: dep.namespace.clone(), name: dep.name.clone() });
    let ghost ip1 = in_progress@;
    proof {
        assert forall|a: Seq<char>, bn: Seq<char>| in_prog_contains(ip0, a, bn) implies
            in_prog_contains(ip1, a, bn) by {
            let t = choose|t: int| 0 <= t < ip0.len() && ip0[t].namespace@ == a && ip0[t].name@
                == bn;
            assert(ip1[t] == ip0[t]);
        }
        assert forall|t: int| 0 <= t < plan@.len() implies !in_prog_contains(
            ip1,
            entries[plan@[t] as int].namespace@,
            entries[plan@[t] as int].name@,
        ) by {
            if in_prog_contains(ip1, entries[plan@[t] as int].namespace@, entries[plan@[t]
                as int].name@) {
                let w = choose|w: int|
                    0 <= w < ip1.len() && ip1[w].namespace@ == entries[plan@[t] as int].namespace@
                        && ip1[w].name@ == entries[plan@[t] as int].name@;
                if w < ip0.len() {
                    assert(ip1[w] == ip0[w]);
                    assert(in_prog_contains(
                        ip0,
                        entries[plan@[t] as int].namespace@,
                        entries[plan@[t] as int].name@,
                    ));
                }
            }
        }
    }
    let dn = registry.entries[b].dependencies.len();
    let mut j: usize = 0;
    while j < dn
        invariant
            registry.wf(),
            entries == registry.entries@,
            (b as int) < entries.len(),
            dn == entries[b as int].dependencies@.len(),
            fuel >= 1,
            entry_matches(entries[b as int], dep.namespace@, dep.name@),
            satisfies(entries[b as int].version, dep.req),
            spec_resolve(entries, dep.namespace@, dep.name@, dep.req) == Some(
                entries[b as int].version,
            ),
            j <= dn,
            j == 0 ==> plan@ == old(plan)@,
            in_progress@ == ip1,
            ip1 == ip0.push(ip1.last()),
            ip1.last().namespace@ == dep.namespace@,
            ip1.last().name@ == dep.name@,
            ip0 == old(in_progress)@,
            !installed_has(installed@, dep.namespace@, dep.name@),
            !in_prog_contains(ip0, dep.namespace@, dep.name@),
            forall|t: int|
                0 <= t < plan@.len() ==> !(entries[plan@[t] as int].namespace@ == dep.namespace@
                    && entries[plan@[t] as int].name@ == dep.name@),
            old(plan)@.is_prefix_of(plan@),
            plan_wf(entries, installed@, plan@, ip1),
            plan_closed(entries, installed@, plan@),
            forall|d: int|
                0 <= d < j ==> dep_ok(
                    avail_refs(entries, installed@, plan@),
                    entries[b as int].dependencies@[d],
                ),
        decreases dn - j,
    {
        let ghost plan_before = plan@;
        let r = plan_dep(
            registry,
            installed,
            plan,
            in_progress,
            &registry.entries[b].dependencies[j],
            fuel - 1,
        );
        match r {
            Ok(()) => {},
            Err(e) => {
                proof {
                    if dep_free_best_match(entries, dep.namespace@, dep.name@, dep.req) {
                        let k = choose|k: int|
                            0 <= k < entries.len() && entry_matches(
                                entries[k],
                                dep.namespace@,
                                dep.name@,
                            ) && Some(entries[k].version) == spec_resolve(
                                entries,
                                dep.namespace@,
                                dep.name@,
                                dep.req,
                            ) && entries[k].dependencies@.len() == 0;
                        lemma_resolved_entry_unique(
                            entries,
                            dep.namespace@,
                            dep.name@,
                            k,
                            b as int,
                        );
                    }
                }
                in_progress.pop();
                proof {
                    assert(in_progress@ =~= ip0);
                }
                return Err(e);
            },
        }
        proof {
            lemma_avail_prefix(entries, installed@, plan_before, plan@);
            assert forall|d: int| 0 <= d < j + 1 implies dep_ok(
                avail_refs(entries, installed@, plan@),
                entries[b as int].dependencies@[d],
            ) by {
                if d < j {
                    lemma_dep_ok_prefix(
                        avail_refs(entries, installed@, plan_before),
                        avail_refs(entries, installed@, plan@),
                        entries[b as int].dependencies@[d],
                    );
                }
            }
            assert forall|t: int| 0 <= t < plan@.len() implies !(entries[plan@[t]
                as int].namespace@ == dep.namespace@ && entries[plan@[t] as int].name@
                == dep.name@) by {
                if entries[plan@[t] as int].namespace@ == dep.namespace@ && entries[plan@[t]
                    as int].name@ == dep.name@ {
                    assert(in_prog_contains(
                        ip1,
                        entries[plan@[t] as int].namespace@,
                        entries[plan@[t] as int].name@,
                    )) by {
                        assert(ip1[ip1.len() - 1].namespace@ == dep.namespace@);
                    }
                }
            }
        }
        j = j + 1;
    }
    in_progress.pop();
    proof {
        assert(in_progress@ =~= ip0);
    }
    let ghost pre_plan = plan@;
    plan.push(b);
    proof {
        let post = plan@;
        assert(post == pre_plan.push(b));
        assert forall|i: int| 0 <= i < pre_plan.len() implies post[i] == pre_plan[i] by {}
        assert(pre_plan.is_prefix_of(post)) by {
            assert(pre_plan =~= post.subrange(0, pre_plan.len() as int));
        }
        assert(old(plan)@.is_prefix_of(post)) by {
            assert forall|i: int| 0 <= i < old(plan)@.len() implies old(plan)@[i] == post.subrange(
                0,
                old(plan)@.len() as int,
            )[i] by {
                assert(old(plan)@.subrange(0, old(plan)@.len() as int)[i] == old(plan)@[i]);
                assert(pre_plan[i] == old(plan)@[i]) by {
                    assert(old(plan)@.subrange(0, old(plan)@.len() as int)[i] == old(plan)@[i]);
                }
            }
            assert(old(plan)@ =~= post.subrange(0, old(plan)@.len() as int));
        }
        // Well-formedness of the extended plan, against the restored
        // in-progress set.
        assert forall|t: int| 0 <= t < pre_plan.len() implies !in_prog_contains(
            ip0,
            entries[pre_plan[t] as int].namespace@,
            entries[pre_plan[t] as int].name@,
        ) by {
            if in_prog_contains(
                ip0,
                entries[pre_plan[t] as int].namespace@,
                entries[pre_plan[t] as int].name@,
            ) {
                let w = choose|w: int|
                    0 <= w < ip0.len() && ip0[w].namespace@ == entries[pre_plan[t]
                        as int].namespace@ && ip0[w].name@ == entries[pre_plan[t] as int].name@;
                assert(ip1[w] == ip0[w]);
                assert(in_prog_contains(
                    ip1,
                    entries[pre_plan[t] as int].namespace@,
                    entries[pre_plan[t] as int].name@,
                ));
            }
        }
        assert(plan_wf(entries, installed@, post, ip0)) by {
            assert forall|k1: int, k2: int| 0 <= k1 < k2 < post.len() implies !(entries[post[k1]
                as int].namespace@ == entries[post[k2] as int].namespace@ && entries[post[k1]
                as int].name@ == entries[post[k2] as int].name@) by {
                if k2 == post.len() - 1 {
                    assert(post[k1] == pre_plan[k1]);
                    assert(post[k2] == b);
                } else {
                    assert(post[k1] == pre_plan[k1]);
                    assert(post[k2] == pre_plan[k2]);
                }
            }
            assert forall|k: int, i: int|
                0 <= k < post.len() && 0 <= i < installed@.len() implies !(entries[post[k]
                as int].namespace@ == installed@[i].namespace@ && entries[post[k] as int].name@
                == installed@[i].name@) by {
                if k == post.len() - 1 {
                    assert(post[k] == b);
                } else {
                    assert(post[k] == pre_plan[k]);
                }
            }
            assert forall|k: int| 0 <= k < post.len() implies !in_prog_contains(
                ip0,
                entries[post[k] as int].namespace@,
                entries[post[k] as int].name@,
            ) by {
                if k == post.len() - 1 {
                    assert(post[k] == b);
                } else {
                    assert(post[k] == pre_plan[k]);
                }
            }
        }
        lemma_avail_prefix(entries, installed@, pre_plan, post);
        let a2 = avail_refs(entries, installed@, post);
        assert(a2[a2.len() - 1] == plan_refs(entries, post)[post.len() - 1]);
        assert(plan_refs(entries, post)[post.len() - 1] == entry_ref(entries[b as int]));
        assert(dep_ok(a2, *dep));
        assert(plan_closed(entries, installed@, post)) by {
            assert forall|k: int| 0 <= k < post.len() implies deps_ok(
                a2,
                entries[post[k] as int].dependencies@,
            ) by {
                if k == post.len() - 1 {
                    assert(post[k] == b);
                    assert forall|d: int|
                        0 <= d < entries[b as int].dependencies@.len() implies dep_ok(
                        a2,
                        entries[b as int].dependencies@[d],
                    ) by {
                        lemma_dep_ok_prefix(
                            avail_refs(entries, installed@, pre_plan),
                            a2,
                            entries[b as int].dependencies@[d],
                        );
                    }
                } else {
                    assert(post[k] == pre_plan[k]);
                    assert forall|d: int|
                        0 <= d < entries[pre_plan[k] as int].dependencies@.len() implies dep_ok(
                        a2,
                        entries[pre_plan[k] as int].dependencies@[d],
                    ) by {
                        lemma_dep_ok_prefix(
                            avail_refs(entries, installed@, pre_plan),
                            a2,
                            entries[pre_plan[k] as int].dependencies@[d],
                        );
                    }
                }
            }
        }
        if dep_free_best_match(entries, dep.namespace@, dep.name@, dep.req) {
            let k = choose|k: int|
                0 <= k < entries.len() && entry_matches(entries[k], dep.namespace@, dep.name@)
                    && Some(entries[k].version) == spec_resolve(
                    entries,
                    dep.namespace@,
                    dep.name@,
                    dep.req,
                ) && entries[k].dependencies@.len() == 0;
            lemma_resolved_entry_unique(entries, dep.namespace@, dep.name@, k, b as int);
            assert(dn == 0);
        }
    }
    Ok(())
}

/// Replace one element of a vector in place.
fn vec_set<T>(v: &mut Vec<T>, i: usize, x: T)
    requires
        i < old(v)@.len(),
    ensures
        final(v)@ == old(v)@.update(i as int, x),
{
    let slot = &mut v[i];
    *slot = x;
}

/// An equal copy of a dependency list.
pub fn dup_deps(deps: &Vec<DependencyDecl>) -> (r: Vec<DependencyDecl>)
    ensures
        r@ == deps@,
{
    let n = deps.len();
    let mut out: Vec<DependencyDecl> = Vec::new();
    let mut k: usize = 0;
    while k < n
        invariant
            k <= n == deps@.len(),
            out@ =~= deps@.subrange(0, k as int),
        decreases n - k,
    {
        out.push(deps[k].dup());
        proof {
            assert(out@ =~= deps@.subrange(0, k + 1 as int));
        }
        k = k + 1;
    }
    proof {
        assert(deps@.subrange(0, n as int) =~= deps@);
    }
    out
}

/// Instantiate every planned entry in plan order through the factory.
/// On any failure the factory is rolled back to its state at entry, as
/// the platform's transaction rollback would do.
fn instantiate_plan(registry: &Registry, factory: &mut ModuleFactory, plan: &Vec<usize>) -> (r:
    Result<Vec<InstalledModule>, ManagerError>)
    requires
        registry.wf(),
        forall|k: int| 0 <= k < plan@.len() ==> (plan@[k] as int) < registry.entries@.len(),
    ensures
        final(factory).broken_code_ids@ == old(factory).broken_code_ids@,
        r is Err ==> final(factory).next_address == old(factory).next_address
            && r->Err_0 is InstantiationFailed,
        r is Ok ==> r->Ok_0@.len() == plan@.len() && (forall|q: int|
            0 <= q < plan@.len() ==> r->Ok_0@[q].namespace@ == registry.entries@[plan@[q]
                as int].namespace@ && r->Ok_0@[q].name@ == registry.entries@[plan@[q]
                as int].name@ && r->Ok_0@[q].version == registry.entries@[plan@[q]
                as int].version && r->Ok_0@[q].dependencies@ == registry.entries@[plan@[q]
                as int].dependencies@),
        // Success is owed when the platform accepts every planned code
        // and the address space suffices.
        ({
            &&& (forall|q: int|
                0 <= q < plan@.len() ==> !old(factory).broken_code_ids@.contains(
                    (#[trigger] registry.entries@[plan@[q] as int]).code_id,
                ))
            &&& old(factory).next_address as int + plan@.len() <= u64::MAX as int
        }) ==> r is Ok,
{
    let ghost entries = registry.entries@;
    let snapshot = factory.next_address;
    let pn = plan.len();
    let mut news: Vec<InstalledModule> = Vec::new();
    let mut p: usize = 0;
    while p < pn
        invariant
            pn == plan@.len(),
            registry.wf(),
            entries == registry.entries@,
            snapshot == old(factory).next_address,
            factory.broken_code_ids@ == old(factory).broken_code_ids@,
            factory.next_address as int == snapshot as int + p as int,
            p <= pn,
            forall|k: int| 0 <= k < plan@.len() ==> (plan@[k] as int) < entries.len(),
            news@.len() == p,
            forall|q: int|
                0 <= q < p ==> news@[q].namespace@ == entries[plan@[q] as int].namespace@
                    && news@[q].name@ == entries[plan@[q] as int].name@ && news@[q].version
                    == entries[plan@[q] as int].version && news@[q].dependencies@ == entries[
                    plan@[q] as int
                ].dependencies@,
        decreases pn - p,
    {
        let idx = plan[p];
        let e = &registry.entries[idx];
        match factory.instantiate(e.code_id) {
            Ok(addr) => {
                let m = InstalledModule {
                    namespace: e.namespace.clone(),
                    name: e.name.clone(),
                    version: e.version,
                    address: addr,
                    code_id: e.code_id,
                    dependencies: dup_deps(&e.dependencies),
                };
                news.push(m);
            },
            Err(err) => {
                factory.rollback(snapshot);
                return Err(err);
            },
        }
        p = p + 1;
    }
    Ok(news)
}

/// Install `ns:name` on the account: resolve the requirement, compute
/// the dependency closure (leaves before dependents), instantiate every
/// missing module through the factory, and record the new instances.
/// Any failure leaves the installed table and the factory exactly as
/// they were: the whole call is one atomic unit of work.
pub fn install(
    account: &mut Account,
    registry: &Registry,
    factory: &mut ModuleFactory,
    caller: &String,
    namespace: &String,
    name: &String,
    req: &VersionReq,
) -> (r: Result<u64, ManagerError>)
    requires
        old(account).wf(),
        registry.wf(),
    ensures
        final(account).suspended == old(account).suspended,
        final(account).ownership == old(account).ownership,
        final(factory).broken_code_ids@ == old(factory).broken_code_ids@,
        r is Err ==> final(account).installed@ == old(account).installed@ && final(factory).next_address == old(factory).next_address,
        (r is Err && r->Err_0 is Unauthorized) <==> (caller@ != old(account).ownership.owner@
            || old(account).suspended),
        (r is Err && r->Err_0 is AlreadyInstalled) <==> (caller@ == old(account).ownership.owner@ && !old(account).suspended && installed_has(
            old(account).installed@,
            namespace@,
            name@,
        )),
        (r is Err && r->Err_0 is ModuleNotFound) <==> (caller@ == old(account).ownership.owner@
            && !old(account).suspended && !installed_has(old(account).installed@, namespace@, name@)
            && spec_resolve(registry.entries@, namespace@, name@, *req) is None),
        r is Ok ==> final(account).wf() && caller@ == old(account).ownership.owner@ && !old(account).suspended && final(account).installed@.len() > old(account).installed@.len() && final(account).installed@.subrange(0, old(account).installed@.len() as int) == old(account).installed@
            && installed_has(final(account).installed@, namespace@, name@) && (exists|i: int|
            0 <= i < final(account).installed@.len() && final(account).installed@[i].namespace@
                == namespace@ && final(account).installed@[i].name@ == name@ && Some(
                final(account).installed@[i].version,
            ) == spec_resolve(registry.entries@, namespace@, name@, *req) && final(account).installed@[i].address == r->Ok_0),
        // Success is owed at least for an authorized install of an
        // absent module whose resolved entry declares no dependencies,
        // when the platform accepts its code and an address is free.
        ({
            &&& caller@ == old(account).ownership.owner@
            &&& !old(account).suspended
            &&& !installed_has(old(account).installed@, namespace@, name@)
            &&& (exists|k: int|
                0 <= k < registry.entries@.len() && entry_matches(
                    #[trigger] registry.entries@[k],
                    namespace@,
                    name@,
                ) && Some(registry.entries@[k].version) == spec_resolve(
                    registry.entries@,
                    namespace@,
                    name@,
                    *req,
                ) && registry.entries@[k].dependencies@.len() == 0
                    && !old(factory).broken_code_ids@.contains(registry.entries@[k].code_id))
            &&& old(factory).next_address < u64::MAX
        }) ==> r is Ok,
{
    let ghost entries = registry.entries@;
    if account.suspended {
        return Err(ManagerError::Unauthorized);
    }
    if !account.ownership.is_owner(caller) {
        return Err(ManagerError::Unauthorized);
    }
    match account.find_installed(namespace, name) {
        Some(_) => {
            return Err(
                ManagerError::AlreadyInstalled {
                    namespace: namespace.clone(),
                    name: name.clone(),
                },
            );
        },
        None => {},
    }
    let target_version = match registry.resolve_index(namespace, name, req) {
        Some(b) => registry.entries[b].version,
        None => {
            return Err(
                ManagerError::ModuleNotFound { namespace: namespace.clone(), name: name.clone() },
            );
        },
    };
    let target_dep = DependencyDecl {
        namespace: namespace.clone(),
        name: name.clone(),
        req: VersionReq::Exact(target_version),
    };
    let mut plan: Vec<usize> = Vec::new();
    let mut in_progress: Vec<ModKey> = Vec::new();
    let fuel = registry.entries.len();
    proof {
        if exists|k: int|
            0 <= k < entries.len() && entry_matches(#[trigger] entries[k], namespace@, name@)
                && Some(entries[k].version) == spec_resolve(entries, namespace@, name@, *req)
                && entries[k].dependencies@.len() == 0 && !old(
                factory,
            ).broken_code_ids@.contains(entries[k].code_id) {
            let k = choose|k: int|
                0 <= k < entries.len() && entry_matches(#[trigger] entries[k], namespace@, name@)
                    && Some(entries[k].version) == spec_resolve(entries, namespace@, name@, *req)
                    && entries[k].dependencies@.len() == 0 && !old(
                    factory,
                ).broken_code_ids@.contains(entries[k].code_id);
            assert(entries[k].version == target_version);
            assert(has_version(entries, namespace@, name@, target_version));
            assert(is_candidate(
                entries,
                namespace@,
                name@,
                VersionReq::Exact(target_version),
                target_version,
            ));
            assert forall|w: Version|
                is_candidate(
                    entries,
                    namespace@,
                    name@,
                    VersionReq::Exact(target_version),
                    w,
                ) implies !version_lt(target_version, w) by {}
            lemma_resolve_deterministic(
                entries,
                namespace@,
                name@,
                VersionReq::Exact(target_version),
                target_version,
            );
            assert(dep_free_best_match(
                entries,
                namespace@,
                name@,
                VersionReq::Exact(target_version),
            ));
        }
    }
    match plan_dep(registry, &account.installed, &mut plan, &mut in_progress, &target_dep, fuel) {
        Ok(()) => {},
        Err(e) => {
            return Err(e);
        },
    }
    proof {
        if exists|k: int|
            0 <= k < entries.len() && entry_matches(#[trigger] entries[k], namespace@, name@)
                && Some(entries[k].version) == spec_resolve(entries, namespace@, name@, *req)
                && entries[k].dependencies@.len() == 0 && !old(
                factory,
            ).broken_code_ids@.contains(entries[k].code_id) {
            let k = choose|k: int|
                0 <= k < entries.len() && entry_matches(#[trigger] entries[k], namespace@, name@)
                    && Some(entries[k].version) == spec_resolve(entries, namespace@, name@, *req)
                    && entries[k].dependencies@.len() == 0 && !old(
                    factory,
                ).broken_code_ids@.contains(entries[k].code_id);
            // The single planned entry is the dependency-free target.
            assert(plan@.len() == 1);
            let avail = avail_refs(entries, account.installed@, plan@);
            assert(dep_ok(avail, target_dep));
            let w = choose|w: int|
                0 <= w < avail.len() && avail[w].ns == target_dep.namespace@ && avail[w].name
                    == target_dep.name@ && satisfies(avail[w].version, target_dep.req);
            let il = refs_of(account.installed@).len() as int;
            if w < il {
                assert(refs_of(account.installed@)[w] == account.installed@[w].key());
                assert(installed_has(account.installed@, namespace@, name@));
            }
            assert(avail[w] == plan_refs(entries, plan@)[w - il]);
            assert(plan_refs(entries, plan@)[0] == entry_ref(entries[plan@[0] as int]));
            lemma_resolved_entry_unique(entries, namespace@, name@, k, plan@[0] as int);
            assert forall|q: int| 0 <= q < plan@.len() implies !old(
                factory,
            ).broken_code_ids@.contains(
                (#[trigger] entries[plan@[q] as int]).code_id,
            ) by {
                assert(q == 0);
            }
        }
    }
    // The plan is complete: instantiate it in order, leaves first.  A
    // failure aborts the whole call; the platform's rollback is
    // modelled by restoring the factory snapshot, and the installed
    // table has not been touched yet.
    let mut news = match instantiate_plan(registry, factory, &plan) {
        Ok(v) => v,
        Err(err) => {
            return Err(err);
        },
    };
    let ghost old_installed = account.installed@;
    let ghost planned = plan@;
    let ghost newmods = news@;
    account.installed.append(&mut news);
    proof {
        let fin = account.installed@;
        let ol = old_installed.len() as int;
        assert(fin == old_installed + newmods);
        assert forall|i: int| 0 <= i < fin.len() implies fin[i] == (if i < ol {
            old_installed[i]
        } else {
            newmods[i - ol]
        }) by {}
        let avail = avail_refs(entries, old_installed, planned);
        assert(refs_of(fin) =~= avail) by {
            assert forall|i: int| 0 <= i < fin.len() implies refs_of(fin)[i] == avail[i] by {
                if i < ol {
                    assert(refs_of(fin)[i] == fin[i].key());
                    assert(refs_of(old_installed)[i] == old_installed[i].key());
                } else {
                    assert(refs_of(fin)[i] == fin[i].key());
                    assert(plan_refs(entries, planned)[i - ol] == entry_ref(
                        entries[planned[i - ol] as int],
                    ));
                }
            }
        }
        assert(singleton_per_name(fin)) by {
            assert forall|i: int, j: int| 0 <= i < j < fin.len() implies !(fin[i].namespace@
                == fin[j].namespace@ && fin[i].name@ == fin[j].name@) by {
                if i < ol && j >= ol {
                    assert(fin[i] == old_installed[i]);
                    assert(fin[j] == newmods[j - ol]);
                } else if i >= ol {
                    assert(fin[i] == newmods[i - ol]);
                    assert(fin[j] == newmods[j - ol]);
                }
            }
        }
        assert(refs_of(old_installed).is_prefix_of(avail)) by {
            assert(refs_of(old_installed) =~= avail.subrange(
                0,
                refs_of(old_installed).len() as int,
            ));
        }
        assert(dependency_invariant(fin)) by {
            assert forall|i: int| 0 <= i < fin.len() implies deps_ok(
                refs_of(fin),
                fin[i].dependencies@,
            ) by {
                if i < ol {
                    assert(fin[i] == old_installed[i]);
                    assert(deps_ok(refs_of(old_installed), old_installed[i].dependencies@));
                    assert forall|d: int|
                        0 <= d < fin[i].dependencies@.len() implies dep_ok(
                        refs_of(fin),
                        fin[i].dependencies@[d],
                    ) by {
                        lemma_dep_ok_prefix(
                            refs_of(old_installed),
                            avail,
                            fin[i].dependencies@[d],
                        );
                    }
                } else {
                    assert(fin[i] == newmods[i - ol]);
                    assert(fin[i].dependencies@ == entries[planned[i - ol] as int].dependencies@);
                    assert(deps_ok(avail, entries[planned[i - ol] as int].dependencies@));
                }
            }
        }
        assert(fin.subrange(0, ol) =~= old_installed);
        // The target is available at the resolved version, hence in the
        // committed table.
        assert(dep_ok(avail, target_dep));
        let w = choose|w: int|
            0 <= w < avail.len() && avail[w].ns == target_dep.namespace@ && avail[w].name
                == target_dep.name@ && satisfies(avail[w].version, target_dep.req);
        assert(refs_of(fin)[w] == fin[w].key());
        assert(installed_has(fin, namespace@, name@));
    }
    let addr = match account.find_installed(namespace, name) {
        Some(i) => {
            let a = account.installed[i].address;
            proof {
                let fin = account.installed@;
                let avail = avail_refs(entries, old_installed, planned);
                let w = choose|w: int|
                    0 <= w < avail.len() && avail[w].ns == target_dep.namespace@ && avail[w].name
                        == target_dep.name@ && satisfies(avail[w].version, target_dep.req);
                assert(refs_of(fin)[w] == fin[w].key());
                if w < i as int {
                    assert(!(fin[w].namespace@ == fin[i as int].namespace@ && fin[w].name@
                        == fin[i as int].name@));
                } else if w > i as int {
                    assert(!(fin[i as int].namespace@ == fin[w].namespace@ && fin[i as int].name@
                        == fin[w].name@));
                }
                assert(fin[i as int].version == target_version);
                assert(exists|j: int|
                    0 <= j < fin.len() && fin[j].namespace@ == namespace@ && fin[j].name@ == name@
                        && Some(fin[j].version) == spec_resolve(entries, namespace@, name@, *req)
                        && fin[j].address == a);
            }
            a
        },
        None => {
            proof {
                assert(false);
            }
            0
        },
    };
    Ok(addr)
}

/// The `namespace:name` label of a module, as error payloads carry it.
pub open spec fn mod_label(ns: Seq<char>, name: Seq<char>) -> Seq<char> {
    ns + ":"@ + name
}

/// Whether installed instance `m` declares a dependency on `ns:name`
/// while not being that module itself.
pub open spec fn is_dependent(m: InstalledModule, ns: Seq<char>, name: Seq<char>) -> bool {
    &&& !(m.namespace@ == ns && m.name@ == name)
    &&& exists|d: int|
        0 <= d < m.dependencies@.len() && m.dependencies@[d].namespace@ == ns
            && m.dependencies@[d].name@ == name
}

/// Whether any other installed instance depends on `ns:name`.
pub open spec fn has_dependent(s: Seq<InstalledModule>, ns: Seq<char>, name: Seq<char>) -> bool {
    exists|i: int| 0 <= i < s.len() && is_dependent(s[i], ns, name)
}

/// Every instance that depends on `ns:name` has its label listed in `l`.
pub open spec fn dependents_listed(
    s: Seq<InstalledModule>,
    ns: Seq<char>,
    name: Seq<char>,
    l: Seq<String>,
) -> bool {
    forall|i: int|
        0 <= i < s.len() && #[trigger] is_dependent(s[i], ns, name) ==> exists|k: int|
            0 <= k < l.len() && l[k]@ == mod_label(s[i].namespace@, s[i].name@)
}

/// The `namespace:name` label of an installed instance.
pub fn label_of(m: &InstalledModule) -> (r: String)
    ensures
        r@ == mod_label(m.namespace@, m.name@),
{
    let mut l = m.namespace.clone();
    l.append(":");
    l.append(m.name.as_str());
    l
}

/// Whether instance `m` would be left with an unsatisfiable declaration
/// if `ns:name` moved to version `v`: it is another module, and one of
/// its declarations on `ns:name` excludes `v`.
pub open spec fn blocks_upgrade(
    m: InstalledModule,
    ns: Seq<char>,
    name: Seq<char>,
    v: Version,
) -> bool {
    &&& !(m.namespace@ == ns && m.name@ == name)
    &&& exists|d: int|
        0 <= d < m.dependencies@.len() && m.dependencies@[d].namespace@ == ns
            && m.dependencies@[d].name@ == name && !satisfies(v, m.dependencies@[d].req)
}

/// Whether any installed instance blocks moving `ns:name` to `v`.
pub open spec fn has_blocking_dependent(
    s: Seq<InstalledModule>,
    ns: Seq<char>,
    name: Seq<char>,
    v: Version,
) -> bool {
    exists|i: int| 0 <= i < s.len() && blocks_upgrade(s[i], ns, name, v)
}

/// The labels of the instances whose declarations on `ns:name` exclude
/// version `v`.  Empty exactly when nothing blocks the upgrade.
#[verifier::rlimit(50)]
fn collect_blocking(installed: &Vec<InstalledModule>, namespace: &String, name: &String, v:
    &Version) -> (r: Vec<String>)
    ensures
        r@.len() > 0 <==> has_blocking_dependent(installed@, namespace@, name@, *v),
{
    let n = installed.len();
    let mut blockers: Vec<String> = Vec::new();
    let ghost mut some_src: int = 0;
    let mut k: usize = 0;
    while k < n
        invariant
            k <= n == installed@.len(),
            blockers@.len() == 0 ==> forall|t: int|
                0 <= t < k ==> !blocks_upgrade(installed@[t], namespace@, name@, *v),
            blockers@.len() > 0 ==> 0 <= some_src < installed@.len() && blocks_upgrade(
                installed@[some_src],
                namespace@,
                name@,
                *v,
            ),
        decreases n - k,
    {
        let m = &installed[k];
        let self_entry = m.namespace == *namespace && m.name == *name;
        if !self_entry {
            let dn = m.dependencies.len();
            let mut d: usize = 0;
            let mut hit: bool = false;
            while d < dn
                invariant
                    dn == m.dependencies@.len(),
                    d <= dn,
                    hit ==> exists|e: int|
                        0 <= e < m.dependencies@.len() && m.dependencies@[e].namespace@
                            == namespace@ && m.dependencies@[e].name@ == name@ && !satisfies(
                            *v,
                            m.dependencies@[e].req,
                        ),
                    !hit ==> forall|e: int|
                        0 <= e < d ==> !(m.dependencies@[e].namespace@ == namespace@
                            && m.dependencies@[e].name@ == name@ && !satisfies(
                            *v,
                            m.dependencies@[e].req,
                        )),
                decreases dn - d,
            {
                let dd = &m.dependencies[d];
                if dd.namespace == *namespace && dd.name == *name && !v.matches_req(&dd.req) {
                    hit = true;
                }
                d = d + 1;
            }
            if hit {
                blockers.push(label_of(m));
                proof {
                    some_src = k as int;
                    assert(blocks_upgrade(installed@[k as int], namespace@, name@, *v));
                }
            }
        }
        k = k + 1;
    }
    blockers
}

/// The labels of every other installed instance that declares a
/// dependency on `ns:name`.  Empty exactly when no dependent remains.
#[verifier::rlimit(50)]
fn collect_dependents(installed: &Vec<InstalledModule>, namespace: &String, name: &String) -> (r:
    Vec<String>)
    ensures
        dependents_listed(installed@, namespace@, name@, r@),
        r@.len() > 0 <==> has_dependent(installed@, namespace@, name@),
{
    let n = installed.len();
    let mut dependents: Vec<String> = Vec::new();
    let ghost mut some_src: int = 0;
    let mut k: usize = 0;
    while k < n
        invariant
            k <= n == installed@.len(),
            forall|t: int|
                0 <= t < k && #[trigger] is_dependent(installed@[t], namespace@, name@)
                    ==> exists|w: int|
                    0 <= w < dependents@.len() && dependents@[w]@ == mod_label(
                        installed@[t].namespace@,
                        installed@[t].name@,
                    ),
            dependents@.len() > 0 ==> 0 <= some_src < installed@.len() && is_dependent(
                installed@[some_src],
                namespace@,
                name@,
            ),
        decreases n - k,
    {
        let m = &installed[k];
        let self_entry = m.namespace == *namespace && m.name == *name;
        if !self_entry {
            let dn = m.dependencies.len();
            let mut d: usize = 0;
            let mut found: bool = false;
            while d < dn
                invariant
                    dn == m.dependencies@.len(),
                    d <= dn,
                    found ==> exists|e: int|
                        0 <= e < m.dependencies@.len() && m.dependencies@[e].namespace@
                            == namespace@ && m.dependencies@[e].name@ == name@,
                    !found ==> forall|e: int|
                        0 <= e < d ==> !(m.dependencies@[e].namespace@ == namespace@
                            && m.dependencies@[e].name@ == name@),
                decreases dn - d,
            {
                let dd = &m.dependencies[d];
                if dd.namespace == *namespace && dd.name == *name {
                    found = true;
                }
                d = d + 1;
            }
            if found {
                let ghost pre = dependents@;
                dependents.push(label_of(m));
                proof {
                    some_src = k as int;
                    assert forall|w: int| 0 <= w < pre.len() implies dependents@[w] == pre[w] by {}
                    assert(is_dependent(installed@[k as int], namespace@, name@));
                    assert(dependents@[pre.len() as int]@ == mod_label(
                        installed@[k as int].namespace@,
                        installed@[k as int].name@,
                    ));
                }
            }
        }
        k = k + 1;
    }
    proof {
        if has_dependent(installed@, namespace@, name@) {
            let t = choose|t: int|
                0 <= t < installed@.len() && is_dependent(installed@[t], namespace@, name@);
            assert(exists|w: int|
                0 <= w < dependents@.len() && dependents@[w]@ == mod_label(
                    installed@[t].namespace@,
                    installed@[t].name@,
                ));
        }
    }
    dependents
}

/// Uninstall `ns:name`: remove its record, unless another installed
/// instance still depends on it — the dependency invariant is re-checked
/// so that no remaining instance is left with an unsatisfied declaration.
pub fn uninstall(account: &mut Account, caller: &String, namespace: &String, name: &String) -> (r:
    Result<(), ManagerError>)
    requires
        old(account).wf(),
    ensures
        final(account).suspended == old(account).suspended,
        final(account).ownership == old(account).ownership,
        r is Err ==> final(account).installed@ == old(account).installed@,
        (r is Err && r->Err_0 is Unauthorized) <==> (caller@ != old(account).ownership.owner@
            || old(account).suspended),
        (r is Err && r->Err_0 is ModuleNotFound) <==> (caller@ == old(account).ownership.owner@
            && !old(account).suspended && !installed_has(
            old(account).installed@,
            namespace@,
            name@,
        )),
        (r is Err && r->Err_0 is DependentModulesPresent) <==> (caller@ == old(account).ownership.owner@ && !old(account).suspended && installed_has(
            old(account).installed@,
            namespace@,
            name@,
        ) && has_dependent(old(account).installed@, namespace@, name@)),
        r is Err && r->Err_0 is DependentModulesPresent ==> dependents_listed(
            old(account).installed@,
            namespace@,
            name@,
            r->Err_0->DependentModulesPresent_dependents@,
        ),
        r is Ok <==> (caller@ == old(account).ownership.owner@ && !old(account).suspended
            && installed_has(old(account).installed@, namespace@, name@) && !has_dependent(
            old(account).installed@,
            namespace@,
            name@,
        )),
        r is Ok ==> final(account).wf() && !installed_has(
            final(account).installed@,
            namespace@,
            name@,
        ) && (exists|i: int|
            0 <= i < old(account).installed@.len() && old(account).installed@[i].namespace@
                == namespace@ && old(account).installed@[i].name@ == name@ && final(account).installed@ == old(account).installed@.remove(i)),
{
    if account.suspended {
        return Err(ManagerError::Unauthorized);
    }
    if !account.ownership.is_owner(caller) {
        return Err(ManagerError::Unauthorized);
    }
    let idx = match account.find_installed(namespace, name) {
        Some(i) => i,
        None => {
            return Err(
                ManagerError::ModuleNotFound { namespace: namespace.clone(), name: name.clone() },
            );
        },
    };
    let dependents = collect_dependents(&account.installed, namespace, name);
    if dependents.len() > 0 {
        return Err(ManagerError::DependentModulesPresent { dependents });
    }
    let ghost pre = account.installed@;
    account.installed.remove(idx);
    proof {
        lemma_uninstall_keeps_wf(pre, idx as int, namespace@, name@);
    }
    Ok(())
}

/// Removing a module nobody depends on keeps both standing invariants,
/// and leaves no instance of its name behind.
proof fn lemma_uninstall_keeps_wf(pre: Seq<InstalledModule>, ix: int, ns: Seq<char>, name: Seq<
    char,
>)
    requires
        0 <= ix < pre.len(),
        singleton_per_name(pre),
        dependency_invariant(pre),
        pre[ix].namespace@ == ns,
        pre[ix].name@ == name,
        !has_dependent(pre, ns, name),
    ensures
        singleton_per_name(pre.remove(ix)),
        dependency_invariant(pre.remove(ix)),
        !installed_has(pre.remove(ix), ns, name),
{
    let post = pre.remove(ix);
    assert forall|i2: int| 0 <= i2 < post.len() implies post[i2] == (if i2 < ix {
        pre[i2]
    } else {
        pre[i2 + 1]
    }) by {}
    assert(singleton_per_name(post)) by {
        assert forall|i: int, j: int| 0 <= i < j < post.len() implies !(post[i].namespace@
            == post[j].namespace@ && post[i].name@ == post[j].name@) by {
            let i0 = if i < ix {
                i
            } else {
                i + 1
            };
            let j0 = if j < ix {
                j
            } else {
                j + 1
            };
            assert(post[i] == pre[i0] && post[j] == pre[j0]);
        }
    }
    assert forall|i2: int| 0 <= i2 < post.len() implies !(post[i2].namespace@ == ns
        && post[i2].name@ == name) by {
        let i0 = if i2 < ix {
            i2
        } else {
            i2 + 1
        };
        assert(post[i2] == pre[i0]);
        if i0 != ix && post[i2].namespace@ == ns && post[i2].name@ == name {
            if i0 < ix {
                assert(!(pre[i0].namespace@ == pre[ix].namespace@ && pre[i0].name@
                    == pre[ix].name@));
            } else {
                assert(!(pre[ix].namespace@ == pre[i0].namespace@ && pre[ix].name@
                    == pre[i0].name@));
            }
        }
    }
    assert(dependency_invariant(post)) by {
        assert forall|i2: int| 0 <= i2 < post.len() implies deps_ok(
            refs_of(post),
            post[i2].dependencies@,
        ) by {
            let i0 = if i2 < ix {
                i2
            } else {
                i2 + 1
            };
            assert(post[i2] == pre[i0]);
            assert(deps_ok(refs_of(pre), pre[i0].dependencies@));
            assert forall|d: int| 0 <= d < post[i2].dependencies@.len() implies dep_ok(
                refs_of(post),
                post[i2].dependencies@[d],
            ) by {
                let dep = pre[i0].dependencies@[d];
                assert(dep_ok(refs_of(pre), dep));
                let w = choose|w: int|
                    0 <= w < refs_of(pre).len() && refs_of(pre)[w].ns == dep.namespace@
                        && refs_of(pre)[w].name == dep.name@ && satisfies(
                        refs_of(pre)[w].version,
                        dep.req,
                    );
                assert(refs_of(pre)[w] == pre[w].key());
                if w == ix {
                    assert(is_dependent(pre[i0], ns, name)) by {
                        if i0 < ix {
                            assert(!(pre[i0].namespace@ == pre[ix].namespace@ && pre[i0].name@
                                == pre[ix].name@));
                        } else {
                            assert(!(pre[ix].namespace@ == pre[i0].namespace@ && pre[ix].name@
                                == pre[i0].name@));
                        }
                    }
                    assert(false);
                } else {
                    let w2 = if w < ix {
                        w
                    } else {
                        w - 1
                    };
                    assert(post[w2] == pre[w]);
                    assert(refs_of(post)[w2] == post[w2].key());
                }
            }
        }
    }
}

impl InstalledModule {
    /// A copy equal to `self` field by field.
    pub fn dup(&self) -> (r: InstalledModule)
        ensures
            r.namespace@ == self.namespace@,
            r.name@ == self.name@,
            r.version == self.version,
            r.address == self.address,
            r.code_id == self.code_id,
            r.dependencies@ == self.dependencies@,
    {
        InstalledModule {
            namespace: self.namespace.clone(),
            name: self.name.clone(),
            version: self.version,
            address: self.address,
            code_id: self.code_id,
            dependencies: dup_deps(&self.dependencies),
        }
    }
}

/// Committing an upgrade keeps both standing invariants: the target is
/// replaced in place at the new version, newly planned dependencies are
/// appended, and no remaining declaration is left unsatisfied.
#[verifier::rlimit(80)]
proof fn lemma_upgrade_commit(
    entries: Seq<RegistryEntry>,
    pre: Seq<InstalledModule>,
    working: Seq<InstalledModule>,
    plan: Seq<usize>,
    news: Seq<InstalledModule>,
    ix: int,
    newmod: InstalledModule,
    ns: Seq<char>,
    name: Seq<char>,
    newv: Version,
)
    requires
        0 <= ix < pre.len(),
        singleton_per_name(pre),
        dependency_invariant(pre),
        pre[ix].namespace@ == ns,
        pre[ix].name@ == name,
        working.len() == pre.len(),
        forall|j: int|
            0 <= j < pre.len() && j != ix ==> working[j].namespace@ == pre[j].namespace@
                && working[j].name@ == pre[j].name@ && working[j].version == pre[j].version,
        working[ix].namespace@ == ns && working[ix].name@ == name && working[ix].version == newv,
        newmod.namespace@ == ns,
        newmod.name@ == name,
        newmod.version == newv,
        news.len() == plan.len(),
        forall|q: int|
            0 <= q < plan.len() ==> news[q].namespace@ == entries[plan[q] as int].namespace@
                && news[q].name@ == entries[plan[q] as int].name@ && news[q].version == entries[
                plan[q] as int
            ].version && news[q].dependencies@ == entries[plan[q] as int].dependencies@,
        plan_wf(entries, working, plan, Seq::<ModKey>::empty()),
        plan_closed(entries, working, plan),
        deps_ok(avail_refs(entries, working, plan), newmod.dependencies@),
        forall|i: int| 0 <= i < pre.len() ==> !blocks_upgrade(pre[i], ns, name, newv),
    ensures
        singleton_per_name(pre.update(ix, newmod) + news),
        dependency_invariant(pre.update(ix, newmod) + news),
{
    let repl = pre.update(ix, newmod);
    let fin = repl + news;
    let ol = pre.len() as int;
    let wavail = avail_refs(entries, working, plan);
    assert forall|i: int| 0 <= i < fin.len() implies fin[i] == (if i < ol {
        repl[i]
    } else {
        news[i - ol]
    }) by {}
    assert(refs_of(fin) =~= wavail) by {
        assert forall|i: int| 0 <= i < fin.len() implies refs_of(fin)[i] == wavail[i] by {
            assert(refs_of(fin)[i] == fin[i].key());
            if i < ol {
                assert(refs_of(working)[i] == working[i].key());
            } else {
                assert(plan_refs(entries, plan)[i - ol] == entry_ref(entries[plan[i - ol] as int]));
            }
        }
    }
    assert(singleton_per_name(fin)) by {
        assert forall|i: int, j: int| 0 <= i < j < fin.len() implies !(fin[i].namespace@
            == fin[j].namespace@ && fin[i].name@ == fin[j].name@) by {
            if j < ol {
                assert(pre[i].namespace@ == fin[i].namespace@ && pre[i].name@ == fin[i].name@);
                assert(pre[j].namespace@ == fin[j].namespace@ && pre[j].name@ == fin[j].name@);
            } else if i < ol {
                assert(fin[i].namespace@ == working[i].namespace@ && fin[i].name@
                    == working[i].name@);
                assert(fin[j] == news[j - ol]);
            } else {
                assert(fin[i] == news[i - ol]);
                assert(fin[j] == news[j - ol]);
            }
        }
    }
    assert(dependency_invariant(fin)) by {
        assert forall|i: int| 0 <= i < fin.len() implies deps_ok(
            refs_of(fin),
            fin[i].dependencies@,
        ) by {
            if i >= ol {
                assert(fin[i] == news[i - ol]);
                assert(deps_ok(wavail, entries[plan[i - ol] as int].dependencies@));
            } else if i == ix {
                assert(fin[i] == newmod);
                assert(deps_ok(wavail, newmod.dependencies@));
            } else {
                assert(fin[i] == pre[i]);
                assert(deps_ok(refs_of(pre), pre[i].dependencies@));
                assert forall|d: int| 0 <= d < fin[i].dependencies@.len() implies dep_ok(
                    refs_of(fin),
                    fin[i].dependencies@[d],
                ) by {
                    let dep = pre[i].dependencies@[d];
                    assert(dep_ok(refs_of(pre), dep));
                    let w = choose|w: int|
                        0 <= w < refs_of(pre).len() && refs_of(pre)[w].ns == dep.namespace@
                            && refs_of(pre)[w].name == dep.name@ && satisfies(
                            refs_of(pre)[w].version,
                            dep.req,
                        );
                    assert(refs_of(pre)[w] == pre[w].key());
                    if w == ix {
                        // The declaration targets the upgraded module;
                        // nothing blocks the upgrade, so the new version
                        // still satisfies it.
                        assert(!blocks_upgrade(pre[i], ns, name, newv));
                        assert(!(pre[i].namespace@ == ns && pre[i].name@ == name)) by {
                            if i < ix {
                                assert(!(pre[i].namespace@ == pre[ix].namespace@ && pre[i].name@
                                    == pre[ix].name@));
                            } else {
                                assert(!(pre[ix].namespace@ == pre[i].namespace@ && pre[ix].name@
                                    == pre[i].name@));
                            }
                        }
                        assert(satisfies(newv, dep.req));
                        assert(refs_of(fin)[ix] == fin[ix].key());
                        assert(fin[ix] == newmod);
                    } else {
                        assert(refs_of(fin)[w] == fin[w].key());
                        assert(fin[w] == pre[w]);
                    }
                }
            }
        }
    }
}

/// Upgrade `ns:name` in place: resolve the target version, re-validate
/// its declarations against the installed set (new dependencies are
/// installed transitively; dropped ones are left orphaned, not removed),
/// re-check every remaining dependent against the new version, and
/// migrate the existing instance to the new code at the same address.
/// Any failure leaves the account and the factory unchanged.
pub fn upgrade(
    account: &mut Account,
    registry: &Registry,
    factory: &mut ModuleFactory,
    caller: &String,
    namespace: &String,
    name: &String,
    req: &VersionReq,
) -> (r: Result<u64, ManagerError>)
    requires
        old(account).wf(),
        registry.wf(),
    ensures
        final(account).suspended == old(account).suspended,
        final(account).ownership == old(account).ownership,
        final(factory).broken_code_ids@ == old(factory).broken_code_ids@,
        r is Err ==> final(account).installed@ == old(account).installed@ && final(factory).next_address == old(factory).next_address,
        (r is Err && r->Err_0 is Unauthorized) <==> (caller@ != old(account).ownership.owner@
            || old(account).suspended),
        (r is Err && r->Err_0 is ModuleNotFound) <==> (caller@ == old(account).ownership.owner@
            && !old(account).suspended && (!installed_has(
            old(account).installed@,
            namespace@,
            name@,
        ) || spec_resolve(registry.entries@, namespace@, name@, *req) is None)),
        (r is Err && r->Err_0 is DependentModulesPresent) <==> (caller@ == old(account).ownership.owner@ && !old(account).suspended && installed_has(
            old(account).installed@,
            namespace@,
            name@,
        ) && spec_resolve(registry.entries@, namespace@, name@, *req) is Some
            && has_blocking_dependent(
            old(account).installed@,
            namespace@,
            name@,
            spec_resolve(registry.entries@, namespace@, name@, *req)->0,
        )),
        r is Ok ==> final(account).wf() && caller@ == old(account).ownership.owner@ && !old(account).suspended && final(account).installed@.len() >= old(account).installed@.len() && (exists|
            i: int,
        |
            0 <= i < old(account).installed@.len() && old(account).installed@[i].namespace@
                == namespace@ && old(account).installed@[i].name@ == name@ && final(account).installed@[i].namespace@ == namespace@ && final(account).installed@[i].name@ == name@
                && Some(final(account).installed@[i].version) == spec_resolve(
                registry.entries@,
                namespace@,
                name@,
                *req,
            ) && final(account).installed@[i].address == old(account).installed@[i].address
                && final(account).installed@[i].address == r->Ok_0 && (forall|j: int|
                0 <= j < old(account).installed@.len() && j != i ==> final(account).installed@[j]
                    == old(account).installed@[j])),
        // Success is owed at least for an authorized upgrade of an
        // installed module to a dependency-free resolved version that
        // the platform accepts, with no blocking dependent.
        ({
            &&& caller@ == old(account).ownership.owner@
            &&& !old(account).suspended
            &&& installed_has(old(account).installed@, namespace@, name@)
            &&& (exists|k: int|
                0 <= k < registry.entries@.len() && entry_matches(
                    #[trigger] registry.entries@[k],
                    namespace@,
                    name@,
                ) && Some(registry.entries@[k].version) == spec_resolve(
                    registry.entries@,
                    namespace@,
                    name@,
                    *req,
                ) && registry.entries@[k].dependencies@.len() == 0
                    && !old(factory).broken_code_ids@.contains(registry.entries@[k].code_id))
            &&& !has_blocking_dependent(
                old(account).installed@,
                namespace@,
                name@,
                spec_resolve(registry.entries@, namespace@, name@, *req)->0,
            )
        }) ==> r is Ok,
{
    let ghost entries = registry.entries@;
    if account.suspended {
        return Err(ManagerError::Unauthorized);
    }
    if !account.ownership.is_owner(caller) {
        return Err(ManagerError::Unauthorized);
    }
    let idx = match account.find_installed(namespace, name) {
        Some(i) => i,
        None => {
            return Err(
                ManagerError::ModuleNotFound { namespace: namespace.clone(), name: name.clone() },
            );
        },
    };
    let bt = match registry.resolve_index(namespace, name, req) {
        Some(b) => b,
        None => {
            return Err(
                ManagerError::ModuleNotFound { namespace: namespace.clone(), name: name.clone() },
            );
        },
    };
    let newv = registry.entries[bt].version;
    // No remaining dependent may be left with an unsatisfiable
    // declaration by the version change.
    let blockers = collect_blocking(&account.installed, namespace, name, &newv);
    if blockers.len() > 0 {
        return Err(ManagerError::DependentModulesPresent { dependents: blockers });
    }
    // Re-validate the new version's declarations against the installed
    // set as it will stand after the upgrade: a scratch table with the
    // target already at the new version.
    let n = account.installed.len();
    let mut working: Vec<InstalledModule> = Vec::new();
    let mut k: usize = 0;
    while k < n
        invariant
            *account == *old(account),
            k <= n == account.installed@.len(),
            idx < n,
            account.installed@[idx as int].namespace@ == namespace@,
            account.installed@[idx as int].name@ == name@,
            (bt as int) < entries.len(),
            entries == registry.entries@,
            newv == entries[bt as int].version,
            entry_matches(entries[bt as int], namespace@, name@),
            working@.len() == k,
            forall|j: int|
                0 <= j < k && j != idx ==> working@[j].namespace@ == account.installed@[j].namespace@
                    && working@[j].name@ == account.installed@[j].name@ && working@[j].version
                    == account.installed@[j].version,
            k > idx ==> working@[idx as int].namespace@ == namespace@ && working@[idx as int].name@
                == name@ && working@[idx as int].version == newv,
        decreases n - k,
    {
        if k == idx {
            let e2 = &registry.entries[bt];
            let stub = InstalledModule {
                namespace: e2.namespace.clone(),
                name: e2.name.clone(),
                version: e2.version,
                address: account.installed[k].address,
                code_id: e2.code_id,
                dependencies: dup_deps(&e2.dependencies),
            };
            working.push(stub);
        } else {
            let copy = account.installed[k].dup();
            working.push(copy);
        }
        k = k + 1;
    }
    // Plan the new version's declarations, transitively.
    let mut plan: Vec<usize> = Vec::new();
    let mut in_progress: Vec<ModKey> = Vec::new();
    let fuel = registry.entries.len();
    let dn = registry.entries[bt].dependencies.len();
    let mut j: usize = 0;
    while j < dn
        invariant
            *account == *old(account),
            registry.wf(),
            entries == registry.entries@,
            caller@ == old(account).ownership.owner@,
            !old(account).suspended,
            installed_has(old(account).installed@, namespace@, name@),
            spec_resolve(entries, namespace@, name@, *req) == Some(newv),
            !has_blocking_dependent(old(account).installed@, namespace@, name@, newv),
            (bt as int) < entries.len(),
            dn == entries[bt as int].dependencies@.len(),
            newv == entries[bt as int].version,
            entry_matches(entries[bt as int], namespace@, name@),
            j <= dn,
            j == 0 ==> plan@.len() == 0,
            in_progress@ == Seq::<ModKey>::empty(),
            plan_wf(entries, working@, plan@, in_progress@),
            plan_closed(entries, working@, plan@),
            forall|d: int|
                0 <= d < j ==> dep_ok(
                    avail_refs(entries, working@, plan@),
                    entries[bt as int].dependencies@[d],
                ),
        decreases dn - j,
    {
        let ghost plan_before = plan@;
        match plan_dep(
            registry,
            &working,
            &mut plan,
            &mut in_progress,
            &registry.entries[bt].dependencies[j],
            fuel,
        ) {
            Ok(()) => {},
            Err(e) => {
                proof {
                    if exists|k: int|
                        0 <= k < entries.len() && entry_matches(
                            #[trigger] entries[k],
                            namespace@,
                            name@,
                        ) && Some(entries[k].version) == spec_resolve(
                            entries,
                            namespace@,
                            name@,
                            *req,
                        ) && entries[k].dependencies@.len() == 0 {
                        let k = choose|k: int|
                            0 <= k < entries.len() && entry_matches(
                                #[trigger] entries[k],
                                namespace@,
                                name@,
                            ) && Some(entries[k].version) == spec_resolve(
                                entries,
                                namespace@,
                                name@,
                                *req,
                            ) && entries[k].dependencies@.len() == 0;
                        lemma_resolved_entry_unique(entries, namespace@, name@, k, bt as int);
                        assert(false);
                    }
                }
                return Err(e);
            },
        }
        proof {
            lemma_avail_prefix(entries, working@, plan_before, plan@);
            assert forall|d: int| 0 <= d < j + 1 implies dep_ok(
                avail_refs(entries, working@, plan@),
                entries[bt as int].dependencies@[d],
            ) by {
                if d < j {
                    lemma_dep_ok_prefix(
                        avail_refs(entries, working@, plan_before),
                        avail_refs(entries, working@, plan@),
                        entries[bt as int].dependencies@[d],
                    );
                }
            }
        }
        j = j + 1;
    }
    proof {
        if exists|k: int|
            0 <= k < entries.len() && entry_matches(#[trigger] entries[k], namespace@, name@)
                && Some(entries[k].version) == spec_resolve(entries, namespace@, name@, *req)
                && entries[k].dependencies@.len() == 0 {
            let k = choose|k: int|
                0 <= k < entries.len() && entry_matches(#[trigger] entries[k], namespace@, name@)
                    && Some(entries[k].version) == spec_resolve(entries, namespace@, name@, *req)
                    && entries[k].dependencies@.len() == 0;
            lemma_resolved_entry_unique(entries, namespace@, name@, k, bt as int);
            assert(dn == 0);
            assert(plan@.len() == 0);
            if !old(factory).broken_code_ids@.contains(entries[k].code_id) {
                assert(!old(factory).broken_code_ids@.contains(entries[bt as int].code_id));
            }
        }
    }
    // Instantiate the newly required dependencies, then migrate the
    // existing instance in place; on failure the factory snapshot is
    // restored and the installed table is untouched.
    let snapshot = factory.next_address;
    let mut news = match instantiate_plan(registry, factory, &plan) {
        Ok(v) => v,
        Err(err) => {
            return Err(err);
        },
    };
    let address = account.installed[idx].address;
    let newcode = registry.entries[bt].code_id;
    match factory.migrate(address, newcode) {
        Ok(()) => {},
        Err(err) => {
            factory.rollback(snapshot);
            return Err(err);
        },
    }
    let e2 = &registry.entries[bt];
    let newmod = InstalledModule {
        namespace: e2.namespace.clone(),
        name: e2.name.clone(),
        version: e2.version,
        address,
        code_id: e2.code_id,
        dependencies: dup_deps(&e2.dependencies),
    };
    let ghost pre = account.installed@;
    let ghost planned = plan@;
    let ghost newmods = news@;
    let ghost wk = working@;
    let ghost nm = newmod;
    vec_set(&mut account.installed, idx, newmod);
    account.installed.append(&mut news);
    proof {
        assert(account.installed@ == pre.update(idx as int, nm) + newmods);
        assert forall|i2: int| 0 <= i2 < pre.len() implies !blocks_upgrade(
            pre[i2],
            namespace@,
            name@,
            newv,
        ) by {}
        lemma_upgrade_commit(
            entries,
            pre,
            wk,
            planned,
            newmods,
            idx as int,
            nm,
            namespace@,
            name@,
            newv,
        );
        assert forall|j2: int| 0 <= j2 < pre.len() && j2 != idx as int implies account.installed@[j2]
            == pre[j2] by {}
    }
    Ok(address)
}

/// One row of the installed-module listing: namespace+name mapped to
/// instance address and active version.
pub struct InstalledSummary {
    pub namespace: String,
    pub name: String,
    pub version: Version,
    pub address: u64,
}

impl Account {
    /// The mapping namespace+name -> (instance address, active version),
    /// in table order.
    pub fn list_installed(&self) -> (r: Vec<InstalledSummary>)
        ensures
            r@.len() == self.installed@.len(),
            forall|i: int|
                0 <= i < r@.len() ==> r@[i].namespace@ == self.installed@[i].namespace@
                    && r@[i].name@ == self.installed@[i].name@ && r@[i].version
                    == self.installed@[i].version && r@[i].address == self.installed@[i].address,
    {
        let n = self.installed.len();
        let mut out: Vec<InstalledSummary> = Vec::new();
        let mut k: usize = 0;
        while k < n
            invariant
                k <= n == self.installed@.len(),
                out@.len() == k,
                forall|i: int|
                    0 <= i < k ==> out@[i].namespace@ == self.installed@[i].namespace@
                        && out@[i].name@ == self.installed@[i].name@ && out@[i].version
                        == self.installed@[i].version && out@[i].address
                        == self.installed@[i].address,
            decreases n - k,
        {
            let m = &self.installed[k];
            out.push(
                InstalledSummary {
                    namespace: m.namespace.clone(),
                    name: m.name.clone(),
                    version: m.version,
                    address: m.address,
                },
            );
            k = k + 1;
        }
        out
    }

    /// Propose transferring the account to `new_owner` (two-phase:
    /// the proposal takes effect only on acceptance before expiry).
    pub fn transfer_ownership(&mut self, caller: &String, new_owner: String, expiry: Option<
        u64,
    >) -> (r: Result<(), ManagerError>)
        ensures
            final(self).installed@ == old(self).installed@,
            final(self).suspended == old(self).suspended,
            final(self).ownership.owner == old(self).ownership.owner,
            r is Ok <==> caller@ == old(self).ownership.owner@,
            r is Ok ==> final(self).ownership.pending == Some(
                (crate::ownership::PendingTransfer { new_owner, expiry }),
            ),
            r is Err ==> *final(self) == *old(self) && r->Err_0 is Unauthorized,
    {
        match self.ownership.propose(caller, new_owner, expiry) {
            Ok(()) => Ok(()),
            Err(_) => Err(ManagerError::Unauthorized),
        }
    }

    /// Accept a pending transfer at block-time `now`; the caller becomes
    /// the owner exactly when it is the designated new owner and the
    /// proposal has not expired.
    pub fn accept_ownership(&mut self, caller: &String, now: u64) -> (r: Result<(), ManagerError>)
        ensures
            final(self).installed@ == old(self).installed@,
            final(self).suspended == old(self).suspended,
            r is Ok <==> (old(self).ownership.pending is Some && !crate::ownership::transfer_expired(
                old(self).ownership.pending->0,
                now,
            ) && caller@ == old(self).ownership.pending->0.new_owner@),
            r is Ok ==> final(self).ownership.owner == old(self).ownership.pending->0.new_owner
                && final(self).ownership.pending is None,
            r is Err ==> *final(self) == *old(self),
            (r is Err && r->Err_0 is NoPendingTransfer) <==> old(self).ownership.pending is None,
            (r is Err && r->Err_0 is TransferExpired) <==> (old(self).ownership.pending is Some
                && crate::ownership::transfer_expired(old(self).ownership.pending->0, now)),
    {
        match self.ownership.accept(caller, now) {
            Ok(()) => Ok(()),
            Err(OwnershipError::NoPendingTransfer) => Err(ManagerError::NoPendingTransfer),
            Err(OwnershipError::TransferExpired) => Err(ManagerError::TransferExpired),
            Err(_) => Err(ManagerError::Unauthorized),
        }
    }

    /// Cancel a pending transfer; only the current owner may cancel.
    pub fn cancel_transfer(&mut self, caller: &String) -> (r: Result<(), ManagerError>)
        ensures
            final(self).installed@ == old(self).installed@,
            final(self).suspended == old(self).suspended,
            final(self).ownership.owner == old(self).ownership.owner,
            r is Ok <==> caller@ == old(self).ownership.owner@,
            r is Ok ==> final(self).ownership.pending is None,
            r is Err ==> *final(self) == *old(self) && r->Err_0 is Unauthorized,
    {
        match self.ownership.cancel(caller) {
            Ok(()) => Ok(()),
            Err(_) => Err(ManagerError::Unauthorized),
        }
    }
}

} // verus!
