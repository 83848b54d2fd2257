//! The module factory: given a code identifier, it asks the host
//! platform to instantiate a new module program and returns the new
//! instance's address.
//!
//! The platform itself is modelled, not run: addresses come from a
//! monotone counter, and the set of code identifiers whose instantiation
//! (or migration) the platform rejects is held explicitly, so that a
//! caller's behaviour is specified for both outcomes.  A failed call
//! leaves no partial state behind; the enclosing transaction's rollback
//! is modelled by [`ModuleFactory::rollback`].

use vstd::prelude::*;
use crate::error::ManagerError;

verus! {

/// The stateless factory: an address allocator plus the modelled set of
/// code identifiers the platform fails on.
pub struct ModuleFactory {
    pub next_address: u64,
    pub broken_code_ids: Vec<u64>,
}

/// Whether the platform rejects instantiation or migration of `code_id`.
pub open spec fn code_broken(f: ModuleFactory, code_id: u64) -> bool {
    f.broken_code_ids@.contains(code_id)
}

impl ModuleFactory {
    /// A fresh factory: addresses start at `first_address`, and the
    /// platform fails on the listed code identifiers.
    pub fn new(first_address: u64, broken_code_ids: Vec<u64>) -> (r: ModuleFactory)
        ensures
            r.next_address == first_address,
            r.broken_code_ids@ == broken_code_ids@,
    {
        ModuleFactory { next_address: first_address, broken_code_ids }
    }

    /// Whether the platform fails on `code_id`.
    pub fn is_broken(&self, code_id: u64) -> (r: bool)
        ensures
            r == code_broken(*self, code_id),
    {
        let n = self.broken_code_ids.len();
        let mut k: usize = 0;
        while k < n
            invariant
                k <= n == self.broken_code_ids@.len(),
                forall|t: int| 0 <= t < k ==> self.broken_code_ids@[t] != code_id,
            decreases n - k,
        {
            if self.broken_code_ids[k] == code_id {
                return true;
            }
            k = k + 1;
        }
        false
    }

    /// Instantiate a new program from `code_id`, scoped to the
    /// requesting account.  One atomic platform call: either a fresh
    /// address comes back, or the failure is propagated and no state is
    /// left behind.
    pub fn instantiate(&mut self, code_id: u64) -> (r: Result<u64, ManagerError>)
        ensures
            final(self).broken_code_ids@ == old(self).broken_code_ids@,
            match r {
                Ok(addr) => !code_broken(*old(self), code_id) && old(self).next_address
                    < u64::MAX && addr == old(self).next_address && final(self).next_address
                    == old(self).next_address + 1,
                Err(e) => (code_broken(*old(self), code_id) || old(self).next_address
                    == u64::MAX) && *final(self) == *old(self) && e == (
                ManagerError::InstantiationFailed { code_id }),
            },
    {
        if self.next_address == u64::MAX || self.is_broken(code_id) {
            return Err(ManagerError::InstantiationFailed { code_id });
        }
        let addr = self.next_address;
        self.next_address = addr + 1;
        Ok(addr)
    }

    /// Ask the existing instance at `address` to migrate to `new_code_id`.
    /// The instance keeps its address; on failure the prior code stays
    /// active.
    pub fn migrate(&mut self, address: u64, new_code_id: u64) -> (r: Result<(), ManagerError>)
        ensures
            *final(self) == *old(self),
            match r {
                Ok(()) => !code_broken(*old(self), new_code_id),
                Err(e) => code_broken(*old(self), new_code_id) && e == (
                ManagerError::MigrationFailed { code_id: new_code_id }),
            },
    {
        if self.is_broken(new_code_id) {
            return Err(ManagerError::MigrationFailed { code_id: new_code_id });
        }
        Ok(())
    }

    /// Roll the address counter back to a snapshot, as the platform's
    /// transaction rollback does when an enclosing call aborts.
    pub fn rollback(&mut self, snapshot: u64)
        ensures
            final(self).next_address == snapshot,
            final(self).broken_code_ids@ == old(self).broken_code_ids@,
    {
        self.next_address = snapshot;
    }
}

} // verus!
