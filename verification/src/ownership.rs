//! Two-phase ownership transfer with expiry.
//!
//! Every mutating entity (registry, account) has exactly one current owner
//! and optionally one pending owner.  A transfer is proposed by the owner
//! and becomes effective only when the new owner accepts it before the
//! proposal's expiry, measured against the platform's block-time oracle at
//! call time.

use vstd::prelude::*;

verus! {

/// A proposed transfer: the designated new owner and an optional
/// block-time after which acceptance fails.
#[derive(Clone, Debug, PartialEq)]
pub struct PendingTransfer {
    pub new_owner: String,
    pub expiry: Option<u64>,
}

/// The ownership record of a registry or an account.
#[derive(Clone, Debug, PartialEq)]
pub struct Ownership {
    pub owner: String,
    pub pending: Option<PendingTransfer>,
}

/// Failures of the ownership protocol.
#[derive(Clone, Copy, Debug, PartialEq, Eq, Structural)]
pub enum OwnershipError {
    /// The caller is not the current owner.
    NotOwner,
    /// The caller is not the designated new owner.
    NotPendingOwner,
    /// No transfer is pending.
    NoPendingTransfer,
    /// The pending transfer's expiry has passed.
    TransferExpired,
}

/// Whether a pending transfer can no longer be accepted at block-time `now`.
pub open spec fn transfer_expired(p: PendingTransfer, now: u64) -> bool {
    match p.expiry {
        Some(t) => now >= t,
        None => false,
    }
}

impl Ownership {
    /// A fresh record: `owner` owns, nothing is pending.
    pub fn new(owner: String) -> (r: Ownership)
        ensures
            r.owner == owner,
            r.pending is None,
    {
        Ownership { owner, pending: None }
    }

    /// Whether `caller` is the current owner.
    pub fn is_owner(&self, caller: &String) -> (r: bool)
        ensures
            r == (caller@ == self.owner@),
    {
        *caller == self.owner
    }

    /// Propose transferring ownership to `new_owner`.  Only the current
    /// owner may propose; the owner itself does not change.
    pub fn propose(&mut self, caller: &String, new_owner: String, expiry: Option<u64>) -> (r:
        Result<(), OwnershipError>)
        ensures
            final(self).owner == old(self).owner,
            r is Ok <==> caller@ == old(self).owner@,
            r is Ok ==> final(self).pending == Some((PendingTransfer { new_owner, expiry })),
            r is Err ==> *final(self) == *old(self) && r->Err_0 == OwnershipError::NotOwner,
    {
        if *caller == self.owner {
            self.pending = Some(PendingTransfer { new_owner, expiry });
            Ok(())
        } else {
            Err(OwnershipError::NotOwner)
        }
    }

    /// Accept a pending transfer at block-time `now`.  Succeeds exactly
    /// when a transfer is pending, unexpired, and `caller` is its
    /// designated new owner; the caller then becomes the owner.
    pub fn accept(&mut self, caller: &String, now: u64) -> (r: Result<(), OwnershipError>)
        ensures
            r is Ok <==> (old(self).pending is Some && !transfer_expired(old(self).pending->0, now)
                && caller@ == old(self).pending->0.new_owner@),
            r is Ok ==> final(self).owner == old(self).pending->0.new_owner
                && final(self).pending is None,
            r is Err ==> *final(self) == *old(self),
            r == Err::<(), OwnershipError>(OwnershipError::NoPendingTransfer)
                <==> old(self).pending is None,
            r == Err::<(), OwnershipError>(OwnershipError::TransferExpired)
                <==> (old(self).pending is Some && transfer_expired(old(self).pending->0, now)),
    {
        let expired = match &self.pending {
            Some(p) => {
                match p.expiry {
                    Some(t) => now >= t,
                    None => false,
                }
            },
            None => {
                return Err(OwnershipError::NoPendingTransfer);
            },
        };
        if expired {
            return Err(OwnershipError::TransferExpired);
        }
        let designated = match &self.pending {
            Some(p) => p.new_owner.clone(),
            None => {
                return Err(OwnershipError::NoPendingTransfer);
            },
        };
        if *caller == designated {
            self.owner = designated;
            self.pending = None;
            Ok(())
        } else {
            Err(OwnershipError::NotPendingOwner)
        }
    }

    /// Cancel a pending transfer.  Only the current owner may cancel.
    pub fn cancel(&mut self, caller: &String) -> (r: Result<(), OwnershipError>)
        ensures
            final(self).owner == old(self).owner,
            r is Ok <==> caller@ == old(self).owner@,
            r is Ok ==> final(self).pending is None,
            r is Err ==> *final(self) == *old(self) && r->Err_0 == OwnershipError::NotOwner,
    {
        if *caller == self.owner {
            self.pending = None;
            Ok(())
        } else {
            Err(OwnershipError::NotOwner)
        }
    }
}

} // verus!
