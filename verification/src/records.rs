//! Versioned shapes of a stored asset record, and the pure per-record
//! translations between them.
//!
//! Identities (owner, issuer, admin, freezer) and balances are plain
//! integers; counters are 32-bit. The oldest shape keeps frozenness as a
//! boolean flag; the newest keeps a tri-state status and wraps every
//! identity in an always-populated option when a record is migrated forward.

use vstd::prelude::*;

verus! {

/// Tri-state frozen status of the newest record shape.
#[derive(Clone, Copy, PartialEq, Eq, Debug)]
pub enum AssetStatus {
    Live,
    Frozen,
    Destroying,
}

/// Oldest record shape: required identities, boolean frozen flag.
#[derive(Clone, Copy, PartialEq, Eq, Debug)]
pub struct AssetDetailsV0 {
    pub owner: u64,
    pub issuer: u64,
    pub admin: u64,
    pub freezer: u64,
    pub supply: u64,
    pub deposit: u64,
    pub min_balance: u64,
    pub is_sufficient: bool,
    pub accounts: u32,
    pub sufficients: u32,
    pub approvals: u32,
    pub is_frozen: bool,
}

/// Intermediate record shape: required identities, tri-state status.
#[derive(Clone, Copy, PartialEq, Eq, Debug)]
pub struct AssetDetailsV1 {
    pub owner: u64,
    pub issuer: u64,
    pub admin: u64,
    pub freezer: u64,
    pub supply: u64,
    pub deposit: u64,
    pub min_balance: u64,
    pub is_sufficient: bool,
    pub accounts: u32,
    pub sufficients: u32,
    pub approvals: u32,
    pub status: AssetStatus,
}

/// Newest record shape: optional identities, tri-state status.
#[derive(Clone, Copy, PartialEq, Eq, Debug)]
pub struct AssetDetails {
    pub owner: Option<u64>,
    pub issuer: Option<u64>,
    pub admin: Option<u64>,
    pub freezer: Option<u64>,
    pub supply: u64,
    pub deposit: u64,
    pub min_balance: u64,
    pub is_sufficient: bool,
    pub accounts: u32,
    pub sufficients: u32,
    pub approvals: u32,
    pub status: AssetStatus,
}

/// What migrating an oldest-shape record forward yields: the boolean frozen
/// flag collapses to Frozen/Live, every identity becomes a present option,
/// and every other field carries over unchanged.
pub open spec fn spec_migrate_v0(d: AssetDetailsV0) -> AssetDetails {
    AssetDetails {
        owner: Some(d.owner),
        issuer: Some(d.issuer),
        admin: Some(d.admin),
        freezer: Some(d.freezer),
        supply: d.supply,
        deposit: d.deposit,
        min_balance: d.min_balance,
        is_sufficient: d.is_sufficient,
        accounts: d.accounts,
        sufficients: d.sufficients,
        approvals: d.approvals,
        status: if d.is_frozen { AssetStatus::Frozen } else { AssetStatus::Live },
    }
}

/// What migrating an intermediate-shape record forward yields: the status
/// passes through unchanged, every identity becomes a present option, and
/// every other field carries over unchanged.
pub open spec fn spec_migrate_v1(d: AssetDetailsV1) -> AssetDetails {
    AssetDetails {
        owner: Some(d.owner),
        issuer: Some(d.issuer),
        admin: Some(d.admin),
        freezer: Some(d.freezer),
        supply: d.supply,
        deposit: d.deposit,
        min_balance: d.min_balance,
        is_sufficient: d.is_sufficient,
        accounts: d.accounts,
        sufficients: d.sufficients,
        approvals: d.approvals,
        status: d.status,
    }
}

impl AssetDetailsV0 {
    /// Translates one oldest-shape record to the newest shape.
    pub fn migrate_from_v0_to_v2(self) -> (r: AssetDetails)
        ensures
            r == spec_migrate_v0(self),
    {
        let status = if self.is_frozen { AssetStatus::Frozen } else { AssetStatus::Live };
        AssetDetails {
            owner: Some(self.owner),
            issuer: Some(self.issuer),
            admin: Some(self.admin),
            freezer: Some(self.freezer),
            supply: self.supply,
            deposit: self.deposit,
            min_balance: self.min_balance,
            is_sufficient: self.is_sufficient,
            accounts: self.accounts,
            sufficients: self.sufficients,
            approvals: self.approvals,
            status,
        }
    }
}

impl AssetDetailsV1 {
    /// Translates one intermediate-shape record to the newest shape.
    pub fn migrate_from_v1_to_v2(self) -> (r: AssetDetails)
        ensures
            r == spec_migrate_v1(self),
    {
        AssetDetails {
            owner: Some(self.owner),
            issuer: Some(self.issuer),
            admin: Some(self.admin),
            freezer: Some(self.freezer),
            supply: self.supply,
            deposit: self.deposit,
            min_balance: self.min_balance,
            is_sufficient: self.is_sufficient,
            accounts: self.accounts,
            sufficients: self.sufficients,
            approvals: self.approvals,
            status: self.status,
        }
    }
}

} // verus!
