//! The warranty record itself, its lifecycle flag, and the error kinds the
//! registry's operations can report.

use vstd::prelude::*;

verus! {

/// Lifecycle flag stored on a record.
///
/// It is a snapshot written by the mutating operations, not a live function
/// of the clock: a record may still read `Active` after its expiration time
/// has passed, until an explicit status update overwrites it.
#[derive(Clone, Copy, Debug, PartialEq, Eq, Structural)]
pub enum WarrantyStatus {
    Active,
    Expired,
    Revoked,
}

/// Why a registry operation rejected a call. Every rejection leaves the
/// registry exactly as it was.
#[derive(Clone, Copy, Debug, PartialEq, Eq, Structural)]
pub enum Error {
    /// The expiration date is not after the purchase date.
    InvalidDateRange,
    /// The purchase date is after the current time.
    FutureDated,
    /// The caller is not the identity the operation requires.
    Unauthorized,
    /// The referenced id is not in the registry.
    NotFound,
    /// A storage backend's primary map was never created. The in-memory
    /// registry starts empty and reports `NotFound` instead; the kind is
    /// part of the error surface for stores where the map can be absent.
    StorageUninitialized,
    /// A transfer was attempted on a record that is not `Active`.
    InvalidTransfer,
}

/// One warranty: a coverage window, the free-text product fields, the owner,
/// and the stored lifecycle flag.
#[derive(Clone, Debug, PartialEq, Eq)]
pub struct WarrantyData {
    /// Positive, unique, assigned once at registration, never reused.
    pub id: u64,
    /// Current owner's identity; changes only through a transfer.
    pub owner: u64,
    pub product_name: String,
    pub serial_number: String,
    pub manufacturer: String,
    /// Unix timestamp; always before `expiration_date`.
    pub purchase_date: u64,
    /// Unix timestamp; always after `purchase_date`.
    pub expiration_date: u64,
    pub status: WarrantyStatus,
    /// Clock reading at registration, immutable.
    pub created_at: u64,
}

impl WarrantyData {
    /// `self` with its status replaced and every other field kept.
    pub open spec fn with_status(self, status: WarrantyStatus) -> WarrantyData {
        WarrantyData {
            id: self.id,
            owner: self.owner,
            product_name: self.product_name,
            serial_number: self.serial_number,
            manufacturer: self.manufacturer,
            purchase_date: self.purchase_date,
            expiration_date: self.expiration_date,
            status,
            created_at: self.created_at,
        }
    }

    /// `self` with its owner replaced and every other field kept.
    pub open spec fn with_owner(self, owner: u64) -> WarrantyData {
        WarrantyData {
            id: self.id,
            owner,
            product_name: self.product_name,
            serial_number: self.serial_number,
            manufacturer: self.manufacturer,
            purchase_date: self.purchase_date,
            expiration_date: self.expiration_date,
            status: self.status,
            created_at: self.created_at,
        }
    }

    /// An owned copy, equal to `self` field for field.
    pub fn duplicate(&self) -> (r: WarrantyData)
        ensures
            r == *self,
    {
        WarrantyData {
            id: self.id,
            owner: self.owner,
            product_name: self.product_name.clone(),
            serial_number: self.serial_number.clone(),
            manufacturer: self.manufacturer.clone(),
            purchase_date: self.purchase_date,
            expiration_date: self.expiration_date,
            status: self.status,
            created_at: self.created_at,
        }
    }
}

} // verus!
