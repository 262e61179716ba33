//! One concrete check per stated guarantee of the registry: id allocation,
//! the initial-status rule, expiry against the clock, index maintenance on
//! transfer, idempotent revocation, and every error kind.

use warranty_tracker::Error;
use warranty_tracker::WarrantyStatus;
use warranty_tracker::WarrantyTracker;

const T0: u64 = 1704067200;
const DAY: u64 = 86400;
const YEAR: u64 = 31536000;

fn register_simple(tracker: &mut WarrantyTracker, owner: u64, now: u64) -> Result<u64, Error> {
    tracker.register_warranty(
        owner,
        owner,
        "Product".to_string(),
        "SN".to_string(),
        "Maker".to_string(),
        T0,
        now + YEAR,
        now,
    )
}

#[test]
fn test_ids_start_at_one_and_increment() {
    let mut tracker = WarrantyTracker::new();
    let now = T0 + DAY;
    assert_eq!(register_simple(&mut tracker, 1, now), Ok(1));
    assert_eq!(register_simple(&mut tracker, 2, now), Ok(2));
    assert_eq!(register_simple(&mut tracker, 1, now), Ok(3));
    assert_eq!(tracker.get_warranty_count(), 3);
}

#[test]
fn test_failed_registration_consumes_no_id() {
    let mut tracker = WarrantyTracker::new();
    let now = T0 + DAY;
    assert_eq!(register_simple(&mut tracker, 1, now), Ok(1));
    // future-dated purchase: rejected, and the next id is still 2
    let rejected = tracker.register_warranty(
        1,
        1,
        "Product".to_string(),
        "SN".to_string(),
        "Maker".to_string(),
        now + DAY,
        now + YEAR,
        now,
    );
    assert_eq!(rejected, Err(Error::FutureDated));
    assert_eq!(tracker.get_warranty_count(), 1);
    assert_eq!(register_simple(&mut tracker, 1, now), Ok(2));
}

#[test]
fn test_initial_status_rule() {
    let mut tracker = WarrantyTracker::new();
    let now = T0 + YEAR;
    // expiration before now: Expired at creation
    let expired = tracker
        .register_warranty(
            1,
            1,
            "Old".to_string(),
            "SN1".to_string(),
            "Maker".to_string(),
            T0,
            T0 + DAY,
            now,
        )
        .unwrap();
    assert_eq!(
        tracker.get_warranty(expired).unwrap().status,
        WarrantyStatus::Expired
    );
    // expiration exactly now: not yet past, so Active
    let boundary = tracker
        .register_warranty(
            1,
            1,
            "Edge".to_string(),
            "SN2".to_string(),
            "Maker".to_string(),
            T0,
            now,
            now,
        )
        .unwrap();
    assert_eq!(
        tracker.get_warranty(boundary).unwrap().status,
        WarrantyStatus::Active
    );
}

#[test]
fn test_expiry_ignores_stored_status() {
    let mut tracker = WarrantyTracker::new();
    let now = T0 + DAY;
    let expiration = now + YEAR;
    let id = tracker
        .register_warranty(
            1,
            1,
            "Product".to_string(),
            "SN".to_string(),
            "Maker".to_string(),
            T0,
            expiration,
            now,
        )
        .unwrap();
    // stored status says Expired, but the clock has not reached the
    // expiration date: not expired
    tracker.update_status(1, id, WarrantyStatus::Expired).unwrap();
    assert!(!tracker.is_warranty_expired(id, now));
    // stored status says Active, but the expiration date has passed: expired
    tracker.update_status(1, id, WarrantyStatus::Active).unwrap();
    assert!(tracker.is_warranty_expired(id, expiration + 1));
    // revocation does not change the answer either
    tracker.revoke_warranty(1, id).unwrap();
    assert!(!tracker.is_warranty_expired(id, now));
    assert!(tracker.is_warranty_expired(id, expiration + 1));
}

#[test]
fn test_transfer_moves_exactly_one_id() {
    let mut tracker = WarrantyTracker::new();
    let now = T0 + DAY;
    let first = register_simple(&mut tracker, 1, now).unwrap();
    let second = register_simple(&mut tracker, 1, now).unwrap();
    tracker.transfer_ownership(1, first, 2).unwrap();
    // each side's list changed by exactly one entry
    assert_eq!(tracker.get_warranties_by_owner(1), vec![second]);
    assert_eq!(tracker.get_warranties_by_owner(2), vec![first]);
}

#[test]
fn test_transfer_to_self_keeps_one_occurrence() {
    let mut tracker = WarrantyTracker::new();
    let now = T0 + DAY;
    let first = register_simple(&mut tracker, 1, now).unwrap();
    let second = register_simple(&mut tracker, 1, now).unwrap();
    // the id leaves its place in the list and is appended again at the end
    tracker.transfer_ownership(1, first, 1).unwrap();
    assert_eq!(tracker.get_warranties_by_owner(1), vec![second, first]);
}

#[test]
fn test_revoke_twice_is_idempotent() {
    let mut tracker = WarrantyTracker::new();
    let now = T0 + DAY;
    let id = register_simple(&mut tracker, 1, now).unwrap();
    assert_eq!(tracker.revoke_warranty(1, id), Ok(()));
    assert_eq!(
        tracker.get_warranty(id).unwrap().status,
        WarrantyStatus::Revoked
    );
    // a second revoke succeeds again and leaves the status Revoked
    assert_eq!(tracker.revoke_warranty(1, id), Ok(()));
    assert_eq!(
        tracker.get_warranty(id).unwrap().status,
        WarrantyStatus::Revoked
    );
}

#[test]
fn test_revoke_overwrites_any_status() {
    let mut tracker = WarrantyTracker::new();
    let now = T0 + DAY;
    let id = register_simple(&mut tracker, 1, now).unwrap();
    tracker.update_status(1, id, WarrantyStatus::Expired).unwrap();
    tracker.revoke_warranty(1, id).unwrap();
    assert_eq!(
        tracker.get_warranty(id).unwrap().status,
        WarrantyStatus::Revoked
    );
}

#[test]
fn test_update_status_has_no_transition_rule() {
    let mut tracker = WarrantyTracker::new();
    let now = T0 + DAY;
    let id = register_simple(&mut tracker, 1, now).unwrap();
    // any status may replace any other, even Expired back to Active
    tracker.update_status(1, id, WarrantyStatus::Expired).unwrap();
    tracker.update_status(1, id, WarrantyStatus::Active).unwrap();
    assert_eq!(
        tracker.get_warranty(id).unwrap().status,
        WarrantyStatus::Active
    );
}

#[test]
fn test_list_by_owner_unknown_is_empty() {
    let mut tracker = WarrantyTracker::new();
    assert_eq!(tracker.get_warranties_by_owner(42), Vec::<u64>::new());
    let now = T0 + DAY;
    register_simple(&mut tracker, 1, now).unwrap();
    assert_eq!(tracker.get_warranties_by_owner(42), Vec::<u64>::new());
}

#[test]
fn test_registration_order_is_kept_per_owner() {
    let mut tracker = WarrantyTracker::new();
    let now = T0 + DAY;
    let a1 = register_simple(&mut tracker, 1, now).unwrap();
    let a2 = register_simple(&mut tracker, 1, now).unwrap();
    let b1 = register_simple(&mut tracker, 2, now).unwrap();
    assert_eq!(tracker.get_warranties_by_owner(1), vec![a1, a2]);
    assert_eq!(tracker.get_warranties_by_owner(2), vec![b1]);
}

#[test]
fn test_register_unauthorized() {
    let mut tracker = WarrantyTracker::new();
    let now = T0 + DAY;
    let result = tracker.register_warranty(
        7,
        1,
        "Product".to_string(),
        "SN".to_string(),
        "Maker".to_string(),
        T0,
        now + YEAR,
        now,
    );
    assert_eq!(result, Err(Error::Unauthorized));
    assert_eq!(tracker.get_warranty_count(), 0);
}

#[test]
fn test_update_status_errors() {
    let mut tracker = WarrantyTracker::new();
    let now = T0 + DAY;
    assert_eq!(
        tracker.update_status(1, 1, WarrantyStatus::Expired),
        Err(Error::NotFound)
    );
    let id = register_simple(&mut tracker, 1, now).unwrap();
    assert_eq!(
        tracker.update_status(9, id, WarrantyStatus::Expired),
        Err(Error::Unauthorized)
    );
    assert_eq!(
        tracker.get_warranty(id).unwrap().status,
        WarrantyStatus::Active
    );
}

#[test]
fn test_transfer_errors() {
    let mut tracker = WarrantyTracker::new();
    let now = T0 + DAY;
    assert_eq!(tracker.transfer_ownership(1, 1, 2), Err(Error::NotFound));
    let id = register_simple(&mut tracker, 1, now).unwrap();
    assert_eq!(tracker.transfer_ownership(9, id, 2), Err(Error::Unauthorized));
    assert_eq!(tracker.get_warranty(id).unwrap().owner, 1);
}

#[test]
fn test_revoke_errors() {
    let mut tracker = WarrantyTracker::new();
    let now = T0 + DAY;
    assert_eq!(tracker.revoke_warranty(1, 1), Err(Error::NotFound));
    let id = register_simple(&mut tracker, 1, now).unwrap();
    assert_eq!(tracker.revoke_warranty(9, id), Err(Error::Unauthorized));
    assert_eq!(
        tracker.get_warranty(id).unwrap().status,
        WarrantyStatus::Active
    );
}

#[test]
fn test_get_warranty_absent() {
    let mut tracker = WarrantyTracker::new();
    assert_eq!(tracker.get_warranty(0), None);
    assert_eq!(tracker.get_warranty(1), None);
    let now = T0 + DAY;
    let id = register_simple(&mut tracker, 1, now).unwrap();
    assert!(tracker.get_warranty(id).is_some());
    assert_eq!(tracker.get_warranty(id + 1), None);
}

#[test]
fn test_record_fields_are_stored_verbatim() {
    let mut tracker = WarrantyTracker::new();
    let now = T0 + DAY;
    let id = tracker
        .register_warranty(
            5,
            5,
            "Camera".to_string(),
            "SN-9".to_string(),
            "LensCo".to_string(),
            T0,
            now + YEAR,
            now,
        )
        .unwrap();
    let warranty = tracker.get_warranty(id).unwrap();
    assert_eq!(warranty.id, id);
    assert_eq!(warranty.owner, 5);
    assert_eq!(warranty.product_name, "Camera".to_string());
    assert_eq!(warranty.serial_number, "SN-9".to_string());
    assert_eq!(warranty.manufacturer, "LensCo".to_string());
    assert_eq!(warranty.purchase_date, T0);
    assert_eq!(warranty.expiration_date, now + YEAR);
    assert_eq!(warranty.created_at, now);
}
