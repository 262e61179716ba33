//! The warranty registry: the record store, the owner index and the id
//! allocator, with the validation, authorization and status-lifecycle rules
//! of every operation.
//!
//! Ids are dense: the record with id `n` sits at position `n - 1` of the
//! record store, so the allocator's count is the store's length and the next
//! id is always `count + 1`.

use vstd::prelude::*;

use crate::index::OwnerEntry;
use crate::index::find_slot;
use crate::index::has_owner;
use crate::index::ids_held;
use crate::index::lemma_contains_push;
use crate::index::lemma_contains_without;
use crate::index::lemma_occurrences_contains;
use crate::index::lemma_occurrences_push;
use crate::index::lemma_occurrences_without;
use crate::index::lemma_push_entry;
use crate::index::lemma_slot_at;
use crate::index::lemma_update_slot;
use crate::index::lemma_without_push;
use crate::index::occurrences;
use crate::index::owner_slot;
use crate::index::owners_unique;
use crate::index::without_id;
use crate::records::Error;
use crate::records::WarrantyData;
use crate::records::WarrantyStatus;

verus! {

/// The registry's persisted state: records by id, and the owner index.
pub struct WarrantyTracker {
    /// The record with id `n` is at position `n - 1`; records are never
    /// removed, so the length is the count of warranties ever registered.
    pub records: Vec<WarrantyData>,
    /// Per-owner id lists, in insertion order, one entry per owner.
    pub owner_index: Vec<OwnerEntry>,
}

impl WarrantyTracker {
    /// Whether `id` names a registered warranty.
    pub open spec fn has_id(self, id: u64) -> bool {
        1 <= id && id <= self.records@.len()
    }

    /// The record registered under `id`.
    pub open spec fn record_at(self, id: u64) -> WarrantyData
        recommends
            self.has_id(id),
    {
        self.records@[id as int - 1]
    }

    /// The ids `owner` currently holds, in insertion order.
    pub open spec fn ids_of(self, owner: u64) -> Seq<u64> {
        ids_held(self.owner_index@, owner)
    }

    /// Whether the record under `id` counts as expired against the clock
    /// reading `now` — a function of the stored expiration date and the
    /// clock alone, never of the stored status.
    pub open spec fn expired_at(self, id: u64, now: u64) -> bool
        recommends
            self.has_id(id),
    {
        self.record_at(id).expiration_date < now
    }

    /// The id list `o` holds after the record under `id` moves from its
    /// current owner to `new_owner`: the id leaves its old owner's list
    /// with the order of the rest kept, and is appended to the new owner's
    /// list — which are the same list when the owner transfers to itself.
    pub open spec fn ids_after_transfer(self, id: u64, new_owner: u64, o: u64) -> Seq<u64>
        recommends
            self.has_id(id),
    {
        let prev = self.record_at(id).owner;
        if o == new_owner {
            (if o == prev {
                without_id(self.ids_of(o), id)
            } else {
                self.ids_of(o)
            }).push(id)
        } else if o == prev {
            without_id(self.ids_of(o), id)
        } else {
            self.ids_of(o)
        }
    }

    /// The registry's invariant: ids are dense and start at 1, every stored
    /// coverage window is non-empty, and the owner index lists an id under
    /// exactly the owner its record names, exactly once.
    pub open spec fn wf(self) -> bool {
        &&& self.records@.len() <= u64::MAX
        &&& (forall|i: int|
            0 <= i < self.records@.len() ==> (#[trigger] self.records@[i]).id == i + 1)
        &&& (forall|i: int|
            0 <= i < self.records@.len() ==> (#[trigger] self.records@[i]).purchase_date
                < self.records@[i].expiration_date)
        &&& owners_unique(self.owner_index@)
        &&& (forall|j: int, x: u64|
            0 <= j < self.owner_index@.len() && (#[trigger] self.owner_index@[j].ids@.contains(x))
                ==> self.has_id(x) && self.records@[x as int - 1].owner
                == self.owner_index@[j].owner)
        &&& (forall|j: int, x: u64|
            0 <= j < self.owner_index@.len() ==> #[trigger] occurrences(
                self.owner_index@[j].ids@,
                x,
            ) <= 1)
        &&& (forall|i: int|
            0 <= i < self.records@.len() ==> self.ids_of(
                (#[trigger] self.records@[i]).owner,
            ).contains((i + 1) as u64))
    }

    /// An empty registry: no records, no index entries, count 0.
    pub fn new() -> (r: WarrantyTracker)
        ensures
            r.wf(),
            r.records@.len() == 0,
            r.owner_index@.len() == 0,
    {
        WarrantyTracker { records: Vec::new(), owner_index: Vec::new() }
    }

    /// The count of warranties ever registered; the next id is this plus 1.
    pub fn get_warranty_count(&self) -> (r: u64)
        requires
            self.records@.len() <= u64::MAX,
        ensures
            r == self.records@.len(),
    {
        self.records.len() as u64
    }

    /// The record under `id`, or `None` when no such warranty was ever
    /// registered — absence is an answer here, not an error.
    pub fn get_warranty(&self, id: u64) -> (r: Option<WarrantyData>)
        ensures
            r == if self.has_id(id) {
                Some(self.record_at(id))
            } else {
                None::<WarrantyData>
            },
    {
        let n = self.records.len();
        if 1 <= id && id <= n as u64 {
            Some(self.records[(id - 1) as usize].duplicate())
        } else {
            None
        }
    }

    /// Whether the record under `id` is expired against the clock reading
    /// `now`: its expiration date has passed, whatever its stored status
    /// says. The record must exist; absence is a caller's error, not a
    /// recoverable condition.
    pub fn is_warranty_expired(&self, id: u64, now: u64) -> (r: bool)
        requires
            self.has_id(id),
        ensures
            r == self.expired_at(id, now),
    {
        let n = self.records.len();
        proof {
            assert(id - 1 < n);
        }
        self.records[(id - 1) as usize].expiration_date < now
    }

    /// Register a new warranty for `owner` and hand back its id, the count
    /// of warranties ever registered plus one. The caller must be the named
    /// owner; the coverage window must be non-empty and must not start in
    /// the future. The initial status is `Expired` when the expiration date
    /// already lies before `now`, else `Active`. A rejected call leaves the
    /// registry untouched and consumes no id.
    pub fn register_warranty(
        &mut self,
        caller: u64,
        owner: u64,
        product_name: String,
        serial_number: String,
        manufacturer: String,
        purchase_date: u64,
        expiration_date: u64,
        now: u64,
    ) -> (r: Result<u64, Error>)
        requires
            old(self).wf(),
            old(self).records@.len() < u64::MAX,
        ensures
            final(self).wf(),
            r == Err::<u64, Error>(Error::Unauthorized) <==> caller != owner,
            r == Err::<u64, Error>(Error::InvalidDateRange) <==> caller == owner
                && expiration_date <= purchase_date,
            r == Err::<u64, Error>(Error::FutureDated) <==> caller == owner && expiration_date
                > purchase_date && purchase_date > now,
            r.is_ok() <==> caller == owner && expiration_date > purchase_date && purchase_date
                <= now,
            r.is_err() ==> *final(self) == *old(self),
            r.is_ok() ==> r == Ok::<u64, Error>((old(self).records@.len() + 1) as u64),
            r.is_ok() ==> final(self).records@ == old(self).records@.push(
                (WarrantyData {
                    id: (old(self).records@.len() + 1) as u64,
                    owner,
                    product_name,
                    serial_number,
                    manufacturer,
                    purchase_date,
                    expiration_date,
                    status: if expiration_date < now {
                        WarrantyStatus::Expired
                    } else {
                        WarrantyStatus::Active
                    },
                    created_at: now,
                }),
            ),
            r.is_ok() ==> final(self).ids_of(owner) == old(self).ids_of(owner).push(
                (old(self).records@.len() + 1) as u64,
            ),
            r.is_ok() ==> forall|o: u64|
                o != owner ==> #[trigger] final(self).ids_of(o) == old(self).ids_of(o),
    {
        if caller != owner {
            return Err(Error::Unauthorized);
        }
        if expiration_date <= purchase_date {
            return Err(Error::InvalidDateRange);
        }
        if purchase_date > now {
            return Err(Error::FutureDated);
        }
        let id = self.records.len() as u64 + 1;
        let status = if expiration_date < now {
            WarrantyStatus::Expired
        } else {
            WarrantyStatus::Active
        };
        let record = WarrantyData {
            id,
            owner,
            product_name,
            serial_number,
            manufacturer,
            purchase_date,
            expiration_date,
            status,
            created_at: now,
        };
        let ghost new_rec = record;
        self.records.push(record);
        let ghost entries0 = self.owner_index@;
        match find_slot(&self.owner_index, owner) {
            Some(i) => {
                proof {
                    lemma_slot_at(entries0, owner, i as int);
                }
                let ghost old_ids = self.owner_index@[i as int].ids@;
                self.owner_index[i].ids.push(id);
                proof {
                    let e1 = self.owner_index@[i as int];
                    assert(e1.owner == owner);
                    assert(e1.ids@ == old_ids.push(id));
                    assert(self.owner_index@ == entries0.update(i as int, e1));
                    lemma_update_slot(entries0, i as int, e1);
                }
            },
            None => {
                let mut ids: Vec<u64> = Vec::new();
                ids.push(id);
                self.owner_index.push(OwnerEntry { owner, ids });
                proof {
                    let e1 = self.owner_index@[entries0.len() as int];
                    assert(e1.owner == owner);
                    assert(e1.ids@ == Seq::<u64>::empty().push(id));
                    assert(self.owner_index@ == entries0.push(e1));
                    lemma_push_entry(entries0, e1);
                    assert(ids_held(entries0, owner) == Seq::<u64>::empty());
                    assert(ids_held(self.owner_index@, owner) == ids_held(entries0, owner).push(
                        id,
                    ));
                }
            },
        }
        proof {
            lemma_register_wf(*old(self), *self, new_rec);
        }
        Ok(id)
    }

    /// Overwrite the stored status of the record under `id` with `status`,
    /// unconditionally: any status may replace any other, and no transition
    /// rule is enforced here. Only the record's current owner may do it.
    pub fn update_status(&mut self, caller: u64, id: u64, status: WarrantyStatus) -> (r: Result<
        (),
        Error,
    >)
        requires
            old(self).wf(),
        ensures
            final(self).wf(),
            r == Err::<(), Error>(Error::NotFound) <==> !old(self).has_id(id),
            r == Err::<(), Error>(Error::Unauthorized) <==> old(self).has_id(id) && caller != old(
                self,
            ).record_at(id).owner,
            r.is_ok() <==> old(self).has_id(id) && caller == old(self).record_at(id).owner,
            r.is_err() ==> *final(self) == *old(self),
            r.is_ok() ==> final(self).records@ == old(self).records@.update(
                id as int - 1,
                old(self).record_at(id).with_status(status),
            ),
            r.is_ok() ==> final(self).owner_index == old(self).owner_index,
    {
        let n = self.records.len();
        if !(1 <= id && id <= n as u64) {
            return Err(Error::NotFound);
        }
        let idx = (id - 1) as usize;
        if self.records[idx].owner != caller {
            return Err(Error::Unauthorized);
        }
        self.records[idx].status = status;
        proof {
            assert(self.records@ =~= old(self).records@.update(
                id as int - 1,
                old(self).record_at(id).with_status(status),
            ));
            lemma_status_update_wf(*old(self), *self, id, status);
        }
        Ok(())
    }

    /// Move the record under `id` to `new_owner`. Only the record's current
    /// owner may transfer it, and only while its stored status is `Active`:
    /// expired and revoked warranties cannot change hands. On success the
    /// record's owner field, the old owner's list and the new owner's list
    /// change together; on any rejection nothing changes.
    pub fn transfer_ownership(&mut self, caller: u64, id: u64, new_owner: u64) -> (r: Result<
        (),
        Error,
    >)
        requires
            old(self).wf(),
        ensures
            final(self).wf(),
            r == Err::<(), Error>(Error::NotFound) <==> !old(self).has_id(id),
            r == Err::<(), Error>(Error::Unauthorized) <==> old(self).has_id(id) && caller != old(
                self,
            ).record_at(id).owner,
            r == Err::<(), Error>(Error::InvalidTransfer) <==> old(self).has_id(id) && caller
                == old(self).record_at(id).owner && old(self).record_at(id).status
                != WarrantyStatus::Active,
            r.is_ok() <==> old(self).has_id(id) && caller == old(self).record_at(id).owner && old(
                self,
            ).record_at(id).status == WarrantyStatus::Active,
            r.is_err() ==> *final(self) == *old(self),
            r.is_ok() ==> final(self).records@ == old(self).records@.update(
                id as int - 1,
                old(self).record_at(id).with_owner(new_owner),
            ),
            r.is_ok() ==> forall|o: u64|
                #[trigger] final(self).ids_of(o) == old(self).ids_after_transfer(id, new_owner, o),
    {
        let n = self.records.len();
        if !(1 <= id && id <= n as u64) {
            return Err(Error::NotFound);
        }
        let idx = (id - 1) as usize;
        if self.records[idx].owner != caller {
            return Err(Error::Unauthorized);
        }
        if self.records[idx].status != WarrantyStatus::Active {
            return Err(Error::InvalidTransfer);
        }
        let ghost pre = *old(self);
        let prev = self.records[idx].owner;
        self.records[idx].owner = new_owner;
        proof {
            assert(self.records@ =~= pre.records@.update(
                id as int - 1,
                pre.record_at(id).with_owner(new_owner),
            ));
        }
        let ghost entries0 = self.owner_index@;
        let oi: usize = match find_slot(&self.owner_index, prev) {
            Some(i) => i,
            None => {
                proof {
                    assert(pre.ids_of(prev).contains(id));
                    assert(has_owner(entries0, prev));
                    assert(false);
                }
                0
            },
        };
        proof {
            lemma_slot_at(entries0, prev, oi as int);
        }
        let ghost old_ids = entries0[oi as int].ids@;
        let mut kept: Vec<u64> = Vec::new();
        let mut m: usize = 0;
        while m < self.owner_index[oi].ids.len()
            invariant
                oi < self.owner_index@.len(),
                self.owner_index@ == entries0,
                old_ids == entries0[oi as int].ids@,
                m <= old_ids.len(),
                kept@ == without_id(old_ids.take(m as int), id),
            decreases old_ids.len() - m,
        {
            let v = self.owner_index[oi].ids[m];
            proof {
                assert(old_ids.take(m as int + 1) =~= old_ids.take(m as int).push(v));
                lemma_without_push(old_ids.take(m as int), v, id);
            }
            if v != id {
                kept.push(v);
            }
            m = m + 1;
        }
        proof {
            assert(old_ids.take(old_ids.len() as int) =~= old_ids);
            assert(kept@ == without_id(old_ids, id));
        }
        self.owner_index[oi].ids = kept;
        let ghost entries1 = self.owner_index@;
        proof {
            let e1 = entries1[oi as int];
            assert(e1.owner == prev);
            assert(e1.ids@ == without_id(old_ids, id));
            assert(entries1 == entries0.update(oi as int, e1));
            lemma_update_slot(entries0, oi as int, e1);
            assert(forall|k: int|
                0 <= k < entries1.len() ==> (#[trigger] entries1[k].owner) == entries0[k].owner);
        }
        match find_slot(&self.owner_index, new_owner) {
            Some(j) => {
                proof {
                    lemma_slot_at(entries1, new_owner, j as int);
                    if new_owner == prev {
                        assert(j as int == oi as int);
                    }
                }
                let ghost mid_ids = entries1[j as int].ids@;
                self.owner_index[j].ids.push(id);
                proof {
                    let e2 = self.owner_index@[j as int];
                    assert(e2.owner == new_owner);
                    assert(e2.ids@ == mid_ids.push(id));
                    assert(self.owner_index@ == entries1.update(j as int, e2));
                    lemma_update_slot(entries1, j as int, e2);
                }
            },
            None => {
                let mut ids: Vec<u64> = Vec::new();
                ids.push(id);
                self.owner_index.push(OwnerEntry { owner: new_owner, ids });
                proof {
                    let e2 = self.owner_index@[entries1.len() as int];
                    assert(e2.owner == new_owner);
                    assert(e2.ids@ == Seq::<u64>::empty().push(id));
                    assert(self.owner_index@ == entries1.push(e2));
                    lemma_push_entry(entries1, e2);
                    assert(new_owner != prev);
                    assert(!has_owner(entries0, new_owner)) by {
                        if has_owner(entries0, new_owner) {
                            let k = owner_slot(entries0, new_owner);
                            assert(entries1[k].owner == new_owner);
                        }
                    }
                    assert(ids_held(entries0, new_owner) == Seq::<u64>::empty());
                }
            },
        }
        proof {
            assert forall|o: u64| #[trigger] ids_held(self.owner_index@, o)
                == pre.ids_after_transfer(id, new_owner, o) by {
                if o == new_owner {
                } else if o == prev {
                    assert(ids_held(self.owner_index@, o) == ids_held(entries1, o));
                    assert(ids_held(entries1, o) == without_id(old_ids, id));
                } else {
                    assert(ids_held(self.owner_index@, o) == ids_held(entries1, o));
                    assert(ids_held(entries1, o) == ids_held(entries0, o));
                }
            }
            lemma_transfer_wf(pre, *self, id, new_owner);
        }
        Ok(())
    }

    /// Unconditionally set the status of the record under `id` to
    /// `Revoked`, whatever it was before; revoking an already revoked
    /// record succeeds and changes nothing. Only the record's current owner
    /// may do it.
    pub fn revoke_warranty(&mut self, caller: u64, id: u64) -> (r: Result<(), Error>)
        requires
            old(self).wf(),
        ensures
            final(self).wf(),
            r == Err::<(), Error>(Error::NotFound) <==> !old(self).has_id(id),
            r == Err::<(), Error>(Error::Unauthorized) <==> old(self).has_id(id) && caller != old(
                self,
            ).record_at(id).owner,
            r.is_ok() <==> old(self).has_id(id) && caller == old(self).record_at(id).owner,
            r.is_err() ==> *final(self) == *old(self),
            r.is_ok() ==> final(self).records@ == old(self).records@.update(
                id as int - 1,
                old(self).record_at(id).with_status(WarrantyStatus::Revoked),
            ),
            r.is_ok() ==> final(self).owner_index == old(self).owner_index,
    {
        self.update_status(caller, id, WarrantyStatus::Revoked)
    }

    /// The ids `owner` currently holds, in insertion order; empty when the
    /// owner holds none, never an error. Ownership lists are public, so no
    /// caller identity is required.
    pub fn get_warranties_by_owner(&self, owner: u64) -> (r: Vec<u64>)
        requires
            self.wf(),
        ensures
            r@ == self.ids_of(owner),
    {
        match find_slot(&self.owner_index, owner) {
            Some(i) => {
                proof {
                    lemma_slot_at(self.owner_index@, owner, i as int);
                }
                copy_ids(&self.owner_index[i].ids)
            },
            None => Vec::new(),
        }
    }
}

/// What the invariant says of any id an owner's list holds: the id is
/// registered, its record names that owner, and the list holds it once.
pub(crate) proof fn lemma_held_id(t: WarrantyTracker, o: u64, x: u64)
    requires
        t.wf(),
        ids_held(t.owner_index@, o).contains(x),
    ensures
        t.has_id(x),
        t.records@[x as int - 1].owner == o,
        occurrences(ids_held(t.owner_index@, o), x) == 1,
{
    let pe = t.owner_index@;
    assert(has_owner(pe, o));
    let k = owner_slot(pe, o);
    assert(0 <= k < pe.len() && pe[k].owner == o);
    assert(pe[k].ids@.contains(x));
    assert(occurrences(pe[k].ids@, x) <= 1);
    lemma_occurrences_contains(pe[k].ids@, x);
}

/// No owner's list in a well-formed registry holds an id twice.
pub(crate) proof fn lemma_held_bound(t: WarrantyTracker, o: u64, x: u64)
    requires
        t.wf(),
    ensures
        occurrences(ids_held(t.owner_index@, o), x) <= 1,
{
    let pe = t.owner_index@;
    if has_owner(pe, o) {
        let k = owner_slot(pe, o);
        assert(0 <= k < pe.len() && pe[k].owner == o);
        assert(occurrences(pe[k].ids@, x) <= 1);
    }
}

/// Appending a fresh record whose id is the next one, and appending that id
/// to its owner's list, keeps the registry well formed.
proof fn lemma_register_wf(pre: WarrantyTracker, fin: WarrantyTracker, rec: WarrantyData)
    requires
        pre.wf(),
        pre.records@.len() < u64::MAX,
        rec.id == pre.records@.len() + 1,
        rec.purchase_date < rec.expiration_date,
        fin.records@ == pre.records@.push(rec),
        owners_unique(fin.owner_index@),
        ids_held(fin.owner_index@, rec.owner) == ids_held(pre.owner_index@, rec.owner).push(
            rec.id,
        ),
        forall|o: u64|
            o != rec.owner ==> #[trigger] ids_held(fin.owner_index@, o) == ids_held(
                pre.owner_index@,
                o,
            ),
    ensures
        fin.wf(),
{
    let pe = pre.owner_index@;
    let fe = fin.owner_index@;
    let n = pre.records@.len() as int;
    assert forall|i: int| 0 <= i < fin.records@.len() implies (#[trigger] fin.records@[i]).id == i
        + 1 && fin.records@[i].purchase_date < fin.records@[i].expiration_date by {
        if i < n {
            assert(fin.records@[i] == pre.records@[i]);
        } else {
            assert(fin.records@[i] == rec);
        }
    }
    assert forall|j: int, x: u64|
        0 <= j < fe.len() && (#[trigger] fe[j].ids@.contains(x)) implies fin.has_id(x)
        && fin.records@[x as int - 1].owner == fe[j].owner by {
        let o = fe[j].owner;
        lemma_slot_at(fe, o, j);
        if o == rec.owner {
            lemma_contains_push(ids_held(pe, o), rec.id, x);
            if x == rec.id {
                assert(fin.records@[x as int - 1] == rec);
            } else {
                lemma_held_id(pre, o, x);
                assert(fin.records@[x as int - 1] == pre.records@[x as int - 1]);
            }
        } else {
            assert(ids_held(fe, o) == ids_held(pe, o));
            lemma_held_id(pre, o, x);
            assert(fin.records@[x as int - 1] == pre.records@[x as int - 1]);
        }
    }
    assert forall|j: int, x: u64| 0 <= j < fe.len() implies #[trigger] occurrences(fe[j].ids@, x)
        <= 1 by {
        let o = fe[j].owner;
        lemma_slot_at(fe, o, j);
        lemma_held_bound(pre, o, x);
        if o == rec.owner {
            lemma_occurrences_push(ids_held(pe, o), rec.id, x);
            if x == rec.id {
                lemma_occurrences_contains(ids_held(pe, o), rec.id);
                if ids_held(pe, o).contains(rec.id) {
                    lemma_held_id(pre, o, rec.id);
                }
            }
        }
    }
    assert forall|i: int| 0 <= i < fin.records@.len() implies fin.ids_of(
        (#[trigger] fin.records@[i]).owner,
    ).contains((i + 1) as u64) by {
        if i < n {
            let o = pre.records@[i].owner;
            assert(fin.records@[i] == pre.records@[i]);
            assert(pre.ids_of(o).contains((i + 1) as u64));
            if o == rec.owner {
                lemma_contains_push(ids_held(pe, o), rec.id, (i + 1) as u64);
            }
        } else {
            assert(fin.records@[i] == rec);
            lemma_contains_push(ids_held(pe, rec.owner), rec.id, rec.id);
        }
    }
}

/// Moving one record to a new owner, with the id leaving the old owner's
/// list and joining the new owner's, keeps the registry well formed.
proof fn lemma_transfer_wf(pre: WarrantyTracker, fin: WarrantyTracker, id: u64, new_owner: u64)
    requires
        pre.wf(),
        pre.has_id(id),
        fin.records@ == pre.records@.update(
            id as int - 1,
            pre.record_at(id).with_owner(new_owner),
        ),
        owners_unique(fin.owner_index@),
        forall|o: u64|
            #[trigger] ids_held(fin.owner_index@, o) == pre.ids_after_transfer(id, new_owner, o),
    ensures
        fin.wf(),
{
    let pe = pre.owner_index@;
    let fe = fin.owner_index@;
    let prev = pre.record_at(id).owner;
    assert(fin.records@.len() == pre.records@.len());
    assert forall|i: int| 0 <= i < fin.records@.len() implies (#[trigger] fin.records@[i]).id == i
        + 1 && fin.records@[i].purchase_date < fin.records@[i].expiration_date by {
        if i != id as int - 1 {
            assert(fin.records@[i] == pre.records@[i]);
        }
    }
    assert forall|j: int, x: u64|
        0 <= j < fe.len() && (#[trigger] fe[j].ids@.contains(x)) implies fin.has_id(x)
        && fin.records@[x as int - 1].owner == fe[j].owner by {
        let o = fe[j].owner;
        lemma_slot_at(fe, o, j);
        assert(ids_held(fe, o) == pre.ids_after_transfer(id, new_owner, o));
        if o == new_owner {
            let base = if o == prev {
                without_id(pre.ids_of(o), id)
            } else {
                pre.ids_of(o)
            };
            lemma_contains_push(base, id, x);
            if x == id {
                assert(fin.records@[id as int - 1] == pre.record_at(id).with_owner(new_owner));
            } else {
                if o == prev {
                    lemma_contains_without(pre.ids_of(o), id, x);
                }
                lemma_held_id(pre, o, x);
                assert(fin.records@[x as int - 1] == pre.records@[x as int - 1]);
            }
        } else if o == prev {
            lemma_contains_without(pre.ids_of(o), id, x);
            lemma_held_id(pre, o, x);
            assert(fin.records@[x as int - 1] == pre.records@[x as int - 1]);
        } else {
            lemma_held_id(pre, o, x);
            assert(x != id);
            assert(fin.records@[x as int - 1] == pre.records@[x as int - 1]);
        }
    }
    assert forall|j: int, x: u64| 0 <= j < fe.len() implies #[trigger] occurrences(fe[j].ids@, x)
        <= 1 by {
        let o = fe[j].owner;
        lemma_slot_at(fe, o, j);
        assert(ids_held(fe, o) == pre.ids_after_transfer(id, new_owner, o));
        lemma_held_bound(pre, o, x);
        lemma_occurrences_without(pre.ids_of(o), id, x);
        if o == new_owner {
            let base = if o == prev {
                without_id(pre.ids_of(o), id)
            } else {
                pre.ids_of(o)
            };
            lemma_occurrences_push(base, id, x);
            if x == id && o != prev {
                lemma_occurrences_contains(pre.ids_of(o), id);
                if pre.ids_of(o).contains(id) {
                    lemma_held_id(pre, o, id);
                }
            }
            if x == id && o == prev {
                lemma_occurrences_without(pre.ids_of(o), id, id);
            }
        }
    }
    assert forall|i: int| 0 <= i < fin.records@.len() implies fin.ids_of(
        (#[trigger] fin.records@[i]).owner,
    ).contains((i + 1) as u64) by {
        let x = (i + 1) as u64;
        let o = fin.records@[i].owner;
        assert(ids_held(fe, o) == pre.ids_after_transfer(id, new_owner, o));
        if i == id as int - 1 {
            assert(o == new_owner);
            let base = if o == prev {
                without_id(pre.ids_of(o), id)
            } else {
                pre.ids_of(o)
            };
            lemma_contains_push(base, id, id);
        } else {
            assert(fin.records@[i] == pre.records@[i]);
            assert(pre.ids_of(o).contains(x));
            if o == new_owner {
                let base = if o == prev {
                    without_id(pre.ids_of(o), id)
                } else {
                    pre.ids_of(o)
                };
                if o == prev {
                    lemma_contains_without(pre.ids_of(o), id, x);
                }
                lemma_contains_push(base, id, x);
            } else if o == prev {
                lemma_contains_without(pre.ids_of(o), id, x);
            }
        }
    }
}

/// Overwriting one record's status keeps the registry well formed: no id,
/// date, owner or index entry moves.
proof fn lemma_status_update_wf(
    pre: WarrantyTracker,
    fin: WarrantyTracker,
    id: u64,
    status: WarrantyStatus,
)
    requires
        pre.wf(),
        pre.has_id(id),
        fin.records@ == pre.records@.update(id as int - 1, pre.record_at(id).with_status(status)),
        fin.owner_index@ == pre.owner_index@,
    ensures
        fin.wf(),
{
    assert(fin.records@.len() == pre.records@.len());
    assert(forall|i: int|
        0 <= i < fin.records@.len() ==> (#[trigger] fin.records@[i]).id == pre.records@[i].id
            && fin.records@[i].owner == pre.records@[i].owner && fin.records@[i].purchase_date
            == pre.records@[i].purchase_date && fin.records@[i].expiration_date
            == pre.records@[i].expiration_date);
    assert forall|i: int| 0 <= i < fin.records@.len() implies fin.ids_of(
        (#[trigger] fin.records@[i]).owner,
    ).contains((i + 1) as u64) by {
        assert(fin.records@[i].owner == pre.records@[i].owner);
        assert(pre.ids_of(pre.records@[i].owner).contains((i + 1) as u64));
    }
}

/// An owned copy of an id list.
fn copy_ids(ids: &Vec<u64>) -> (r: Vec<u64>)
    ensures
        r@ == ids@,
{
    let mut r: Vec<u64> = Vec::new();
    let mut i: usize = 0;
    while i < ids.len()
        invariant
            i <= ids.len(),
            r@ == ids@.take(i as int),
        decreases ids.len() - i,
    {
        r.push(ids[i]);
        proof {
            assert(ids@.take(i as int + 1) =~= ids@.take(i as int).push(ids@[i as int]));
        }
        i = i + 1;
    }
    proof {
        assert(ids@.take(ids@.len() as int) =~= ids@);
    }
    r
}

} // verus!
