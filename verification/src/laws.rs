//! The registry's cross-operation guarantees, stated and proved once over
//! the specification-level model that the operations' contracts speak of.

use vstd::prelude::*;

use crate::index::lemma_occurrences_contains;
use crate::index::lemma_occurrences_push;
use crate::index::lemma_occurrences_without;
use crate::index::lemma_without_len;
use crate::index::occurrences;
use crate::index::without_id;
use crate::records::WarrantyStatus;
use crate::tracker::WarrantyTracker;
use crate::tracker::lemma_held_id;

verus! {

/// Whether a warranty counts as expired depends only on its stored
/// expiration date and the clock at query time, never on its stored status:
/// two registries that agree on a record's expiration date agree on its
/// expiry at every instant, whatever statuses and owners they store.
pub proof fn lemma_expiry_ignores_status(
    a: WarrantyTracker,
    b: WarrantyTracker,
    id: u64,
    now: u64,
)
    requires
        a.has_id(id),
        b.has_id(id),
        a.record_at(id).expiration_date == b.record_at(id).expiration_date,
    ensures
        a.expired_at(id, now) == b.expired_at(id, now),
{
}

/// An id stands in at most one owner's list: the lists of two different
/// owners never share an id.
pub proof fn lemma_lists_disjoint(t: WarrantyTracker, id: u64, o1: u64, o2: u64)
    requires
        t.wf(),
        o1 != o2,
        t.ids_of(o1).contains(id),
    ensures
        !t.ids_of(o2).contains(id),
{
    lemma_held_id(t, o1, id);
    if t.ids_of(o2).contains(id) {
        lemma_held_id(t, o2, id);
    }
}

/// After a successful transfer to a different owner the id is gone from the
/// old owner's list, stands exactly once in the new owner's list, and each
/// list's length changes by exactly one.
pub proof fn lemma_transfer_index_effect(
    pre: WarrantyTracker,
    post: WarrantyTracker,
    id: u64,
    new_owner: u64,
)
    requires
        pre.wf(),
        pre.has_id(id),
        new_owner != pre.record_at(id).owner,
        forall|o: u64| #[trigger] post.ids_of(o) == pre.ids_after_transfer(id, new_owner, o),
    ensures
        !post.ids_of(pre.record_at(id).owner).contains(id),
        occurrences(post.ids_of(new_owner), id) == 1,
        post.ids_of(pre.record_at(id).owner).len() + 1 == pre.ids_of(
            pre.record_at(id).owner,
        ).len(),
        post.ids_of(new_owner).len() == pre.ids_of(new_owner).len() + 1,
{
    let prev = pre.record_at(id).owner;
    assert(pre.records@[id as int - 1].owner == prev);
    assert(pre.ids_of(prev).contains(id));
    lemma_held_id(pre, prev, id);
    assert(post.ids_of(prev) == without_id(pre.ids_of(prev), id));
    lemma_occurrences_without(pre.ids_of(prev), id, id);
    lemma_occurrences_contains(without_id(pre.ids_of(prev), id), id);
    lemma_without_len(pre.ids_of(prev), id);
    assert(post.ids_of(new_owner) == pre.ids_of(new_owner).push(id));
    lemma_occurrences_contains(pre.ids_of(new_owner), id);
    if pre.ids_of(new_owner).contains(id) {
        lemma_held_id(pre, new_owner, id);
    }
    lemma_occurrences_push(pre.ids_of(new_owner), id, id);
}

/// Revoking is idempotent: once a record's status is `Revoked`, the record
/// still exists under the same owner, so a second revoke by that owner
/// succeeds again, and the overwrite it performs changes nothing.
pub proof fn lemma_revoke_idempotent(t: WarrantyTracker, id: u64)
    requires
        t.wf(),
        t.has_id(id),
        t.record_at(id).status == WarrantyStatus::Revoked,
    ensures
        t.records@.update(
            id as int - 1,
            t.record_at(id).with_status(WarrantyStatus::Revoked),
        ) == t.records@,
{
    assert(t.record_at(id).with_status(WarrantyStatus::Revoked) == t.record_at(id));
    assert(t.records@.update(id as int - 1, t.record_at(id)) =~= t.records@);
}

} // verus!
