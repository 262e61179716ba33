//! The owner index: for each owner identity, the ordered list of warranty
//! ids it currently holds. The index is an association list with unique
//! owners; its specification-level meaning is `ids_held`, the list an owner
//! would see, together with counting functions over id lists.

use vstd::prelude::*;

verus! {

/// One owner's entry: the ids it currently holds, in insertion order.
pub struct OwnerEntry {
    pub owner: u64,
    pub ids: Vec<u64>,
}

/// Whether some entry of the index belongs to `owner`.
pub open spec fn has_owner(entries: Seq<OwnerEntry>, owner: u64) -> bool {
    exists|k: int| 0 <= k < entries.len() && entries[k].owner == owner
}

/// The position of `owner`'s entry; meaningful only when `has_owner` holds
/// and the owners are unique.
pub open spec fn owner_slot(entries: Seq<OwnerEntry>, owner: u64) -> int {
    choose|k: int| 0 <= k < entries.len() && entries[k].owner == owner
}

/// The id list the index holds for `owner`: empty when the owner has no
/// entry.
pub open spec fn ids_held(entries: Seq<OwnerEntry>, owner: u64) -> Seq<u64> {
    if has_owner(entries, owner) {
        entries[owner_slot(entries, owner)].ids@
    } else {
        Seq::<u64>::empty()
    }
}

/// No two entries name the same owner.
pub open spec fn owners_unique(entries: Seq<OwnerEntry>) -> bool {
    forall|j: int, k: int|
        0 <= j < k < entries.len() ==> (#[trigger] entries[j].owner) != (#[trigger] entries[k].owner)
}

/// How many times `x` stands in `s`.
pub open spec fn occurrences(s: Seq<u64>, x: u64) -> nat
    decreases s.len(),
{
    if s.len() == 0 {
        0
    } else {
        occurrences(s.drop_last(), x) + if s.last() == x {
            1nat
        } else {
            0nat
        }
    }
}

/// The ids of `s` with every occurrence of `id` removed, order kept.
pub open spec fn without_id(s: Seq<u64>, id: u64) -> Seq<u64>
    decreases s.len(),
{
    if s.len() == 0 {
        Seq::<u64>::empty()
    } else {
        let rest = without_id(s.drop_last(), id);
        if s.last() == id {
            rest
        } else {
            rest.push(s.last())
        }
    }
}

/// With unique owners, an entry that names `owner` is the one the lookup
/// sees.
pub proof fn lemma_slot_at(entries: Seq<OwnerEntry>, owner: u64, i: int)
    requires
        owners_unique(entries),
        0 <= i < entries.len(),
        entries[i].owner == owner,
    ensures
        has_owner(entries, owner),
        owner_slot(entries, owner) == i,
        ids_held(entries, owner) == entries[i].ids@,
{
    assert(has_owner(entries, owner));
    let k = owner_slot(entries, owner);
    assert(0 <= k < entries.len() && entries[k].owner == owner);
    if k < i {
        assert(entries[k].owner != entries[i].owner);
    } else if i < k {
        assert(entries[i].owner != entries[k].owner);
    }
}

/// Replacing an entry with one of the same owner changes only that owner's
/// list.
pub proof fn lemma_update_slot(entries: Seq<OwnerEntry>, i: int, e: OwnerEntry)
    requires
        owners_unique(entries),
        0 <= i < entries.len(),
        entries[i].owner == e.owner,
    ensures
        owners_unique(entries.update(i, e)),
        ids_held(entries.update(i, e), e.owner) == e.ids@,
        forall|o: u64|
            o != e.owner ==> #[trigger] ids_held(entries.update(i, e), o) == ids_held(entries, o),
{
    let upd = entries.update(i, e);
    assert(forall|j: int| 0 <= j < upd.len() ==> (#[trigger] upd[j].owner) == entries[j].owner);
    lemma_slot_at(upd, e.owner, i);
    assert forall|o: u64| o != e.owner implies #[trigger] ids_held(upd, o) == ids_held(
        entries,
        o,
    ) by {
        if has_owner(entries, o) {
            let k = owner_slot(entries, o);
            assert(0 <= k < entries.len() && entries[k].owner == o);
            assert(k != i);
            lemma_slot_at(upd, o, k);
            lemma_slot_at(entries, o, k);
        } else {
            assert(!has_owner(upd, o)) by {
                if has_owner(upd, o) {
                    let k = owner_slot(upd, o);
                    assert(entries[k].owner == o);
                }
            }
        }
    }
}

/// Appending an entry for an owner the index does not know keeps the owners
/// unique and changes only that owner's list.
pub proof fn lemma_push_entry(entries: Seq<OwnerEntry>, e: OwnerEntry)
    requires
        owners_unique(entries),
        !has_owner(entries, e.owner),
    ensures
        owners_unique(entries.push(e)),
        ids_held(entries.push(e), e.owner) == e.ids@,
        forall|o: u64|
            o != e.owner ==> #[trigger] ids_held(entries.push(e), o) == ids_held(entries, o),
{
    let ext = entries.push(e);
    assert(forall|j: int| 0 <= j < entries.len() ==> (#[trigger] ext[j].owner) == entries[j].owner);
    assert(ext[entries.len() as int].owner == e.owner);
    assert forall|j: int, k: int| 0 <= j < k < ext.len() implies (#[trigger] ext[j].owner)
        != (#[trigger] ext[k].owner) by {
        if k == entries.len() {
            assert(ext[j].owner == entries[j].owner);
            if ext[j].owner == e.owner {
                assert(has_owner(entries, e.owner));
            }
        }
    }
    lemma_slot_at(ext, e.owner, entries.len() as int);
    assert forall|o: u64| o != e.owner implies #[trigger] ids_held(ext, o) == ids_held(
        entries,
        o,
    ) by {
        if has_owner(entries, o) {
            let k = owner_slot(entries, o);
            assert(0 <= k < entries.len() && entries[k].owner == o);
            lemma_slot_at(ext, o, k);
            lemma_slot_at(entries, o, k);
        } else {
            assert(!has_owner(ext, o)) by {
                if has_owner(ext, o) {
                    let k = owner_slot(ext, o);
                    assert(0 <= k < ext.len() && ext[k].owner == o);
                    assert(k < entries.len() ==> entries[k].owner == o);
                }
            }
        }
    }
}

/// Appending an id adds one occurrence of it and none of anything else.
pub proof fn lemma_occurrences_push(s: Seq<u64>, y: u64, x: u64)
    ensures
        occurrences(s.push(y), x) == occurrences(s, x) + if y == x {
            1nat
        } else {
            0nat
        },
{
    assert(s.push(y).drop_last() =~= s);
    assert(s.push(y).last() == y);
}

/// An id stands in a list exactly when it occurs a positive number of times.
pub proof fn lemma_occurrences_contains(s: Seq<u64>, x: u64)
    ensures
        s.contains(x) <==> occurrences(s, x) > 0,
    decreases s.len(),
{
    if s.len() == 0 {
    } else {
        lemma_occurrences_contains(s.drop_last(), x);
        if s.last() == x {
            assert(s[s.len() - 1] == x);
        } else {
            if s.contains(x) {
                let w = choose|w: int| 0 <= w < s.len() && s[w] == x;
                assert(w < s.len() - 1);
                assert(s.drop_last()[w] == x);
            }
            if s.drop_last().contains(x) {
                let w = choose|w: int| 0 <= w < s.drop_last().len() && s.drop_last()[w] == x;
                assert(s[w] == x);
            }
        }
    }
}

/// Removing an id removes all of its occurrences and no others.
pub proof fn lemma_occurrences_without(s: Seq<u64>, id: u64, x: u64)
    ensures
        occurrences(without_id(s, id), x) == if x == id {
            0nat
        } else {
            occurrences(s, x)
        },
    decreases s.len(),
{
    if s.len() == 0 {
    } else {
        lemma_occurrences_without(s.drop_last(), id, x);
        if s.last() != id {
            lemma_occurrences_push(without_id(s.drop_last(), id), s.last(), x);
        }
    }
}

/// Removing an id shortens a list by exactly the number of its occurrences.
pub proof fn lemma_without_len(s: Seq<u64>, id: u64)
    ensures
        without_id(s, id).len() + occurrences(s, id) == s.len(),
    decreases s.len(),
{
    if s.len() == 0 {
    } else {
        lemma_without_len(s.drop_last(), id);
    }
}

/// Removing an id from the end of a list commutes with removing it from the
/// rest.
pub proof fn lemma_without_push(s: Seq<u64>, y: u64, id: u64)
    ensures
        without_id(s.push(y), id) == if y == id {
            without_id(s, id)
        } else {
            without_id(s, id).push(y)
        },
{
    assert(s.push(y).drop_last() =~= s);
    assert(s.push(y).last() == y);
}

/// Membership in a list with an id appended.
pub proof fn lemma_contains_push(s: Seq<u64>, y: u64, x: u64)
    ensures
        s.push(y).contains(x) <==> (s.contains(x) || x == y),
{
    lemma_occurrences_push(s, y, x);
    lemma_occurrences_contains(s, x);
    lemma_occurrences_contains(s.push(y), x);
}

/// Membership in a list with an id removed.
pub proof fn lemma_contains_without(s: Seq<u64>, id: u64, x: u64)
    ensures
        without_id(s, id).contains(x) <==> (s.contains(x) && x != id),
{
    lemma_occurrences_without(s, id, x);
    lemma_occurrences_contains(s, x);
    lemma_occurrences_contains(without_id(s, id), x);
}

/// The position of `owner`'s entry in the index, if it has one.
pub fn find_slot(entries: &Vec<OwnerEntry>, owner: u64) -> (r: Option<usize>)
    ensures
        match r {
            Some(i) => i < entries.len() && entries@[i as int].owner == owner,
            None => !has_owner(entries@, owner),
        },
{
    let mut i: usize = 0;
    while i < entries.len()
        invariant
            i <= entries.len(),
            forall|k: int| 0 <= k < i ==> (#[trigger] entries@[k].owner) != owner,
        decreases entries.len() - i,
    {
        if entries[i].owner == owner {
            return Some(i);
        }
        i = i + 1;
    }
    None
}

} // verus!
