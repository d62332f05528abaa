use crate::key_piece::KeyPiece;
use crate::slot::Slot;
use vstd::prelude::*;

verus! {

/// The link a vacant slot holds, as a number.
pub open spec fn link_nat<I: KeyPiece>(link: Option<I>) -> Option<nat> {
    match link {
        Some(i) => Some(i.as_nat()),
        None => None,
    }
}

/// The number of slots in `slots` that hold a value.
pub open spec fn count_values<G: KeyPiece, T, U>(slots: Seq<Slot<G, T, U>>) -> nat
    decreases slots.len(),
{
    if slots.len() == 0 {
        0
    } else {
        count_values(slots.drop_last()) + if slots.last().holds_value() {
            1nat
        } else {
            0nat
        }
    }
}

/// `1` if `slot` holds a value and `0` otherwise.
pub open spec fn value_count<G: KeyPiece, T, U>(slot: Slot<G, T, U>) -> nat {
    if slot.holds_value() {
        1
    } else {
        0
    }
}

/// `free` is a well formed free list over `slots`: distinct slots that hold
/// no value, each linking to the next one and the last one to nothing.
pub open spec fn free_list_ok<G: KeyPiece, T, I: KeyPiece>(
    slots: Seq<Slot<G, T, Option<I>>>,
    free: Seq<nat>,
) -> bool {
    &&& forall|j: int|
        0 <= j < free.len() ==> #[trigger] free[j] < slots.len() && !slots[free[j] as int].holds_value()
            && link_nat(slots[free[j] as int].spec_link()) == (if j + 1 < free.len() {
            Some(free[j + 1])
        } else {
            None
        })
    &&& forall|j: int, k: int|
        #![trigger free[j], free[k]]
        0 <= j < k < free.len() ==> free[j] != free[k]
}

/// At most every slot holds a value.
pub proof fn lemma_count_bound<G: KeyPiece, T, U>(slots: Seq<Slot<G, T, U>>)
    ensures
        count_values(slots) <= slots.len(),
    decreases slots.len(),
{
    if slots.len() > 0 {
        lemma_count_bound(slots.drop_last());
    }
}

/// Replacing one slot changes the count by what the two slots hold.
pub proof fn lemma_count_update<G: KeyPiece, T, U>(
    slots: Seq<Slot<G, T, U>>,
    i: int,
    slot: Slot<G, T, U>,
)
    requires
        0 <= i < slots.len(),
    ensures
        count_values(slots.update(i, slot)) + value_count(slots[i]) == count_values(slots)
            + value_count(slot),
    decreases slots.len(),
{
    let new = slots.update(i, slot);
    if i == slots.len() - 1 {
        assert(new.drop_last() =~= slots.drop_last());
    } else {
        assert(new.drop_last() =~= slots.drop_last().update(i, slot));
        lemma_count_update(slots.drop_last(), i, slot);
    }
}

/// Pushing a slot adds what it holds to the count.
pub proof fn lemma_count_push<G: KeyPiece, T, U>(slots: Seq<Slot<G, T, U>>, slot: Slot<G, T, U>)
    ensures
        count_values(slots.push(slot)) == count_values(slots) + value_count(slot),
{
    assert(slots.push(slot).drop_last() =~= slots);
}

/// No slot holds a value, so the count is zero.
pub proof fn lemma_count_none<G: KeyPiece, T, U>(slots: Seq<Slot<G, T, U>>)
    requires
        forall|i: int| 0 <= i < slots.len() ==> !(#[trigger] slots[i]).holds_value(),
    ensures
        count_values(slots) == 0,
    decreases slots.len(),
{
    if slots.len() > 0 {
        lemma_count_none(slots.drop_last());
    }
}

/// The free list stays well formed when a slot that is not on it changes.
pub proof fn lemma_free_update_other<G: KeyPiece, T, I: KeyPiece>(
    slots: Seq<Slot<G, T, Option<I>>>,
    free: Seq<nat>,
    i: int,
    slot: Slot<G, T, Option<I>>,
)
    requires
        free_list_ok(slots, free),
        0 <= i < slots.len(),
        forall|j: int| 0 <= j < free.len() ==> #[trigger] free[j] != i,
    ensures
        free_list_ok(slots.update(i, slot), free),
{
    let new = slots.update(i, slot);
    assert forall|j: int| 0 <= j < free.len() implies #[trigger] free[j] < new.len()
        && !new[free[j] as int].holds_value() && link_nat(new[free[j] as int].spec_link()) == (
    if j + 1 < free.len() {
        Some(free[j + 1])
    } else {
        None
    }) by {
        assert(free[j] != i);
    }
}

/// Taking the first slot off the free list and filling it leaves the rest
/// of the list well formed.
pub proof fn lemma_free_pop<G: KeyPiece, T, I: KeyPiece>(
    slots: Seq<Slot<G, T, Option<I>>>,
    free: Seq<nat>,
    slot: Slot<G, T, Option<I>>,
)
    requires
        free_list_ok(slots, free),
        free.len() > 0,
    ensures
        free_list_ok(slots.update(free[0] as int, slot), free.drop_first()),
{
    let new = slots.update(free[0] as int, slot);
    let rest = free.drop_first();
    assert forall|j: int| 0 <= j < rest.len() implies #[trigger] rest[j] < new.len()
        && !new[rest[j] as int].holds_value() && link_nat(new[rest[j] as int].spec_link()) == (
    if j + 1 < rest.len() {
        Some(rest[j + 1])
    } else {
        None
    }) by {
        assert(rest[j] == free[j + 1]);
        assert(free[0] != free[j + 1]);
    }
    assert forall|j: int, k: int| 0 <= j < k < rest.len() implies rest[j] != rest[k] by {
        assert(rest[j] == free[j + 1]);
        assert(rest[k] == free[k + 1]);
    }
}

/// Putting a slot that held a value at the front of the free list keeps the
/// list well formed.
pub proof fn lemma_free_push<G: KeyPiece, T, I: KeyPiece>(
    slots: Seq<Slot<G, T, Option<I>>>,
    free: Seq<nat>,
    i: int,
    slot: Slot<G, T, Option<I>>,
)
    requires
        free_list_ok(slots, free),
        0 <= i < slots.len(),
        slots[i].holds_value(),
        !slot.holds_value(),
        link_nat(slot.spec_link()) == (if free.len() > 0 {
            Some(free[0])
        } else {
            None
        }),
    ensures
        free_list_ok(slots.update(i, slot), seq![i as nat] + free),
{
    let new = slots.update(i, slot);
    let list = seq![i as nat] + free;
    assert forall|j: int| 0 <= j < free.len() implies #[trigger] free[j] != i by {
    }
    assert forall|j: int| 0 <= j < list.len() implies #[trigger] list[j] < new.len()
        && !new[list[j] as int].holds_value() && link_nat(new[list[j] as int].spec_link()) == (
    if j + 1 < list.len() {
        Some(list[j + 1])
    } else {
        None
    }) by {
        if j > 0 {
            assert(list[j] == free[j - 1]);
            assert(free[j - 1] != i);
        }
    }
    assert forall|j: int, k: int| 0 <= j < k < list.len() implies list[j] != list[k] by {
        assert(list[k] == free[k - 1]);
        if j > 0 {
            assert(list[j] == free[j - 1]);
        }
    }
}

/// A slot pushed onto the storage does not disturb the free list.
pub proof fn lemma_free_append<G: KeyPiece, T, I: KeyPiece>(
    slots: Seq<Slot<G, T, Option<I>>>,
    free: Seq<nat>,
    slot: Slot<G, T, Option<I>>,
)
    requires
        free_list_ok(slots, free),
    ensures
        free_list_ok(slots.push(slot), free),
{
    let new = slots.push(slot);
    assert forall|j: int| 0 <= j < free.len() implies #[trigger] free[j] < new.len()
        && !new[free[j] as int].holds_value() && link_nat(new[free[j] as int].spec_link()) == (
    if j + 1 < free.len() {
        Some(free[j + 1])
    } else {
        None
    }) by {
        assert(new[free[j] as int] == slots[free[j] as int]);
    }
}

/// A slot on the free list holds no value, so a slot that holds one is not
/// on it.
pub proof fn lemma_free_excludes_values<G: KeyPiece, T, I: KeyPiece>(
    slots: Seq<Slot<G, T, Option<I>>>,
    free: Seq<nat>,
    i: int,
)
    requires
        free_list_ok(slots, free),
        0 <= i < slots.len(),
        slots[i].holds_value(),
    ensures
        forall|j: int| 0 <= j < free.len() ==> #[trigger] free[j] != i,
{
}

/// Two lists of slots that hold values in the same places count the same.
pub proof fn lemma_count_same<G: KeyPiece, T, U>(a: Seq<Slot<G, T, U>>, b: Seq<Slot<G, T, U>>)
    requires
        a.len() == b.len(),
        forall|i: int| 0 <= i < a.len() ==> #[trigger] a[i].holds_value() == b[i].holds_value(),
    ensures
        count_values(a) == count_values(b),
    decreases a.len(),
{
    if a.len() > 0 {
        lemma_count_same(a.drop_last(), b.drop_last());
    }
}

} // verus!
