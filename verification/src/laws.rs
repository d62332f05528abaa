use crate::config::{key_max_generation, DefaultKeyConfig, MapConfig, MapSlot};
use crate::map::GenMap;
use vstd::prelude::*;

verus! {

impl<T, C: MapConfig<T>> GenMap<T, C> {
    /// The key `k` is dead in this map: its slot exists, holds no value under
    /// `k`'s generation, and no later insert can hand `k` out again, because
    /// the slot's generation has moved past `k`'s or the slot is retired
    /// (generation zero, off the free list, linking nowhere).
    pub open spec fn is_dead(&self, k: (nat, nat)) -> bool {
        &&& k.0 < self.slots().len()
        &&& 1 <= k.1
        &&& !self@.contains_key(k)
        &&& {
            ||| self.generation_of(k.0) > k.1
            ||| {
                &&& self.generation_of(k.0) == 0
                &&& !self.holds(k.0)
                &&& self.link_of(k.0) == None::<nat>
                &&& !self.free_list().contains(k.0)
            }
        }
    }
}

/// A value inserted under a key is what that key reads back, and no other
/// key changes.
pub proof fn law_insert_then_get<T, C: MapConfig<T>>(before: GenMap<T, C>, after: GenMap<T, C>, key: (nat, nat), value: T)
    requires
        GenMap::inserted(before, after, key, value),
    ensures
        after@.contains_key(key),
        after@[key] == value,
        !before@.contains_key(key),
        forall|k: (nat, nat)| k != key ==> (after@.contains_key(k) == before@.contains_key(k)
            && (before@.contains_key(k) ==> after@[k] == before@[k])),
{
}

/// Removing a key's value makes the key stop matching, leaves every other
/// key as it was, and hands back the value the key read.
pub proof fn law_remove_then_get<T, C: MapConfig<T>>(before: GenMap<T, C>, after: GenMap<T, C>, i: nat)
    requires
        before.wf(),
        GenMap::taken(before, after, i),
    ensures
        !after@.contains_key((i, before.generation_of(i))),
        forall|k: (nat, nat)| k != (i, before.generation_of(i)) ==> (after@.contains_key(k) == before@.contains_key(k)
            && (before@.contains_key(k) ==> after@[k] == before@[k])),
{
}

/// Freed slots are reused last freed first: the insert right after a
/// remove that frees its slot goes into that slot, under the generation two
/// past the removed key's.
pub proof fn law_remove_then_insert<T, C: MapConfig<T>>(
    m0: GenMap<T, C>,
    m1: GenMap<T, C>,
    m2: GenMap<T, C>,
    i: nat,
    key: (nat, nat),
    value: T,
)
    requires
        GenMap::taken(m0, m1, i),
        !GenMap::<T, C>::retires(m0.generation_of(i)),
        GenMap::inserted(m1, m2, key, value),
    ensures
        key.0 == i,
        key.1 == GenMap::<T, C>::generation_after(m0.generation_of(i)) + 1,
{
}

/// Unless the config wraps generations, a removed key never matches again:
/// once removed it is dead, and every insert, remove, retire and detach
/// keeps a dead key dead.
pub proof fn law_removed_key_is_dead<T, C: MapConfig<T>>(before: GenMap<T, C>, after: GenMap<T, C>, i: nat)
    requires
        before.wf(),
        GenMap::taken(before, after, i),
        !C::WRAP_ON_OVERFLOW,
    ensures
        after.is_dead((i, before.generation_of(i))),
{
    before.lemma_held_generation(i);
    before.lemma_free_list_vacant();
}

/// An insert keeps every dead key dead, and never hands one out.
pub proof fn law_insert_keeps_dead<T, C: MapConfig<T>>(
    before: GenMap<T, C>,
    after: GenMap<T, C>,
    key: (nat, nat),
    value: T,
    k: (nat, nat),
)
    requires
        before.wf(),
        GenMap::inserted(before, after, key, value),
        before.is_dead(k),
    ensures
        after.is_dead(k),
        k != key,
{
    before.lemma_free_list_vacant();
    if before.free_list().len() > 0 {
        assert(before.free_list().contains(before.free_list()[0]));
    }
}

/// A remove keeps every dead key dead.
pub proof fn law_remove_keeps_dead<T, C: MapConfig<T>>(before: GenMap<T, C>, after: GenMap<T, C>, i: nat, k: (nat, nat))
    requires
        before.wf(),
        GenMap::taken(before, after, i),
        before.is_dead(k),
        !C::WRAP_ON_OVERFLOW,
    ensures
        after.is_dead(k),
{
    before.lemma_held_generation(i);
    before.lemma_free_list_vacant();
    if k.0 != i {
        assert(after.slots()[k.0 as int] == before.slots()[k.0 as int]);
        if !GenMap::<T, C>::retires(before.generation_of(i)) {
            assert(after.free_list() == seq![i] + before.free_list());
            if after.free_list().contains(k.0) {
                let j = choose|j: int| 0 <= j < after.free_list().len() && after.free_list()[j] == k.0;
                assert(before.free_list()[j - 1] == k.0);
            }
        }
    }
}

/// Retiring a key's value kills the key and keeps every dead key dead.
pub proof fn law_retire_kills<T, C: MapConfig<T>>(before: GenMap<T, C>, after: GenMap<T, C>, i: nat, k: (nat, nat))
    requires
        before.wf(),
        GenMap::emptied(before, after, i, 0, None),
        before.is_dead(k) || k == (i, before.generation_of(i)),
    ensures
        after.is_dead(k),
{
    before.lemma_held_generation(i);
    before.lemma_free_list_vacant();
}

/// Detaching a key's value keeps every dead key dead.
pub proof fn law_detach_keeps_dead<T, C: MapConfig<T>>(
    before: GenMap<T, C>,
    after: GenMap<T, C>,
    i: nat,
    g: nat,
    k: (nat, nat),
)
    requires
        before.wf(),
        GenMap::emptied(before, after, i, g + 1, Some(i)),
        g == before.generation_of(i),
        before.is_dead(k),
    ensures
        after.is_dead(k),
{
    before.lemma_held_generation(i);
}

/// Reattaching a detached key keeps every other dead key dead.
pub proof fn law_reattach_keeps_dead<T, C: MapConfig<T>>(
    before: GenMap<T, C>,
    after: GenMap<T, C>,
    key: (nat, nat),
    value: T,
    k: (nat, nat),
)
    requires
        before.is_detached(key),
        after@ == before@.insert(key, value),
        after.free_list() == before.free_list(),
        after.slots().len() == before.slots().len(),
        after.holds(key.0),
        after.generation_of(key.0) == key.1,
        forall|j: nat|
            j < before.slots().len() && j != key.0 ==> #[trigger] after.slots()[j as int] == before.slots()[j as int],
        before.is_dead(k),
        k != key,
    ensures
        after.is_dead(k),
{
    if k.0 == key.0 {
        assert(k.1 < key.1);
    } else {
        assert(after.slots()[k.0 as int] == before.slots()[k.0 as int]);
    }
}

/// Reattaching the value a detach took out gives back the map as it was
/// before the detach.
pub proof fn law_detach_then_reattach<T, C: MapConfig<T>>(
    m0: GenMap<T, C>,
    m1: GenMap<T, C>,
    m2: GenMap<T, C>,
    key: (nat, nat),
    value: T,
)
    requires
        m0@.contains_key(key),
        value == m0@[key],
        GenMap::emptied(m0, m1, key.0, key.1 + 1, Some(key.0)),
        m2@ == m1@.insert(key, value),
        m2.spec_len() == m1.spec_len() + 1,
    ensures
        m2@ == m0@,
        m2.spec_len() == m0.spec_len(),
{
    assert(m2@ =~= m0@);
}

/// A clone answers every key the source answers, with a clone of the
/// source's value.
pub proof fn law_clone_keeps_keys<T: Clone, C: MapConfig<T>>(source: GenMap<T, C>, copy: GenMap<T, C>)
    requires
        source.wf(),
        GenMap::is_clone_of(source, copy),
    ensures
        copy@.dom() == source@.dom(),
        forall|k: (nat, nat)| #[trigger] source@.contains_key(k) ==> cloned::<T>(source@[k], copy@[k]),
        copy.next_key() == source.next_key(),
{
    assert(copy@.dom() =~= source@.dom());
    if source.free_list().len() > 0 {
        let f = source.free_list()[0];
        assert(f < source.slots().len()) by {
            source.lemma_free_list_vacant();
            assert(source.free_list().contains(f));
        }
        assert(copy.holds(f) == source.holds(f));
    }
}

/// What the free list [`clear`](GenMap::clear) builds holds: the slots of
/// the old free list, and the slots it emptied without retiring them.
proof fn lemma_free_after_clearing_from<T, C: MapConfig<T>>(before: GenMap<T, C>, n: nat, x: nat)
    requires
        GenMap::free_after_clearing(before, n).contains(x),
    ensures
        before.free_list().contains(x) || (x < n && before.holds(x) && !GenMap::<T, C>::retires(
            before.generation_of(x),
        )),
    decreases n,
{
    if n > 0 {
        let i = (n - 1) as nat;
        let rest = GenMap::free_after_clearing(before, i);
        if before.holds(i) && !GenMap::<T, C>::retires(before.generation_of(i)) {
            if x != i {
                let j = choose|j: int| 0 <= j < (seq![i] + rest).len() && (seq![i] + rest)[j] == x;
                assert(rest[j - 1] == x);
                lemma_free_after_clearing_from(before, i, x);
            }
        } else {
            lemma_free_after_clearing_from(before, i, x);
        }
    }
}

/// Unless the config wraps generations, [`clear`](GenMap::clear) kills
/// every key that matched before it, and keeps every dead key dead.
pub proof fn law_clear_kills<T, C: MapConfig<T>>(before: GenMap<T, C>, after: GenMap<T, C>, k: (nat, nat))
    requires
        before.wf(),
        GenMap::cleared(before, after),
        !C::WRAP_ON_OVERFLOW,
        before@.contains_key(k) || before.is_dead(k),
    ensures
        after.is_dead(k),
{
    before.lemma_free_list_vacant();
    assert(k.0 < before.slots().len());
    assert(!after.holds(k.0));
    if before.holds(k.0) {
        before.lemma_held_generation(k.0);
    } else {
        assert(after.slots()[k.0 as int] == before.slots()[k.0 as int]);
    }
    if after.free_list().contains(k.0) {
        lemma_free_after_clearing_from(before, before.slots().len(), k.0);
    }
    assert(!after@.contains_key(k));
}

/// The entries of a range of slots are exactly the entries of the slots
/// in it that hold a value, in increasing slot order.
proof fn lemma_entries_between_exact<T, C: MapConfig<T>>(m: GenMap<T, C>, lo: nat, hi: nat)
    ensures
        forall|j: int|
            0 <= j < m.entries_between(lo, hi).len() ==> {
                let e = #[trigger] m.entries_between(lo, hi)[j];
                &&& lo <= e.0.0 < hi
                &&& m.holds(e.0.0)
                &&& e == m.entry_of(e.0.0)
            },
        forall|j: int, l: int|
            0 <= j < l < m.entries_between(lo, hi).len() ==> #[trigger] m.entries_between(lo, hi)[j].0.0
                < #[trigger] m.entries_between(lo, hi)[l].0.0,
        forall|i: nat|
            lo <= i < hi && #[trigger] m.holds(i) ==> exists|j: int|
                0 <= j < m.entries_between(lo, hi).len() && m.entries_between(lo, hi)[j] == m.entry_of(i),
    decreases hi,
{
    if hi > lo {
        let i = (hi - 1) as nat;
        lemma_entries_between_exact(m, lo, i);
        let rest = m.entries_between(lo, i);
        if m.holds(i) {
            assert(m.entries_between(lo, hi) == rest.push(m.entry_of(i)));
            assert forall|x: nat| lo <= x < hi && #[trigger] m.holds(x) implies exists|j: int|
                0 <= j < m.entries_between(lo, hi).len() && m.entries_between(lo, hi)[j] == m.entry_of(x) by {
                if x == i {
                    assert(m.entries_between(lo, hi)[rest.len() as int] == m.entry_of(x));
                } else {
                    let j = choose|j: int| 0 <= j < rest.len() && rest[j] == m.entry_of(x);
                    assert(m.entries_between(lo, hi)[j] == m.entry_of(x));
                }
            }
        }
    }
}

/// Iteration visits exactly the map's entries: each entry's key matches
/// and reads back the entry's value, every matching key has an entry, the
/// entries come in increasing slot order, and there is one per value.
pub proof fn law_entries_are_the_map<T, C: MapConfig<T>>(m: GenMap<T, C>)
    requires
        m.wf(),
    ensures
        forall|j: int|
            0 <= j < m.entries().len() ==> #[trigger] m@.contains_key(m.entries()[j].0) && m@[m.entries()[j].0]
                == m.entries()[j].1,
        forall|k: (nat, nat)| #[trigger] m@.contains_key(k) ==> exists|j: int|
            0 <= j < m.entries().len() && m.entries()[j] == (k, m@[k]),
        forall|j: int, l: int|
            0 <= j < l < m.entries().len() ==> #[trigger] m.entries()[j].0.0 < #[trigger] m.entries()[l].0.0,
        m.entries().len() == m.spec_len(),
{
    lemma_entries_between_exact(m, 0, m.slots().len());
    m.lemma_entries_count();
    assert forall|j: int| 0 <= j < m.entries().len() implies #[trigger] m@.contains_key(m.entries()[j].0)
        && m@[m.entries()[j].0] == m.entries()[j].1 by {
        let e = m.entries()[j];
        assert(e == m.entry_of(e.0.0));
    }
    assert forall|k: (nat, nat)| #[trigger] m@.contains_key(k) implies exists|j: int|
        0 <= j < m.entries().len() && m.entries()[j] == (k, m@[k]) by {
        assert(m.holds(k.0));
    }
}

/// The number of values is the number of keys that match.
pub proof fn law_len_counts_keys<T, C: MapConfig<T>>(m: GenMap<T, C>)
    requires
        m.wf(),
    ensures
        m@.dom().finite(),
        m@.dom().len() == m.spec_len(),
{
    law_entries_are_the_map(m);
    let keys = m.entries().map_values(|e: ((nat, nat), T)| e.0);
    assert(keys.no_duplicates()) by {
        assert forall|j: int, l: int| 0 <= j < keys.len() && 0 <= l < keys.len() && j != l implies keys[j]
            != keys[l] by {
            if j < l {
                assert(m.entries()[j].0.0 < m.entries()[l].0.0);
            } else {
                assert(m.entries()[l].0.0 < m.entries()[j].0.0);
            }
        }
    }
    assert(keys.to_set() =~= m@.dom()) by {
        assert forall|k: (nat, nat)| keys.to_set().contains(k) implies m@.dom().contains(k) by {
            let j = choose|j: int| 0 <= j < keys.len() && keys[j] == k;
            assert(m@.contains_key(m.entries()[j].0));
        }
        assert forall|k: (nat, nat)| m@.dom().contains(k) implies keys.to_set().contains(k) by {
            assert(m@.contains_key(k));
            let j = choose|j: int| 0 <= j < m.entries().len() && m.entries()[j] == (k, m@[k]);
            assert(keys[j] == k);
        }
    }
    keys.unique_seq_to_set();
}

/// A map never holds more values than it has slots.
pub proof fn law_len_at_most_slots<T, C: MapConfig<T>>(m: GenMap<T, C>)
    requires
        m.wf(),
    ensures
        m.spec_len() <= m.slots().len(),
{
    m.lemma_wf_limits();
}

/// A slot on the free list [`retain`](GenMap::retain) builds was on the old
/// free list, or held a value that `retain` removed without retiring the
/// slot.
proof fn lemma_free_after_emptying_from<T, C: MapConfig<T>>(
    before: GenMap<T, C>,
    after: GenMap<T, C>,
    n: nat,
    x: nat,
)
    requires
        GenMap::free_after_emptying(before, after, n).contains(x),
    ensures
        before.free_list().contains(x) || (x < n && before.holds(x) && !after.holds(x)
            && !GenMap::<T, C>::retires(before.generation_of(x))),
    decreases n,
{
    if n > 0 {
        let i = (n - 1) as nat;
        let rest = GenMap::free_after_emptying(before, after, i);
        if before.holds(i) && !after.holds(i) && !GenMap::<T, C>::retires(before.generation_of(i)) {
            if x != i {
                let s = seq![i] + rest;
                let j = choose|j: int| 0 <= j < s.len() && s[j] == x;
                assert(rest[j - 1] == x);
                lemma_free_after_emptying_from(before, after, i, x);
            }
        } else {
            lemma_free_after_emptying_from(before, after, i, x);
        }
    }
}

/// Unless the config wraps generations, [`retain`](GenMap::retain) keeps
/// every dead key dead.
pub proof fn law_retain_keeps_dead<T, C: MapConfig<T>, F: FnMut(crate::key::Key<C::KeyConfig>, &mut T) -> bool>(
    before: GenMap<T, C>,
    after: GenMap<T, C>,
    f: F,
    k: (nat, nat),
)
    requires
        before.wf(),
        GenMap::retained_up_to(before, after, f, before.slots().len()),
        before.is_dead(k),
        !C::WRAP_ON_OVERFLOW,
    ensures
        after.is_dead(k),
{
    before.lemma_free_list_vacant();
    assert(GenMap::retained_slot(before, after, f, k.0));
    if before.holds(k.0) {
        before.lemma_held_generation(k.0);
    }
    if after.free_list().contains(k.0) {
        lemma_free_after_emptying_from(before, after, before.slots().len(), k.0);
    }
    assert(!after@.contains_key(k));
}

/// A clone has the same dead keys as the map it was cloned from.
pub proof fn law_clone_keeps_dead<T: Clone, C: MapConfig<T>>(source: GenMap<T, C>, copy: GenMap<T, C>, k: (nat, nat))
    requires
        source.wf(),
        GenMap::is_clone_of(source, copy),
        source.is_dead(k),
    ensures
        copy.is_dead(k),
{
    assert(copy.holds(k.0) == source.holds(k.0));
    assert(!copy@.contains_key(k));
}

/// A map whose slots live in a `Vec` reports its storage full (from
/// [`try_insert`](GenMap::try_insert), [`vacant_entry`](GenMap::vacant_entry)
/// or [`try_insert_with_key`](GenMap::try_insert_with_key)) only with an
/// error that `Vec::try_reserve` for one more slot gives on those very
/// slots: it fails only when the `Vec` can not grow by one.
pub proof fn law_vec_storage_full_only_when_it_can_not_grow<T>(
    m: GenMap<T>,
    e: std::collections::TryReserveError,
)
    requires
        m.storage_refused(e),
    ensures
        exists|v: &mut Vec<MapSlot<T, DefaultKeyConfig>>|
            #![trigger call_ensures(Vec::<MapSlot<T, DefaultKeyConfig>>::try_reserve, (v, 1usize), Err::<(), std::collections::TryReserveError>(e))]
            *v == m.storage() && call_ensures(
                Vec::<MapSlot<T, DefaultKeyConfig>>::try_reserve,
                (v, 1usize),
                Err::<(), std::collections::TryReserveError>(e),
            ),
{
}

} // verus!
