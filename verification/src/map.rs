use crate::config::{
    key_config_ok, key_max_generation, key_max_idx, DefaultMapConfig, KeyConfig, MapConfig,
    MapSlot,
};
use crate::error::{FullError, GetDisjointMutAtError, GetDisjointMutError, InsertError, InsertWithError};
use crate::key::{lemma_key_view_unique, Key};
use crate::key_layout::KeyLayout;
use crate::key_piece::KeyPiece;
use crate::map_model::{
    count_values, free_list_ok, lemma_count_bound, lemma_count_none, lemma_count_push,
    lemma_count_same, lemma_count_update, lemma_free_append, lemma_free_excludes_values, lemma_free_pop,
    lemma_free_push, lemma_free_update_other, link_nat, value_count,
};
use crate::parity::{Even, Odd};
use crate::slot::{Parity, Slot};
use crate::storage::{ReserveStorage, SlotStorage};
use disjoint::{pick_disjoint, vec_into_array};
use vstd::prelude::*;

mod disjoint;
mod iter;
pub use iter::{entry_key, entry_value, owned_entries, Cursor, Drain, IntoIter, Iter, IterMut, Keys, Values, ValuesMut};

verus! {

/// The key config of the keys a map with config `C` hands out.
pub type MapKeyConfig<T, C> = <C as MapConfig<T>>::KeyConfig;

/// The index type of the keys a map with config `C` hands out.
pub type MapIdx<T, C> = <<C as MapConfig<T>>::KeyConfig as KeyConfig>::Idx;

/// The generation type of the keys a map with config `C` hands out.
pub type MapGen<T, C> = <<C as MapConfig<T>>::KeyConfig as KeyConfig>::Gen;

/// The error the storage of a `GenMap<T, C>` gives when it can not make room
/// for another slot.
pub type StorageError<T, C> = <<C as MapConfig<T>>::Storage as SlotStorage<
    MapSlot<T, MapKeyConfig<T, C>>,
>>::Error;

/// A generational map with a configuration of `C`.
///
/// The map keeps its values in a list of slots. A key is the index of a slot
/// together with the slot's odd generation at the time the key was handed
/// out, and it matches the slot while the two generations are equal. A
/// slot's generation goes up by one on every insert and every remove, so a
/// removed value's key stops matching, and the next value in that slot gets
/// a key with a newer generation. Freed slots go on a free list and are
/// reused, last freed first, before the map adds new ones.
pub struct GenMap<T, C: MapConfig<T> = DefaultMapConfig> {
    slots: C::Storage,
    next_free: Option<MapIdx<T, C>>,
    len: usize,
    free: Ghost<Seq<nat>>,
}

/// Where the next inserted value will go, worked out before anything is
/// written.
pub struct Target<T, C: MapConfig<T>> {
    idx: MapIdx<T, C>,
    position: usize,
    generation: Odd<MapGen<T, C>>,
    from_free_list: bool,
}

impl<T, C: MapConfig<T>> Target<T, C> {
    /// The key a value put at this target gets.
    pub closed spec fn spec_key(&self) -> (nat, nat) {
        (self.idx.as_nat(), self.generation.value())
    }

    /// The target is a slot that comes off the free list, rather than one
    /// pushed onto the storage.
    pub closed spec fn spec_from_free_list(&self) -> bool {
        self.from_free_list
    }

    /// The target is where the next insert into `map` goes, if the storage
    /// has room for a new slot when one is needed.
    pub closed spec fn names_next_slot(&self, map: GenMap<T, C>) -> bool {
        &&& map.wf()
        &&& self.idx.as_nat() == self.position
        &&& (self.idx.as_nat(), self.generation.value()) == map.next_key()
        &&& self.from_free_list == (map.free_list().len() > 0)
        &&& !self.from_free_list ==> map.slots().len() <= key_max_idx::<C::KeyConfig>()
    }

    /// The target is where the next insert into `map` goes, and the storage
    /// has room for a new slot if one is needed.
    pub open spec fn valid_for(&self, map: GenMap<T, C>) -> bool {
        &&& self.names_next_slot(map)
        &&& !self.spec_from_free_list() ==> map.storage_has_room()
    }

    /// The key a value put at this target gets.
    pub fn key(&self) -> (r: Key<C::KeyConfig>)
        requires
            key_config_ok::<C::KeyConfig>(),
            self.spec_key().0 <= key_max_idx::<C::KeyConfig>(),
            self.spec_key().1 <= key_max_generation::<C::KeyConfig>(),
        ensures
            r@ == self.spec_key(),
    {
        Key::from_raw_parts(self.idx, self.generation)
    }
}

/// The slot the next insert would use, handed out by
/// [`GenMap::vacant_entry`]. Nothing is written until
/// [`insert`](Self::insert) is called, so dropping the entry leaves the map
/// as it was.
pub struct VacantEntry<'a, T, C: MapConfig<T>> {
    /// The map the entry belongs to.
    pub map: &'a mut GenMap<T, C>,
    /// Where the value goes.
    pub target: Target<T, C>,
}

impl<'a, T, C: MapConfig<T>> VacantEntry<'a, T, C> {
    /// The key the value will get. It is invalid until
    /// [`insert`](Self::insert) is called.
    pub fn key(&self) -> (r: Key<C::KeyConfig>)
        requires
            self.target.valid_for(*self.map),
        ensures
            r@ == self.target.spec_key(),
            r@ == old(self.map).next_key(),
    {
        proof {
            self.target.lemma_fits(*self.map);
        }
        self.target.key()
    }

    /// Puts `value` in the slot and returns its key, which is the one
    /// [`key`](Self::key) gave.
    pub fn insert(self, value: T) -> (r: Key<C::KeyConfig>)
        requires
            self.target.valid_for(*old(self.map)),
        ensures
            r@ == self.target.spec_key(),
            GenMap::inserted(*old(self.map), *final(self.map), r@, value),
    {
        self.map.fill(self.target, value)
    }
}

impl<T, C: MapConfig<T>> Target<T, C> {
    /// A target for `map` names a slot whose index and generation fit a key.
    proof fn lemma_fits(&self, map: GenMap<T, C>)
        requires
            self.names_next_slot(map),
        ensures
            self.spec_key().0 <= key_max_idx::<C::KeyConfig>(),
            self.spec_key().1 <= key_max_generation::<C::KeyConfig>(),
            self.spec_key().1 % 2 == 1,
            key_config_ok::<C::KeyConfig>(),
    {
        map.lemma_wf_limits();
        if self.from_free_list {
            let i = map.free_list()[0];
            assert(map.slots()[i as int].wf());
        }
    }
}

impl<T> GenMap<T> {
    /// Creates an empty map with the [`DefaultMapConfig`].
    ///
    /// Use [`new_with_config`](Self::new_with_config) for any other config,
    /// since Rust does not use a default type parameter when it infers
    /// types.
    pub fn new() -> (r: Self)
        ensures
            r.wf(),
            r.slots().len() == 0,
            r.free_list().len() == 0,
            r.spec_len() == 0,
            r@ == Map::<(nat, nat), T>::empty(),
    {
        Self::new_with_config()
    }

    /// Creates an empty map with the [`DefaultMapConfig`] and room for
    /// `capacity` slots.
    pub fn with_capacity(capacity: usize) -> (r: Self)
        ensures
            r.wf(),
            r.slots().len() == 0,
            r.free_list().len() == 0,
            r.spec_len() == 0,
            r@ == Map::<(nat, nat), T>::empty(),
    {
        Self::with_capacity_and_config(capacity)
    }
}

impl<T> Default for GenMap<T> {
    /// An empty map with the [`DefaultMapConfig`], as [`new`](GenMap::new)
    /// makes it.
    fn default() -> (r: Self)
        ensures
            r.wf(),
            r.slots().len() == 0,
            r.free_list().len() == 0,
            r.spec_len() == 0,
            r@ == Map::<(nat, nat), T>::empty(),
    {
        Self::new()
    }
}

/// These methods need a storage that can grow on request, so a map whose
/// storage has a fixed capacity does not have them.
impl<T, C: MapConfig<T>> GenMap<T, C> where
    C::Storage: ReserveStorage<MapSlot<T, C::KeyConfig>>,
 {
    /// Creates an empty map with config `C` and room for `capacity` slots.
    pub fn with_capacity_and_config(capacity: usize) -> (r: Self)
        requires
            key_config_ok::<C::KeyConfig>(),
        ensures
            r.wf(),
            r.slots().len() == 0,
            r.free_list().len() == 0,
            r.spec_len() == 0,
            r@ == Map::<(nat, nat), T>::empty(),
    {
        let r = GenMap {
            slots: C::Storage::with_capacity(capacity),
            next_free: None,
            len: 0,
            free: Ghost(Seq::empty()),
        };
        assert(r@ =~= Map::<(nat, nat), T>::empty());
        r
    }

    /// Reserves room for at least `additional` more slots. Panics or aborts
    /// if the storage can not make the room, as `Vec::reserve` does.
    pub fn reserve(&mut self, additional: usize)
        requires
            old(self).wf(),
        ensures
            GenMap::same_contents(*old(self), *final(self)),
            final(self).storage_has_room(),
    {
        self.slots.reserve(additional);
        proof {
            C::Storage::lemma_growable();
        }
    }

    /// The fallible form of [`reserve`](Self::reserve). Returns what the
    /// storage says when it can not make the room.
    pub fn try_reserve(&mut self, additional: usize) -> (r: Result<(), StorageError<T, C>>)
        requires
            old(self).wf(),
        ensures
            GenMap::same_contents(*old(self), *final(self)),
            r is Ok ==> final(self).storage_has_room(),
            old(self).slots().len() + additional > usize::MAX ==> r is Err,
    {
        let r = self.slots.try_reserve(additional);
        proof {
            C::Storage::lemma_growable();
        }
        r
    }
}

impl<T, C: MapConfig<T>> GenMap<T, C> {
    /// The slots, whether they hold a value or not.
    pub closed spec fn slots(&self) -> Seq<MapSlot<T, C::KeyConfig>> {
        self.slots.items()
    }

    /// The positions of the free slots, the next one to be used first.
    pub closed spec fn free_list(&self) -> Seq<nat> {
        self.free@
    }

    /// The number of values.
    pub closed spec fn spec_len(&self) -> nat {
        self.len as nat
    }

    /// The storage the slots live in.
    pub closed spec fn storage(&self) -> C::Storage {
        self.slots
    }

    /// `e` is an error the storage can give when asked to make room for one
    /// more slot, as [`SlotStorage::ensure_room`] does before a new slot is
    /// pushed.
    pub open spec fn storage_refused(&self, e: StorageError<T, C>) -> bool {
        <C::Storage as SlotStorage<MapSlot<T, C::KeyConfig>>>::made_room(self.storage(), Err(e))
    }

    /// The storage can take another slot without failing: it can grow, or
    /// it holds fewer slots than its fixed capacity.
    pub open spec fn storage_has_room(&self) -> bool {
        ||| <C::Storage as SlotStorage<MapSlot<T, C::KeyConfig>>>::fixed_capacity() is None
        ||| self.slots().len() < <C::Storage as SlotStorage<MapSlot<T, C::KeyConfig>>>::fixed_capacity()->0
    }

    /// The storage holds no more slots than its fixed capacity, if it has
    /// one.
    pub open spec fn within_capacity(&self) -> bool {
        <C::Storage as SlotStorage<MapSlot<T, C::KeyConfig>>>::fixed_capacity() is Some ==> self.slots().len()
            <= <C::Storage as SlotStorage<MapSlot<T, C::KeyConfig>>>::fixed_capacity()->0
    }

    /// The map's bookkeeping agrees with its slots: the key layout's bit
    /// counts add up, every slot position fits a key, every generation fits
    /// a key, `len` counts the slots that hold a value, and the free list is
    /// a chain of distinct slots that hold no value.
    pub closed spec fn wf(&self) -> bool {
        &&& key_config_ok::<C::KeyConfig>()
        &&& self.slots().len() <= key_max_idx::<C::KeyConfig>() + 1
        &&& self.within_capacity()
        &&& forall|i: int|
            0 <= i < self.slots().len() ==> (#[trigger] self.slots()[i]).wf()
                && self.slots()[i].spec_generation() <= key_max_generation::<C::KeyConfig>()
        &&& self.len as nat == count_values(self.slots())
        &&& free_list_ok(self.slots(), self.free@)
        &&& match self.next_free {
            None => self.free@.len() == 0,
            Some(i) => self.free@.len() > 0 && i.as_nat() == self.free@[0],
        }
    }

    /// The slot at `i` holds a value.
    pub open spec fn holds(&self, i: nat) -> bool {
        i < self.slots().len() && self.slots()[i as int].holds_value()
    }

    /// The generation of the slot at `i`.
    pub open spec fn generation_of(&self, i: nat) -> nat {
        self.slots()[i as int].spec_generation()
    }

    /// The value in the slot at `i`, meaningful while it holds one.
    pub open spec fn value_of(&self, i: nat) -> T {
        self.slots()[i as int].spec_value()
    }

    /// The link of the slot at `i`, meaningful while it holds no value.
    pub open spec fn link_of(&self, i: nat) -> Option<nat> {
        link_nat(self.slots()[i as int].spec_link())
    }

    /// The values by key: a key `(idx, generation)` matches while the slot
    /// at `idx` holds a value under that generation.
    pub open spec fn view(&self) -> Map<(nat, nat), T> {
        Map::new(
            |k: (nat, nat)| self.holds(k.0) && self.generation_of(k.0) == k.1,
            |k: (nat, nat)| self.value_of(k.0),
        )
    }

    /// The key the next insert hands out: the first free slot with its
    /// generation plus one, or a new slot with generation one.
    pub open spec fn next_key(&self) -> (nat, nat) {
        if self.free_list().len() > 0 {
            (self.free_list()[0], self.generation_of(self.free_list()[0]) + 1)
        } else {
            (self.slots().len(), 1)
        }
    }

    /// No slot is free and the keys have no index left for a new one.
    pub open spec fn index_exhausted(&self) -> bool {
        self.free_list().len() == 0 && self.slots().len() > key_max_idx::<C::KeyConfig>()
    }

    /// An insert can not fail: a slot is free, or there is an index left for
    /// a new one and the storage has room for it.
    pub open spec fn can_insert(&self) -> bool {
        ||| self.free_list().len() > 0
        ||| (self.slots().len() <= key_max_idx::<C::KeyConfig>() && self.storage_has_room())
    }

    /// The generation a slot gets when the value with generation `g` is
    /// removed: the next one, or zero once `g` is the largest a key can hold.
    pub open spec fn generation_after(g: nat) -> nat {
        if g < key_max_generation::<C::KeyConfig>() {
            g + 1
        } else {
            0
        }
    }

    /// Removing the value with generation `g` retires its slot.
    pub open spec fn retires(g: nat) -> bool {
        g == key_max_generation::<C::KeyConfig>() && !C::WRAP_ON_OVERFLOW
    }

    /// `after` is `before` with `value` inserted under `key`, the key the next
    /// insert hands out: into the first free slot, or into a new slot pushed
    /// after the others when none is free.
    pub open spec fn inserted(before: Self, after: Self, key: (nat, nat), value: T) -> bool {
        &&& after.wf()
        &&& key == before.next_key()
        &&& !before@.contains_key(key)
        &&& after@ == before@.insert(key, value)
        &&& after.spec_len() == before.spec_len() + 1
        &&& after.slots().len() == if before.free_list().len() > 0 {
            before.slots().len()
        } else {
            before.slots().len() + 1
        }
        &&& after.free_list() == if before.free_list().len() > 0 {
            before.free_list().drop_first()
        } else {
            before.free_list()
        }
        &&& after.holds(key.0) && after.generation_of(key.0) == key.1 && after.value_of(key.0)
            == value
        &&& forall|i: nat|
            i < before.slots().len() && i != key.0 ==> #[trigger] after.slots()[i as int]
                == before.slots()[i as int]
    }

    /// `after` has the same slots, free list and length as `before`.
    pub open spec fn unchanged(before: Self, after: Self) -> bool {
        &&& after.slots() == before.slots()
        &&& after.free_list() == before.free_list()
        &&& after.spec_len() == before.spec_len()
    }

    /// `after` is `before` with only its allocation changed: it is well
    /// formed and has the same slots, free list and length.
    pub open spec fn same_contents(before: Self, after: Self) -> bool {
        &&& after.wf()
        &&& GenMap::unchanged(before, after)
    }

    /// The entry of the slot at `i`: its key and its value, meaningful while
    /// it holds one.
    pub open spec fn entry_of(&self, i: nat) -> ((nat, nat), T) {
        ((i, self.generation_of(i)), self.value_of(i))
    }

    /// The entries of the slots from `lo` up to but not including `hi` that
    /// hold a value, in slot order.
    pub open spec fn entries_between(&self, lo: nat, hi: nat) -> Seq<((nat, nat), T)>
        decreases hi,
    {
        if hi <= lo {
            Seq::empty()
        } else {
            let i = (hi - 1) as nat;
            let rest = self.entries_between(lo, i);
            if self.holds(i) {
                rest.push(self.entry_of(i))
            } else {
                rest
            }
        }
    }

    /// The entries of every slot that holds a value, in slot order.
    pub open spec fn entries(&self) -> Seq<((nat, nat), T)> {
        self.entries_between(0, self.slots().len())
    }

    /// Splitting the first slot off a range of entries.
    pub proof fn lemma_entries_front(&self, lo: nat, hi: nat)
        requires
            lo < hi,
        ensures
            self.entries_between(lo, hi) == (if self.holds(lo) {
                seq![self.entry_of(lo)]
            } else {
                Seq::empty()
            }) + self.entries_between(lo + 1, hi),
        decreases hi,
    {
        if hi == lo + 1 {
            assert(self.entries_between(lo + 1, hi) =~= Seq::empty());
            assert(self.entries_between(lo, lo) =~= Seq::empty());
        } else {
            self.lemma_entries_front(lo, (hi - 1) as nat);
        }
    }

    /// Two maps whose slots from `lo` up to `hi` are the same have the same
    /// entries there.
    pub proof fn lemma_entries_same(a: Self, b: Self, lo: nat, hi: nat)
        requires
            a.slots().len() == b.slots().len(),
            forall|i: nat| lo <= i < hi ==> #[trigger] a.slots()[i as int] == b.slots()[i as int],
        ensures
            a.entries_between(lo, hi) == b.entries_between(lo, hi),
        decreases hi,
    {
        if hi > lo {
            GenMap::lemma_entries_same(a, b, lo, (hi - 1) as nat);
            assert(a.slots()[hi - 1] == b.slots()[hi - 1]);
        }
    }

    /// There are as many entries in the first `n` slots as values.
    proof fn lemma_entries_len(&self, n: nat)
        requires
            n <= self.slots().len(),
        ensures
            self.entries_between(0, n).len() == count_values(self.slots().subrange(0, n as int)),
        decreases n,
    {
        if n > 0 {
            self.lemma_entries_len((n - 1) as nat);
            assert(self.slots().subrange(0, n as int).drop_last() =~= self.slots().subrange(0, n - 1));
        }
    }

    /// A well formed map has one entry for each of its values.
    pub proof fn lemma_entries_count(&self)
        requires
            self.wf(),
        ensures
            self.entries().len() == self.spec_len(),
    {
        self.lemma_entries_len(self.slots().len());
        assert(self.slots().subrange(0, self.slots().len() as int) =~= self.slots());
    }

    /// `after` is `before` with at most the values in its slots changed: it
    /// is well formed, and has the same free list, length, slot count, and
    /// the same generation and occupancy in every slot.
    pub open spec fn same_shape(before: Self, after: Self) -> bool {
        &&& after.wf()
        &&& after.slots().len() == before.slots().len()
        &&& after.free_list() == before.free_list()
        &&& after.spec_len() == before.spec_len()
        &&& forall|i: nat| #[trigger] after.holds(i) == before.holds(i)
        &&& forall|i: nat|
            i < before.slots().len() ==> #[trigger] after.generation_of(i) == before.generation_of(i)
    }

    /// A slot that holds a value has an odd generation, so at least one.
    pub proof fn lemma_held_generation(&self, i: nat)
        requires
            self.wf(),
            self.holds(i),
        ensures
            self.generation_of(i) % 2 == 1,
            1 <= self.generation_of(i) <= key_max_generation::<C::KeyConfig>(),
    {
        assert(self.slots()[i as int].wf());
    }

    /// Every slot on the free list exists and holds no value.
    pub proof fn lemma_free_list_vacant(&self)
        requires
            self.wf(),
        ensures
            forall|i: nat| #[trigger] self.free_list().contains(i) ==> i < self.slots().len() && !self.holds(i),
    {
        assert forall|i: nat| #[trigger] self.free_list().contains(i) implies i < self.slots().len() && !self.holds(i) by {
            let j = choose|j: int| 0 <= j < self.free_list().len() && self.free_list()[j] == i;
            assert(self.free@[j] < self.slots().len());
        }
    }

    /// Two maps with the same slots, free list and length look the same.
    proof fn lemma_unchanged(before: Self, after: Self)
        requires
            GenMap::unchanged(before, after),
        ensures
            after@ == before@,
            after.next_key() == before.next_key(),
            forall|key: (nat, nat), value: T, next: Self|
                GenMap::inserted(after, next, key, value) ==> GenMap::inserted(before, next, key, value),
    {
        assert(after@ =~= before@);
    }

    /// What every well formed map satisfies about its limits.
    pub(crate) proof fn lemma_wf_limits(&self)
        requires
            self.wf(),
        ensures
            self.spec_len() <= self.slots().len(),
            key_max_idx::<C::KeyConfig>() <= MapIdx::<T, C>::spec_max(),
            1 <= key_max_generation::<C::KeyConfig>() <= MapGen::<T, C>::spec_max(),
            key_max_generation::<C::KeyConfig>() % 2 == 1,
            count_values(self.slots()) <= self.slots().len(),
    {
        <<C::KeyConfig as KeyConfig>::Layout as KeyLayout<MapIdx<T, C>, MapGen<T, C>>>::lemma_limits();
        lemma_count_bound(self.slots());
    }

    /// Creates an empty map with config `C`.
    pub fn new_with_config() -> (r: Self)
        requires
            key_config_ok::<C::KeyConfig>(),
        ensures
            r.wf(),
            r.slots().len() == 0,
            r.free_list().len() == 0,
            r.spec_len() == 0,
            r@ == Map::<(nat, nat), T>::empty(),
    {
        let r = GenMap { slots: C::Storage::empty(), next_free: None, len: 0, free: Ghost(Seq::empty()) };
        assert(r@ =~= Map::<(nat, nat), T>::empty());
        r
    }

    /// How many slots the storage can hold before it has to grow, or in total
    /// if it can not grow.
    pub fn capacity(&self) -> (r: usize)
        ensures
            <C::Storage as SlotStorage<MapSlot<T, C::KeyConfig>>>::fixed_capacity() is Some ==> r as nat
                == <C::Storage as SlotStorage<MapSlot<T, C::KeyConfig>>>::fixed_capacity()->0,
            self.wf() ==> r as nat >= self.slots().len(),
    {
        self.slots.capacity()
    }

    /// The number of values in the map.
    pub fn len(&self) -> (r: usize)
        requires
            self.wf(),
        ensures
            r as nat == self.spec_len(),
    {
        self.len
    }

    /// Returns `true` if the map holds no values.
    pub fn is_empty(&self) -> (r: bool)
        requires
            self.wf(),
        ensures
            r == (self.spec_len() == 0),
    {
        self.len == 0
    }

    /// The number of slots, whether they hold a value or not.
    pub fn slots_len(&self) -> (r: usize)
        ensures
            r as nat == self.slots().len(),
    {
        self.slots.len()
    }

    /// The position in the storage of the slot a key's index names, or
    /// `None` if there is no such slot.
    fn position(&self, idx: MapIdx<T, C>) -> (r: Option<usize>)
        ensures
            r is Some <==> idx.as_nat() < self.slots().len(),
            r is Some ==> r->0 as nat == idx.as_nat(),
    {
        let count = self.slots.len();
        match idx.into_usize() {
            Some(position) => {
                if position < count {
                    Some(position)
                } else {
                    None
                }
            },
            None => None,
        }
    }

    /// The target of the next insert when a slot is free.
    fn target_from_free_list(&self) -> (r: Target<T, C>)
        requires
            self.wf(),
            self.free_list().len() > 0,
        ensures
            r.valid_for(*self),
            r.spec_from_free_list(),
    {
        proof {
            self.lemma_wf_limits();
        }
        proof {
            self.slots.lemma_len_fits();
        }
        let idx = match self.next_free {
            Some(idx) => idx,
            None => vstd::pervasive::unreached(),
        };
        let position = idx.into_usize_unchecked();
        let slot = self.slots.get(position);
        slot.lemma_wf();
        assert(!slot.holds_value());
        let generation = Even::new_unchecked(slot.generation()).next();
        Target { idx, position, generation, from_free_list: true }
    }

    /// The target of the next insert when no slot is free and a new one has
    /// to be pushed, or `None` if the keys have no index left for it.
    fn target_for_new_slot(&self) -> (r: Option<Target<T, C>>)
        requires
            self.wf(),
            self.free_list().len() == 0,
        ensures
            r is Some <==> !self.index_exhausted(),
            r is Some ==> r->0.names_next_slot(*self) && !r->0.spec_from_free_list(),
    {
        proof {
            self.lemma_wf_limits();
        }
        let position = self.slots.len();
        let idx = match MapIdx::<T, C>::from_usize(position) {
            Some(idx) => idx,
            None => {
                return None;
            },
        };
        if !idx.is_at_most(
            <<C::KeyConfig as KeyConfig>::Layout as KeyLayout<MapIdx<T, C>, MapGen<T, C>>>::max_idx(),
        ) {
            return None;
        }
        let generation = Even::zero().next();
        Some(Target { idx, position, generation, from_free_list: false })
    }

    /// Works out where the next value goes without writing any slot. When a
    /// slot has to be pushed, this makes sure the storage has room for it.
    /// When the keys' index and the storage both run out, the error is
    /// `IndexExhausted`.
    fn next_target(&mut self) -> (r: Result<Target<T, C>, FullError<StorageError<T, C>>>)
        requires
            old(self).wf(),
        ensures
            final(self).wf(),
            GenMap::unchanged(*old(self), *final(self)),
            final(self).next_key() == old(self).next_key(),
            r is Ok ==> r->Ok_0.valid_for(*final(self)),
            r is Err ==> old(self).free_list().len() == 0,
            (r matches Err(FullError::IndexExhausted)) <==> old(self).index_exhausted(),
            r matches Err(FullError::StorageFull(e)) ==> old(self).storage_refused(e),
            <C::Storage as SlotStorage<MapSlot<T, C::KeyConfig>>>::fixed_capacity() is Some && old(self).can_insert() ==> r is Ok,
    {
        if self.next_free.is_some() {
            return Ok(self.target_from_free_list());
        }
        match self.target_for_new_slot() {
            Some(target) => {
                proof {
                    self.slots.lemma_room();
                }
                match self.slots.ensure_room() {
                    Err(error) => Err(FullError::StorageFull(error)),
                    Ok(()) => {
                        proof {
                            self.slots.lemma_room();
                        }
                        Ok(target)
                    },
                }
            },
            None => Err(FullError::IndexExhausted),
        }
    }

    /// Writes `value` where `target` says and returns its key.
    fn fill(&mut self, target: Target<T, C>, value: T) -> (r: Key<C::KeyConfig>)
        requires
            target.valid_for(*old(self)),
        ensures
            r@ == target.spec_key(),
            GenMap::inserted(*old(self), *final(self), r@, value),
    {
        let ghost before = *self;
        proof {
            before.lemma_wf_limits();
            target.lemma_fits(before);
        }
        let key = target.key();
        if target.from_free_list {
            target.generation.lemma_odd();
            let slot = self.slots.get_mut(target.position);
            let ghost new_slot = *final(slot);
            let link = slot.replace_even_unchecked(target.generation, value);
            self.next_free = link;
            proof {
                let p = target.position as int;
                assert(new_slot.spec_parity() == Parity::<MapGen<T, C>, T, Option<MapIdx<T, C>>>::Odd(target.generation, value));
                lemma_count_update(before.slots(), p, new_slot);
                lemma_free_pop(before.slots(), before.free@, new_slot);
                self.free@ = self.free@.drop_first();
            }
        } else {
            let slot = Slot::new_odd(target.generation, value);
            let ghost new_slot = slot;
            proof {
                self.slots.lemma_room();
            }
            match self.slots.try_push(slot) {
                Ok(()) => {},
                Err(_) => vstd::pervasive::unreached(),
            }
            proof {
                lemma_count_push(before.slots(), new_slot);
                lemma_free_append(before.slots(), before.free@, new_slot);
            }
        }
        proof {
            self.slots.lemma_len_fits();
        }
        proof {
            lemma_count_bound(self.slots());
        }
        self.len = self.len + 1;
        proof {
            assert(self@ =~= before@.insert(key@, value));
        }
        key
    }

    /// Inserts a value and returns its key.
    ///
    /// The map must not be full: a slot is free, or the keys have an index
    /// left for a new slot and the storage has room for it.
    pub fn insert(&mut self, value: T) -> (r: Key<C::KeyConfig>)
        requires
            old(self).wf(),
            old(self).can_insert(),
        ensures
            GenMap::inserted(*old(self), *final(self), r@, value),
    {
        let target = if self.next_free.is_some() {
            self.target_from_free_list()
        } else {
            match self.target_for_new_slot() {
                Some(target) => target,
                None => vstd::pervasive::unreached(),
            }
        };
        self.fill(target, value)
    }

    /// Inserts the value returned by `f`, which is given the value's key.
    ///
    /// The map must not be full, as for [`insert`](Self::insert). Nothing is
    /// written until `f` has returned.
    pub fn insert_with_key<F>(&mut self, f: F) -> (r: Key<C::KeyConfig>) where
        F: FnOnce(Key<C::KeyConfig>) -> T,

        requires
            old(self).wf(),
            old(self).can_insert(),
            forall|k: Key<C::KeyConfig>| k@ == old(self).next_key() ==> f.requires((k,)),
        ensures
            f.ensures((r,), final(self)@[r@]),
            GenMap::inserted(*old(self), *final(self), r@, final(self)@[r@]),
    {
        let target = if self.next_free.is_some() {
            self.target_from_free_list()
        } else {
            match self.target_for_new_slot() {
                Some(target) => target,
                None => vstd::pervasive::unreached(),
            }
        };
        proof {
            target.lemma_fits(*self);
        }
        let key = target.key();
        let value = f(key);
        let r = self.fill(target, value);
        key.lemma_parts();
        r.lemma_parts();
        proof {
            lemma_key_view_unique(key, r);
        }
        r
    }

    /// Hands out the slot the next insert would use, without writing to it.
    /// [`VacantEntry::key`] is the key the value will get and
    /// [`VacantEntry::insert`] puts it there. Dropping the entry leaves the
    /// map as it was.
    ///
    /// Returns [`FullError::IndexExhausted`] if none of the slots are free
    /// and the map's keys have no index left for a new one, and
    /// [`FullError::StorageFull`] if none of them are free and the storage
    /// can not make room for another one.
    pub fn vacant_entry(&mut self) -> (r: Result<VacantEntry<'_, T, C>, FullError<StorageError<T, C>>>)
        requires
            old(self).wf(),
        ensures
            match r {
                Ok(entry) => {
                    &&& entry.map.wf()
                    &&& entry.target.valid_for(*entry.map)
                    &&& GenMap::unchanged(*old(self), *entry.map)
                    &&& entry.target.spec_key() == old(self).next_key()
                    &&& *final(entry.map) == *final(self)
                },
                Err(error) => {
                    &&& final(self).wf()
                    &&& GenMap::unchanged(*old(self), *final(self))
                    &&& old(self).free_list().len() == 0
                    &&& (error is IndexExhausted <==> old(self).index_exhausted())
                    &&& (error matches FullError::StorageFull(e) ==> old(self).storage_refused(e))
                },
            },
            old(self).free_list().len() > 0 ==> r is Ok,
            <C::Storage as SlotStorage<MapSlot<T, C::KeyConfig>>>::fixed_capacity() is Some && old(self).can_insert() ==> r is Ok,
    {
        match self.next_target() {
            Ok(target) => Ok(VacantEntry { map: self, target }),
            Err(error) => Err(error),
        }
    }

    /// Inserts a value and returns its key, or hands the value back if the
    /// map is full.
    ///
    /// Returns [`InsertError::IndexExhausted`] if none of the slots are free
    /// and the map's keys have no index left for a new one, and
    /// [`InsertError::StorageFull`] if none of them are free and the storage
    /// can not make room for another one.
    pub fn try_insert(&mut self, value: T) -> (r: Result<Key<C::KeyConfig>, InsertError<T, StorageError<T, C>>>)
        requires
            old(self).wf(),
        ensures
            match r {
                Ok(key) => GenMap::inserted(*old(self), *final(self), key@, value),
                Err(error) => {
                    &&& final(self).wf()
                    &&& GenMap::unchanged(*old(self), *final(self))
                    &&& error.spec_value() == value
                    &&& old(self).free_list().len() == 0
                    &&& (error is IndexExhausted <==> old(self).index_exhausted())
                    &&& (error matches InsertError::StorageFull(_, e) ==> old(self).storage_refused(e))
                },
            },
            old(self).free_list().len() > 0 ==> r is Ok,
            <C::Storage as SlotStorage<MapSlot<T, C::KeyConfig>>>::fixed_capacity() is Some && old(self).can_insert() ==> r is Ok,
    {
        let ghost before = *self;
        let target = self.next_target();
        proof {
            GenMap::lemma_unchanged(before, *self);
        }
        match target {
            Ok(target) => Ok(self.fill(target, value)),
            Err(FullError::IndexExhausted) => Err(InsertError::IndexExhausted(value)),
            Err(FullError::StorageFull(error)) => Err(InsertError::StorageFull(value, error)),
        }
    }

    /// Like [`insert_with_key`](Self::insert_with_key), but `f` may fail and
    /// a full map is an error rather than a requirement. On either error
    /// nothing is inserted.
    ///
    /// Returns [`InsertWithError::Full`] if the map is full, without calling
    /// `f`, and [`InsertWithError::Rejected`] with whatever `f` returned if
    /// `f` fails.
    pub fn try_insert_with_key<F, E>(&mut self, f: F) -> (r: Result<
        Key<C::KeyConfig>,
        InsertWithError<E, StorageError<T, C>>,
    >) where F: FnOnce(Key<C::KeyConfig>) -> Result<T, E>
        requires
            old(self).wf(),
            forall|k: Key<C::KeyConfig>| k@ == old(self).next_key() ==> f.requires((k,)),
        ensures
            match r {
                Ok(key) => {
                    &&& f.ensures((key,), Ok::<T, E>(final(self)@[key@]))
                    &&& GenMap::inserted(*old(self), *final(self), key@, final(self)@[key@])
                },
                Err(InsertWithError::Rejected(error)) => {
                    &&& final(self).wf()
                    &&& GenMap::unchanged(*old(self), *final(self))
                    &&& exists|k: Key<C::KeyConfig>| k@ == old(self).next_key() && f.ensures((k,), Err::<T, E>(error))
                },
                Err(InsertWithError::Full(error)) => {
                    &&& final(self).wf()
                    &&& GenMap::unchanged(*old(self), *final(self))
                    &&& old(self).free_list().len() == 0
                    &&& (error is IndexExhausted <==> old(self).index_exhausted())
                    &&& (error matches FullError::StorageFull(e) ==> old(self).storage_refused(e))
                },
            },
            old(self).free_list().len() > 0 ==> !(r matches Err(InsertWithError::Full(_))),
            <C::Storage as SlotStorage<MapSlot<T, C::KeyConfig>>>::fixed_capacity() is Some && old(self).can_insert() ==> !(r matches Err(InsertWithError::Full(_))),
    {
        let ghost before = *self;
        let target = match self.next_target() {
            Ok(target) => target,
            Err(error) => {
                return Err(InsertWithError::Full(error));
            },
        };
        proof {
            GenMap::lemma_unchanged(before, *self);
            target.lemma_fits(*self);
        }
        let key = target.key();
        match f(key) {
            Ok(value) => {
                let r = self.fill(target, value);
                key.lemma_parts();
                r.lemma_parts();
                proof {
                    lemma_key_view_unique(key, r);
                }
                Ok(r)
            },
            Err(error) => Err(InsertWithError::Rejected(error)),
        }
    }

    /// `after` is `before` with the value in the slot at `i` taken out as
    /// [`remove`](Self::remove) takes it: the slot's generation moves on, and
    /// the slot goes to the front of the free list, unless its generation
    /// has run out and the config retires such slots.
    pub open spec fn taken(before: Self, after: Self, i: nat) -> bool {
        let g = before.generation_of(i);
        &&& after.wf()
        &&& before.holds(i)
        &&& after@ == before@.remove((i, g))
        &&& after.spec_len() + 1 == before.spec_len()
        &&& after.slots().len() == before.slots().len()
        &&& forall|j: nat|
            j < before.slots().len() && j != i ==> #[trigger] after.slots()[j as int]
                == before.slots()[j as int]
        &&& !after.holds(i)
        &&& after.generation_of(i) == GenMap::<T, C>::generation_after(g)
        &&& if GenMap::<T, C>::retires(g) {
            &&& after.free_list() == before.free_list()
            &&& after.link_of(i) == None::<nat>
        } else {
            after.free_list() == seq![i] + before.free_list()
        }
    }

    /// `after` is `before` with the slot at `i` changed to hold no value,
    /// with generation `g` and link `link`, and nothing else changed. The
    /// slot held a value before.
    pub open spec fn emptied(before: Self, after: Self, i: nat, g: nat, link: Option<nat>) -> bool {
        &&& after.wf()
        &&& before.holds(i)
        &&& after@ == before@.remove((i, before.generation_of(i)))
        &&& after.spec_len() + 1 == before.spec_len()
        &&& after.slots().len() == before.slots().len()
        &&& forall|j: nat|
            j < before.slots().len() && j != i ==> #[trigger] after.slots()[j as int]
                == before.slots()[j as int]
        &&& !after.holds(i)
        &&& after.generation_of(i) == g
        &&& after.link_of(i) == link
        &&& after.free_list() == before.free_list()
    }

    /// The slot at `k.0` holds no value because [`detach`](Self::detach)
    /// took the value of the key `k` out: its generation is the one after
    /// `k.1` and it links to itself.
    pub open spec fn is_detached(&self, k: (nat, nat)) -> bool {
        &&& k.0 < self.slots().len()
        &&& !self.holds(k.0)
        &&& k.1 < key_max_generation::<C::KeyConfig>()
        &&& self.generation_of(k.0) == k.1 + 1
        &&& self.link_of(k.0) == Some(k.0)
    }

    /// Emptying the slot at `p` of a well formed map, with the free list kept
    /// or the slot pushed onto its front, gives a well formed map without
    /// the value.
    proof fn lemma_slot_emptied(before: Self, after: Self, p: nat, slot: MapSlot<T, C::KeyConfig>)
        requires
            before.wf(),
            before.holds(p),
            after.slots() == before.slots().update(p as int, slot),
            !slot.holds_value(),
            slot.wf(),
            slot.spec_generation() <= key_max_generation::<C::KeyConfig>(),
            after.len + 1 == before.len,
            ({
                ||| after.free@ == before.free@ && after.next_free == before.next_free
                ||| {
                    &&& after.free@ == seq![p] + before.free@
                    &&& after.next_free is Some
                    &&& after.next_free->0.as_nat() == p
                    &&& link_nat(slot.spec_link()) == (if before.free@.len() > 0 {
                        Some(before.free@[0])
                    } else {
                        None
                    })
                }
            }),
        ensures
            after.wf(),
            after@ == before@.remove((p, before.generation_of(p))),
    {
        lemma_count_update(before.slots(), p as int, slot);
        if after.free@ == before.free@ && after.next_free == before.next_free {
            lemma_free_excludes_values(before.slots(), before.free@, p as int);
            lemma_free_update_other(before.slots(), before.free@, p as int, slot);
        } else {
            lemma_free_push(before.slots(), before.free@, p as int, slot);
        }
        assert forall|i: int| 0 <= i < after.slots().len() implies (#[trigger] after.slots()[i]).wf()
            && after.slots()[i].spec_generation() <= key_max_generation::<C::KeyConfig>() by {
            if i != p {
                assert(after.slots()[i] == before.slots()[i]);
            }
        }
        assert(after@ =~= before@.remove((p, before.generation_of(p))));
    }

    /// The generation after `generation`, or `None` if `generation` is the
    /// largest one a key can hold, which is when a slot retires or wraps.
    fn next_generation(generation: Odd<MapGen<T, C>>) -> (r: Option<Even<MapGen<T, C>>>)
        requires
            key_config_ok::<C::KeyConfig>(),
            generation.value() <= key_max_generation::<C::KeyConfig>(),
        ensures
            r is None <==> generation.value() == key_max_generation::<C::KeyConfig>(),
            r is Some ==> r->0.value() == generation.value() + 1,
    {
        proof {
            <<C::KeyConfig as KeyConfig>::Layout as KeyLayout<MapIdx<T, C>, MapGen<T, C>>>::lemma_limits();
        }
        let max = <<C::KeyConfig as KeyConfig>::Layout as KeyLayout<MapIdx<T, C>, MapGen<T, C>>>::max_generation();
        if generation.get().is_equal(max.get()) {
            None
        } else {
            Some(generation.wrapping_next())
        }
    }

    /// Moves the value out of the slot at `position`. The slot then goes on
    /// the free list, unless its generation has run out and the config
    /// retires such slots.
    fn take(&mut self, idx: MapIdx<T, C>, position: usize) -> (r: T)
        requires
            old(self).wf(),
            old(self).holds(position as nat),
            idx.as_nat() == position,
        ensures
            r == old(self).value_of(position as nat),
            GenMap::taken(*old(self), *final(self), position as nat),
    {
        let ghost before = *self;
        let ghost p = position as int;
        proof {
            before.lemma_wf_limits();
            assert(before.slots()[p].wf());
        }
        let generation = Odd::new_unchecked(self.slots.get(position).generation());
        let (next, link, push) = match Self::next_generation(generation) {
            Some(next) => (next, self.next_free, true),
            None => {
                if C::WRAP_ON_OVERFLOW {
                    (Even::zero(), self.next_free, true)
                } else {
                    (Even::zero(), None, false)
                }
            },
        };
        if push {
            self.next_free = Some(idx);
        }
        next.lemma_even();
        let slot = self.slots.get_mut(position);
        let ghost new_slot = *final(slot);
        let value = slot.replace_odd_unchecked(next, link);
        proof {
            lemma_count_update(before.slots(), p, new_slot);
            if push {
                self.free@ = seq![position as nat] + self.free@;
            }
        }
        self.len = self.len - 1;
        proof {
            GenMap::lemma_slot_emptied(before, *self, position as nat, new_slot);
        }
        value
    }

    /// Puts the slot at `position`, which holds a value, into a state with
    /// no value, generation `generation` and link `link`, without touching
    /// the free list.
    fn empty_slot(&mut self, position: usize, generation: Even<MapGen<T, C>>, link: Option<MapIdx<T, C>>) -> (r: T)
        requires
            old(self).wf(),
            old(self).holds(position as nat),
            generation.value() <= key_max_generation::<C::KeyConfig>(),
            link is Some ==> link->0.as_nat() == position,
        ensures
            r == old(self).value_of(position as nat),
            GenMap::emptied(*old(self), *final(self), position as nat, generation.value(), link_nat(link)),
    {
        let ghost before = *self;
        let ghost p = position as int;
        generation.lemma_even();
        let slot = self.slots.get_mut(position);
        let ghost new_slot = *final(slot);
        let value = slot.replace_odd_unchecked(generation, link);
        proof {
            lemma_count_update(before.slots(), p, new_slot);
        }
        self.len = self.len - 1;
        proof {
            GenMap::lemma_slot_emptied(before, *self, position as nat, new_slot);
        }
        value
    }

    /// The position of the slot whose value `key` matches, or `None` if
    /// `key` is invalid.
    fn valid_position(&self, key: Key<C::KeyConfig>) -> (r: Option<usize>)
        ensures
            r is Some <==> self@.contains_key(key@),
            r is Some ==> r->0 as nat == key@.0,
    {
        match self.position(key.idx()) {
            Some(position) => {
                if self.slots.get(position).get_odd(key.generation()).is_some() {
                    Some(position)
                } else {
                    None
                }
            },
            None => None,
        }
    }

    /// Removes and returns the value corresponding to `key`, or returns
    /// `None` if the key is invalid.
    pub fn remove(&mut self, key: Key<C::KeyConfig>) -> (r: Option<T>)
        requires
            old(self).wf(),
        ensures
            final(self).wf(),
            r is Some <==> old(self)@.contains_key(key@),
            r is Some ==> r->0 == old(self)@[key@] && GenMap::taken(*old(self), *final(self), key@.0),
            r is None ==> GenMap::unchanged(*old(self), *final(self)),
    {
        match self.valid_position(key) {
            Some(position) => Some(self.take(key.idx(), position)),
            None => None,
        }
    }

    /// Removes and returns the value corresponding to `key` like
    /// [`remove`](Self::remove), but retires its slot instead of freeing it:
    /// its generation goes to zero and it stays off the free list, so no key
    /// to it can ever match a new value until [`reset`](Self::reset).
    /// Returns `None` if the key is invalid.
    pub fn retire(&mut self, key: Key<C::KeyConfig>) -> (r: Option<T>)
        requires
            old(self).wf(),
        ensures
            final(self).wf(),
            r is Some <==> old(self)@.contains_key(key@),
            r is Some ==> r->0 == old(self)@[key@] && GenMap::emptied(*old(self), *final(self), key@.0, 0, None),
            r is None ==> GenMap::unchanged(*old(self), *final(self)),
    {
        match self.valid_position(key) {
            Some(position) => Some(self.empty_slot(position, Even::zero(), None)),
            None => None,
        }
    }

    /// Takes the value out of the map while keeping its slot reserved for
    /// `key`, so that [`reattach`](Self::reattach) can put a value back under
    /// the same key. Until then the key is invalid and no insert uses the
    /// slot.
    ///
    /// Returns `None` if the key is invalid, and also if the key's generation
    /// is the largest one a key can hold; the value stays in the map then.
    pub fn detach(&mut self, key: Key<C::KeyConfig>) -> (r: Option<T>)
        requires
            old(self).wf(),
        ensures
            final(self).wf(),
            r is Some <==> old(self)@.contains_key(key@) && key@.1 < key_max_generation::<C::KeyConfig>(),
            r is Some ==> r->0 == old(self)@[key@] && GenMap::emptied(*old(self), *final(self), key@.0, key@.1 + 1, Some(key@.0))
                && final(self).is_detached(key@),
            r is None ==> GenMap::unchanged(*old(self), *final(self)),
    {
        let position = match self.valid_position(key) {
            Some(position) => position,
            None => {
                return None;
            },
        };
        key.lemma_parts();
        let next = match Self::next_generation(key.generation()) {
            Some(next) => next,
            None => {
                return None;
            },
        };
        Some(self.empty_slot(position, next, Some(key.idx())))
    }

    /// Puts a value back under a key whose value [`detach`](Self::detach)
    /// took out. The key is valid again afterwards.
    pub fn reattach(&mut self, key: Key<C::KeyConfig>, value: T)
        requires
            old(self).wf(),
            old(self).is_detached(key@),
        ensures
            final(self).wf(),
            final(self)@ == old(self)@.insert(key@, value),
            final(self).spec_len() == old(self).spec_len() + 1,
            final(self).free_list() == old(self).free_list(),
            final(self).slots().len() == old(self).slots().len(),
            final(self).holds(key@.0),
            final(self).generation_of(key@.0) == key@.1,
            forall|j: nat|
                j < old(self).slots().len() && j != key@.0 ==> #[trigger] final(self).slots()[j as int]
                    == old(self).slots()[j as int],
    {
        let ghost before = *self;
        proof {
            self.slots.lemma_len_fits();
        }
        let position = key.idx().into_usize_unchecked();
        let ghost p = position as int;
        proof {
            before.lemma_wf_limits();
            assert forall|j: int| 0 <= j < before.free@.len() implies #[trigger] before.free@[j] != p by {
                if before.free@[j] == p {
                    if j + 1 < before.free@.len() {
                        assert(before.free@[j] != before.free@[j + 1]);
                    }
                }
            }
        }
        let generation = key.generation();
        generation.lemma_odd();
        let slot = self.slots.get_mut(position);
        let ghost new_slot = *final(slot);
        slot.replace_even_unchecked(generation, value);
        proof {
            lemma_count_update(before.slots(), p, new_slot);
            lemma_free_update_other(before.slots(), before.free@, p, new_slot);
            lemma_count_bound(self.slots());
        }
        proof {
            self.slots.lemma_len_fits();
        }
        self.len = self.len + 1;
        proof {
            assert(self@ =~= before@.insert(key@, value));
        }
    }

    /// The free list after the first `n` slots of `before` were emptied in
    /// order, as [`clear`](Self::clear) empties them: each slot that held a
    /// value goes to the front of the list, unless it retires.
    pub open spec fn free_after_clearing(before: Self, n: nat) -> Seq<nat>
        decreases n,
    {
        if n == 0 {
            before.free_list()
        } else {
            let i = (n - 1) as nat;
            let rest = GenMap::free_after_clearing(before, i);
            if before.holds(i) && !GenMap::<T, C>::retires(before.generation_of(i)) {
                seq![i] + rest
            } else {
                rest
            }
        }
    }

    /// `after` is `before` with every value removed as
    /// [`remove`](Self::remove) removes it, in slot order: every slot is
    /// kept, and each one that held a value has the generation after its
    /// old one.
    pub open spec fn cleared(before: Self, after: Self) -> bool {
        &&& after.wf()
        &&& after@ == Map::<(nat, nat), T>::empty()
        &&& after.spec_len() == 0
        &&& after.slots().len() == before.slots().len()
        &&& forall|i: nat|
            i < before.slots().len() ==> !#[trigger] after.holds(i) && if before.holds(i) {
                &&& after.generation_of(i) == GenMap::<T, C>::generation_after(before.generation_of(i))
                &&& GenMap::<T, C>::retires(before.generation_of(i)) ==> after.link_of(i) == None::<nat>
            } else {
                after.slots()[i as int] == before.slots()[i as int]
            }
        &&& after.free_list() == GenMap::free_after_clearing(before, before.slots().len())
    }

    /// What [`clear`](Self::clear) has done once the slots before
    /// `position` are emptied.
    pub open spec fn cleared_up_to(before: Self, now: Self, position: nat) -> bool {
        &&& now.wf()
        &&& now.slots().len() == before.slots().len()
        &&& position <= before.slots().len()
        &&& forall|i: nat|
            i < position ==> !#[trigger] now.holds(i) && if before.holds(i) {
                &&& now.generation_of(i) == GenMap::<T, C>::generation_after(before.generation_of(i))
                &&& GenMap::<T, C>::retires(before.generation_of(i)) ==> now.link_of(i) == None::<nat>
            } else {
                now.slots()[i as int] == before.slots()[i as int]
            }
        &&& forall|i: nat|
            position <= i < before.slots().len() ==> #[trigger] now.slots()[i as int]
                == before.slots()[i as int]
        &&& now.free_list() == GenMap::free_after_clearing(before, position)
    }

    /// Emptying the slot at `position`, if it holds a value, moves
    /// [`clear`](Self::clear) one slot on.
    #[verifier::spinoff_prover]
    proof fn lemma_clear_step(before: Self, now: Self, next: Self, position: nat)
        requires
            GenMap::cleared_up_to(before, now, position),
            position < before.slots().len(),
            if now.holds(position) {
                GenMap::taken(now, next, position)
            } else {
                next == now
            },
        ensures
            GenMap::cleared_up_to(before, next, position + 1),
    {
        assert(now.slots()[position as int] == before.slots()[position as int]);
        assert forall|i: nat| i < position + 1 implies !#[trigger] next.holds(i) && if before.holds(i) {
            &&& next.generation_of(i) == GenMap::<T, C>::generation_after(before.generation_of(i))
            &&& GenMap::<T, C>::retires(before.generation_of(i)) ==> next.link_of(i) == None::<nat>
        } else {
            next.slots()[i as int] == before.slots()[i as int]
        } by {
            if i < position {
                if now.holds(position) {
                    assert(next.slots()[i as int] == now.slots()[i as int]);
                }
                assert(next.holds(i) == now.holds(i));
                assert(next.generation_of(i) == now.generation_of(i));
                assert(next.link_of(i) == now.link_of(i));
            } else {
                assert(i == position);
                assert(before.holds(i) == now.holds(i));
            }
        }
        assert forall|i: nat| position + 1 <= i < before.slots().len() implies #[trigger] next.slots()[i as int]
            == before.slots()[i as int] by {
            assert(now.slots()[i as int] == before.slots()[i as int]);
        }
        assert(before.holds(position) == now.holds(position));
        assert(before.generation_of(position) == now.generation_of(position));
        assert(next.free_list() == GenMap::free_after_clearing(before, position + 1));
        assert(next.wf());
        assert(next.slots().len() == before.slots().len());
    }

    /// Removes every value. Slots are kept and every old key stays invalid.
    #[verifier::spinoff_prover]
    pub fn clear(&mut self)
        requires
            old(self).wf(),
        ensures
            GenMap::cleared(*old(self), *final(self)),
    {
        let ghost before = *self;
        let count = self.slots.len();
        let mut position: usize = 0;
        proof {
            assert(GenMap::cleared_up_to(before, *self, 0));
        }
        while position < count
            invariant
                GenMap::cleared_up_to(before, *self, position as nat),
                count == before.slots().len(),
            decreases count - position,
        {
            proof {
                self.lemma_wf_limits();
            }
            let ghost now = *self;
            if self.slots.get(position).is_odd() {
                let idx = MapIdx::<T, C>::from_usize_unchecked(position);
                self.take(idx, position);
            }
            proof {
                GenMap::lemma_clear_step(before, now, *self, position as nat);
            }
            position = position + 1;
        }
        proof {
            GenMap::lemma_clear_done(before, *self);
        }
    }

    /// Once every slot is emptied, [`clear`](Self::clear) is done.
    #[verifier::spinoff_prover]
    proof fn lemma_clear_done(before: Self, now: Self)
        requires
            GenMap::cleared_up_to(before, now, before.slots().len()),
        ensures
            GenMap::cleared(before, now),
    {
        assert forall|i: int| 0 <= i < now.slots().len() implies !(#[trigger] now.slots()[i]).holds_value() by {
            assert(!now.holds(i as nat));
        }
        assert(now@ =~= Map::<(nat, nat), T>::empty());
        lemma_count_none(now.slots());
    }

    /// The free list after the first `n` slots of `before` were visited in
    /// order and the ones that hold a value in `before` but not in `after`
    /// were emptied as [`remove`](Self::remove) empties them: each goes to
    /// the front of the list, unless it retires.
    pub open spec fn free_after_emptying(before: Self, after: Self, n: nat) -> Seq<nat>
        decreases n,
    {
        if n == 0 {
            before.free_list()
        } else {
            let i = (n - 1) as nat;
            let rest = GenMap::free_after_emptying(before, after, i);
            if before.holds(i) && !after.holds(i) && !GenMap::<T, C>::retires(before.generation_of(i)) {
                seq![i] + rest
            } else {
                rest
            }
        }
    }

    /// `f` can return `keep` when called with the key `(i, g)` and a value
    /// that is `v` when the call begins.
    pub open spec fn closure_returned<F: FnMut(Key<C::KeyConfig>, &mut T) -> bool>(
        f: F,
        i: nat,
        g: nat,
        v: T,
        keep: bool,
    ) -> bool {
        exists|k: Key<C::KeyConfig>, r: &mut T|
            #![trigger call_ensures(f, (k, r), keep)]
            k@ == (i, g) && *r == v && call_ensures(f, (k, r), keep)
    }

    /// What [`retain`](Self::retain) did to the slot at `i`: if it held a
    /// value, `f` was handed its key and value, and the slot keeps, under
    /// the same generation, the value as `f` left it if `f` returned `true`,
    /// and was emptied as
    /// [`remove`](Self::remove) empties it otherwise; if it held no value it
    /// is unchanged.
    pub open spec fn retained_slot<F: FnMut(Key<C::KeyConfig>, &mut T) -> bool>(
        before: Self,
        now: Self,
        f: F,
        i: nat,
    ) -> bool {
        if before.holds(i) {
            if now.holds(i) {
                &&& now.generation_of(i) == before.generation_of(i)
                &&& GenMap::<T, C>::closure_returned(f, i, before.generation_of(i), before.value_of(i), true)
            } else {
                &&& now.generation_of(i) == GenMap::<T, C>::generation_after(before.generation_of(i))
                &&& GenMap::<T, C>::retires(before.generation_of(i)) ==> now.link_of(i) == None::<nat>
                &&& GenMap::<T, C>::closure_returned(f, i, before.generation_of(i), before.value_of(i), false)
            }
        } else {
            now.slots()[i as int] == before.slots()[i as int]
        }
    }

    /// What [`retain`](Self::retain) has done once it has visited the slots
    /// before `position`: each slot that held a value was handed to `f`
    /// with its key, keeps the value `f` left if `f` returned `true`, and
    /// was emptied as [`remove`](Self::remove) empties it otherwise.
    pub open spec fn retained_up_to<F: FnMut(Key<C::KeyConfig>, &mut T) -> bool>(
        before: Self,
        now: Self,
        f: F,
        position: nat,
    ) -> bool {
        &&& now.wf()
        &&& now.slots().len() == before.slots().len()
        &&& position <= before.slots().len()
        &&& forall|i: nat| i < position ==> #[trigger] GenMap::retained_slot(before, now, f, i)
        &&& forall|i: nat|
            position <= i < before.slots().len() ==> #[trigger] now.slots()[i as int]
                == before.slots()[i as int]
        &&& now.free_list() == GenMap::free_after_emptying(before, now, position)
    }

    /// Visiting a slot that holds no value moves [`retain`](Self::retain)
    /// one slot on.
    proof fn lemma_retain_skip<F: FnMut(Key<C::KeyConfig>, &mut T) -> bool>(
        before: Self,
        now: Self,
        f: F,
        position: nat,
    )
        requires
            GenMap::retained_up_to(before, now, f, position),
            position < before.slots().len(),
            !now.holds(position),
        ensures
            GenMap::retained_up_to(before, now, f, position + 1),
    {
        assert(now.slots()[position as int] == before.slots()[position as int]);
        assert(GenMap::retained_slot(before, now, f, position));
        assert(GenMap::free_after_emptying(before, now, position + 1) == GenMap::free_after_emptying(before, now, position));
    }

    /// The free list `retain` builds only depends on which of the visited
    /// slots still hold a value.
    proof fn lemma_free_after_emptying_same(before: Self, a: Self, b: Self, n: nat)
        requires
            forall|i: nat| i < n ==> #[trigger] a.holds(i) == b.holds(i),
        ensures
            GenMap::free_after_emptying(before, a, n) == GenMap::free_after_emptying(before, b, n),
        decreases n,
    {
        if n > 0 {
            GenMap::lemma_free_after_emptying_same(before, a, b, (n - 1) as nat);
        }
    }

    /// Handing the slot at `position` to `f`, and emptying it if `f`
    /// returned `false`, moves [`retain`](Self::retain) one slot on.
    #[verifier::spinoff_prover]
    proof fn lemma_retain_step<F: FnMut(Key<C::KeyConfig>, &mut T) -> bool>(
        before: Self,
        now: Self,
        mid: Self,
        next: Self,
        f: F,
        position: nat,
        keep: bool,
    )
        requires
            GenMap::retained_up_to(before, now, f, position),
            position < before.slots().len(),
            now.holds(position),
            mid.wf(),
            mid.slots().len() == now.slots().len(),
            mid.free_list() == now.free_list(),
            forall|i: nat| #[trigger] mid.holds(i) == now.holds(i),
            forall|i: nat|
                i < now.slots().len() ==> #[trigger] mid.generation_of(i) == now.generation_of(i),
            forall|i: nat|
                i < now.slots().len() && i != position ==> #[trigger] mid.slots()[i as int]
                    == now.slots()[i as int],
            GenMap::<T, C>::closure_returned(f, position, before.generation_of(position), before.value_of(position), keep),
            if keep {
                next == mid
            } else {
                GenMap::taken(mid, next, position)
            },
        ensures
            GenMap::retained_up_to(before, next, f, position + 1),
    {
        assert(now.slots()[position as int] == before.slots()[position as int]);
        assert forall|i: nat| i < position implies #[trigger] next.slots()[i as int] == now.slots()[i as int] by {
            if !keep {
                assert(next.slots()[i as int] == mid.slots()[i as int]);
            }
        }
        assert forall|i: nat| i < position implies #[trigger] next.holds(i) == now.holds(i) by {
            assert(next.slots()[i as int] == now.slots()[i as int]);
        }
        GenMap::lemma_free_after_emptying_same(before, now, next, position);
        assert forall|i: nat| i < position + 1 implies #[trigger] GenMap::retained_slot(before, next, f, i) by {
            if i < position {
                assert(next.slots()[i as int] == now.slots()[i as int]);
                assert(GenMap::retained_slot(before, now, f, i));
            }
        }
        assert forall|i: nat| position + 1 <= i < before.slots().len() implies #[trigger] next.slots()[i as int]
            == before.slots()[i as int] by {
            if !keep {
                assert(next.slots()[i as int] == mid.slots()[i as int]);
            }
            assert(mid.slots()[i as int] == now.slots()[i as int]);
        }
    }

    /// Keeps only the values for which `f` returns `true`. `f` may change
    /// them. Slots are visited in order, and every value `f` rejects is
    /// removed as [`remove`](Self::remove) removes it.
    #[verifier::spinoff_prover]
    #[verifier::rlimit(60)]
    pub fn retain<F: FnMut(Key<C::KeyConfig>, &mut T) -> bool>(&mut self, f: F)
        requires
            old(self).wf(),
            forall|k: Key<C::KeyConfig>, v: &mut T| call_requires(f, (k, v)),
        ensures
            GenMap::retained_up_to(*old(self), *final(self), f, old(self).slots().len()),
            final(self).spec_len() == count_values(final(self).slots()),
            forall|i: nat|
                #![trigger final(self).holds(i)]
                old(self).holds(i) && final(self).holds(i) ==> exists|k: Key<C::KeyConfig>, r: &mut T|
                    #![trigger call_ensures(f, (k, r), true)]
                    k@ == (i, old(self).generation_of(i)) && *r == old(self).value_of(i) && *final(r)
                        == final(self).value_of(i) && call_ensures(f, (k, r), true),
    {
        broadcast use vstd::function::group_function_axioms;

        let mut f = f;
        let ghost g = f;
        let ghost before = *self;
        let count = self.slots.len();
        let mut position: usize = 0;
        proof {
            assert(GenMap::retained_up_to(before, *self, g, 0));
        }
        while position < count
            invariant
                GenMap::retained_up_to(before, *self, g, position as nat),
                count == before.slots().len(),
                f == g,
                forall|k: Key<C::KeyConfig>, v: &mut T| call_requires(g, (k, v)),
                forall|i: nat|
                    #![trigger self.holds(i)]
                    i < position && before.holds(i) && self.holds(i) ==> exists|
                        k: Key<C::KeyConfig>,
                        r: &mut T,
                    |
                        #![trigger call_ensures(g, (k, r), true)]
                        k@ == (i, before.generation_of(i)) && *r == before.value_of(i) && *final(r)
                            == self.value_of(i) && call_ensures(g, (k, r), true),
            decreases count - position,
        {
            proof {
                self.lemma_wf_limits();
            }
            let ghost now = *self;
            if self.slots.get(position).is_odd() {
                let idx = MapIdx::<T, C>::from_usize_unchecked(position);
                let (key, value) = self.get_at_unchecked_mut(idx);
                let keep = f(key, value);
                proof {
                    assert(exists|r: &mut T|
                        #![trigger call_ensures(g, (key, r), keep)]
                        *r == before.value_of(position as nat) && *final(r) == *final(value)
                            && call_ensures(g, (key, r), keep));
                }
                proof {
                    assert(GenMap::<T, C>::closure_returned(g, position as nat, before.generation_of(position as nat), before.value_of(position as nat), keep));
                }
                let ghost mid = *self;

                if !keep {
                    self.take(idx, position);
                }
                proof {
                    GenMap::lemma_retain_step(before, now, mid, *self, g, position as nat, keep);
                    let p = position as nat;
                    assert(mid@.contains_key(key@));
                    assert forall|i: nat|
                        #![trigger self.holds(i)]
                        i < p + 1 && before.holds(i) && self.holds(i) implies exists|
                            k: Key<C::KeyConfig>,
                            r: &mut T,
                        |
                            #![trigger call_ensures(g, (k, r), true)]
                            k@ == (i, before.generation_of(i)) && *r == before.value_of(i) && *final(r)
                                == self.value_of(i) && call_ensures(g, (k, r), true) by {
                        if i < p {
                            assert(self.slots()[i as int] == now.slots()[i as int]);
                            assert(now.holds(i));
                        } else {
                            assert(keep);
                            assert(now.slots()[i as int] == before.slots()[i as int]);
                            assert(key@ == (p, before.generation_of(p)));
                            assert(mid@[key@] == *final(value));
                            assert(mid@[key@] == mid.value_of(p));
                            assert(self.value_of(p) == *final(value));
                        }
                    }
                }
            } else {
                proof {
                    GenMap::lemma_retain_skip(before, now, g, position as nat);
                }
            }
            position = position + 1;
        }
    }

    /// Removes every value and every slot, keeping the allocation.
    ///
    /// Generations start over, so unlike [`clear`](Self::clear) this lets a
    /// key from before the call match a value inserted after it.
    pub fn reset(&mut self)
        requires
            old(self).wf(),
        ensures
            final(self).wf(),
            final(self).slots().len() == 0,
            final(self).free_list().len() == 0,
            final(self).spec_len() == 0,
            final(self)@ == Map::<(nat, nat), T>::empty(),
    {
        self.next_free = None;
        self.len = 0;
        self.slots.clear();
        proof {
            self.free@ = Seq::empty();
            assert(self@ =~= Map::<(nat, nat), T>::empty());
        }
    }

    /// Returns the key of the value in the slot at `idx`, or `None` if there
    /// is no slot at `idx` or the slot holds no value. A slot holds no value
    /// while it is vacant, detached or retired.
    pub fn key_at(&self, idx: MapIdx<T, C>) -> (r: Option<Key<C::KeyConfig>>)
        requires
            self.wf(),
        ensures
            r is Some <==> self.holds(idx.as_nat()),
            r is Some ==> r->0@ == (idx.as_nat(), self.generation_of(idx.as_nat())),
            r is Some ==> self@.contains_key(r->0@),
    {
        proof {
            self.lemma_wf_limits();
        }
        match self.position(idx) {
            Some(position) => {
                let slot = self.slots.get(position);
                slot.lemma_wf();
                match slot.as_parity() {
                    Parity::Odd(generation, _) => Some(Key::from_raw_parts(idx, generation)),
                    Parity::Even(..) => None,
                }
            },
            None => None,
        }
    }

    /// [`key_at`](Self::key_at) for an index whose slot is known to hold a
    /// value.
    pub fn key_at_unchecked(&self, idx: MapIdx<T, C>) -> (r: Key<C::KeyConfig>)
        requires
            self.wf(),
            self.holds(idx.as_nat()),
        ensures
            r@ == (idx.as_nat(), self.generation_of(idx.as_nat())),
    {
        match self.key_at(idx) {
            Some(key) => key,
            None => vstd::pervasive::unreached(),
        }
    }

    /// Returns the key and a reference to the value in the slot at `idx`, or
    /// `None` if there is no slot at `idx` or the slot holds no value.
    pub fn get_at(&self, idx: MapIdx<T, C>) -> (r: Option<(Key<C::KeyConfig>, &T)>)
        requires
            self.wf(),
        ensures
            r is Some <==> self.holds(idx.as_nat()),
            r is Some ==> (r->0).0@ == (idx.as_nat(), self.generation_of(idx.as_nat())) && *(r->0).1
                == self.value_of(idx.as_nat()),
    {
        proof {
            self.lemma_wf_limits();
        }
        match self.position(idx) {
            Some(position) => {
                let slot = self.slots.get(position);
                slot.lemma_wf();
                match slot.as_parity() {
                    Parity::Odd(generation, value) => Some((Key::from_raw_parts(idx, generation), value)),
                    Parity::Even(..) => None,
                }
            },
            None => None,
        }
    }

    /// [`get_at`](Self::get_at) for an index whose slot is known to hold a
    /// value.
    pub fn get_at_unchecked(&self, idx: MapIdx<T, C>) -> (r: (Key<C::KeyConfig>, &T))
        requires
            self.wf(),
            self.holds(idx.as_nat()),
        ensures
            r.0@ == (idx.as_nat(), self.generation_of(idx.as_nat())),
            *r.1 == self.value_of(idx.as_nat()),
    {
        match self.get_at(idx) {
            Some(pair) => pair,
            None => vstd::pervasive::unreached(),
        }
    }

    /// Returns the key and a mutable reference to the value in the slot at
    /// `idx`, or `None` if there is no slot at `idx` or the slot holds no
    /// value.
    pub fn get_at_mut(&mut self, idx: MapIdx<T, C>) -> (r: Option<(Key<C::KeyConfig>, &mut T)>)
        requires
            old(self).wf(),
        ensures
            r is Some <==> old(self).holds(idx.as_nat()),
            r is Some ==> (r->0).0@ == (idx.as_nat(), old(self).generation_of(idx.as_nat()))
                && *(r->0).1 == old(self).value_of(idx.as_nat())
                && final(self)@ == old(self)@.insert((r->0).0@, *final((r->0).1)),
            r is None ==> final(self).slots() == old(self).slots(),
            final(self).wf(),
            final(self).slots().len() == old(self).slots().len(),
            final(self).free_list() == old(self).free_list(),
            final(self).spec_len() == old(self).spec_len(),
            forall|i: nat| #[trigger] final(self).holds(i) == old(self).holds(i),
            forall|i: nat|
                i < old(self).slots().len() && i != idx.as_nat() ==> #[trigger] final(self).slots()[i as int]
                    == old(self).slots()[i as int],
            forall|i: nat|
                i < old(self).slots().len() ==> #[trigger] final(self).generation_of(i)
                    == old(self).generation_of(i),
    {
        proof {
            self.lemma_wf_limits();
        }
        match self.key_at(idx) {
            Some(key) => match self.get_mut(key) {
                Some(value) => Some((key, value)),
                None => vstd::pervasive::unreached(),
            },
            None => None,
        }
    }

    /// [`get_at_mut`](Self::get_at_mut) for an index whose slot is known to
    /// hold a value.
    pub fn get_at_unchecked_mut(&mut self, idx: MapIdx<T, C>) -> (r: (Key<C::KeyConfig>, &mut T))
        requires
            old(self).wf(),
            old(self).holds(idx.as_nat()),
        ensures
            r.0@ == (idx.as_nat(), old(self).generation_of(idx.as_nat())),
            *r.1 == old(self).value_of(idx.as_nat()),
            final(self)@ == old(self)@.insert(r.0@, *final(r.1)),
            final(self).wf(),
            final(self).slots().len() == old(self).slots().len(),
            final(self).free_list() == old(self).free_list(),
            final(self).spec_len() == old(self).spec_len(),
            forall|i: nat| #[trigger] final(self).holds(i) == old(self).holds(i),
            forall|i: nat|
                i < old(self).slots().len() && i != idx.as_nat() ==> #[trigger] final(self).slots()[i as int]
                    == old(self).slots()[i as int],
            forall|i: nat|
                i < old(self).slots().len() ==> #[trigger] final(self).generation_of(i)
                    == old(self).generation_of(i),
    {
        match self.get_at_mut(idx) {
            Some(pair) => pair,
            None => vstd::pervasive::unreached(),
        }
    }

    /// Returns the generation of the slot at `idx`, or `None` if there is no
    /// slot at `idx`. Every slot has a generation, whether it holds a value
    /// or not: it is odd while the slot holds a value and even otherwise.
    pub fn generation_at(&self, idx: MapIdx<T, C>) -> (r: Option<MapGen<T, C>>)
        ensures
            r is Some <==> idx.as_nat() < self.slots().len(),
            r is Some ==> r->0.as_nat() == self.generation_of(idx.as_nat()),
    {
        match self.position(idx) {
            Some(position) => Some(self.slots.get(position).generation()),
            None => None,
        }
    }

    /// [`generation_at`](Self::generation_at) for an index that is known to
    /// name a slot.
    pub fn generation_at_unchecked(&self, idx: MapIdx<T, C>) -> (r: MapGen<T, C>)
        requires
            idx.as_nat() < self.slots().len(),
        ensures
            r.as_nat() == self.generation_of(idx.as_nat()),
    {
        match self.generation_at(idx) {
            Some(generation) => generation,
            None => vstd::pervasive::unreached(),
        }
    }

    /// [`get`](Self::get) for a key that is known to be valid.
    pub fn get_unchecked(&self, key: Key<C::KeyConfig>) -> (r: &T)
        requires
            self@.contains_key(key@),
        ensures
            *r == self@[key@],
    {
        match self.get(key) {
            Some(value) => value,
            None => vstd::pervasive::unreached(),
        }
    }

    /// [`get_mut`](Self::get_mut) for a key that is known to be valid.
    pub fn get_unchecked_mut(&mut self, key: Key<C::KeyConfig>) -> (r: &mut T)
        requires
            old(self)@.contains_key(key@),
        ensures
            *r == old(self)@[key@],
            final(self)@ == old(self)@.insert(key@, *final(r)),
            final(self).slots().len() == old(self).slots().len(),
            final(self).free_list() == old(self).free_list(),
            final(self).spec_len() == old(self).spec_len(),
            forall|i: nat| #[trigger] final(self).holds(i) == old(self).holds(i),
            forall|i: nat|
                i < old(self).slots().len() ==> #[trigger] final(self).generation_of(i)
                    == old(self).generation_of(i),
            old(self).wf() ==> final(self).wf(),
    {
        match self.get_mut(key) {
            Some(value) => value,
            None => vstd::pervasive::unreached(),
        }
    }

    /// Returns `true` if `key` is valid.
    pub fn contains_key(&self, key: Key<C::KeyConfig>) -> (r: bool)
        ensures
            r == self@.contains_key(key@),
    {
        self.get(key).is_some()
    }

    /// Returns a reference to the value corresponding to `key`.
    pub fn get(&self, key: Key<C::KeyConfig>) -> (r: Option<&T>)
        ensures
            r is Some <==> self@.contains_key(key@),
            r is Some ==> *r->0 == self@[key@],
    {
        match self.position(key.idx()) {
            Some(position) => self.slots.get(position).get_odd(key.generation()),
            None => None,
        }
    }

    /// Returns a mutable reference to the value corresponding to `key`.
    pub fn get_mut(&mut self, key: Key<C::KeyConfig>) -> (r: Option<&mut T>)
        ensures
            r is Some <==> old(self)@.contains_key(key@),
            r is Some ==> *r->0 == old(self)@[key@],
            r is Some ==> final(self)@ == old(self)@.insert(key@, *final(r->0)),
            r is None ==> final(self).slots() == old(self).slots(),
            final(self).slots().len() == old(self).slots().len(),
            final(self).free_list() == old(self).free_list(),
            final(self).spec_len() == old(self).spec_len(),
            forall|i: nat| #[trigger] final(self).holds(i) == old(self).holds(i),
            forall|i: nat|
                i < old(self).slots().len() && i != key@.0 ==> #[trigger] final(self).slots()[i as int]
                    == old(self).slots()[i as int],
            forall|i: nat|
                i < old(self).slots().len() ==> #[trigger] final(self).generation_of(i)
                    == old(self).generation_of(i),
            old(self).wf() ==> final(self).wf(),
    {
        match self.position(key.idx()) {
            Some(position) => {
                let ghost old_map = *self;
                let slot = self.slots.get_mut(position);
                let ghost new_slot = *final(slot);
                proof {
                    if old_map.wf() && old_map.slots()[position as int].holds_value() {
                        lemma_count_update(old_map.slots(), position as int, new_slot);
                        lemma_free_excludes_values(old_map.slots(), old_map.free@, position as int);
                        lemma_free_update_other(old_map.slots(), old_map.free@, position as int, new_slot);
                    }
                }
                let r = slot.get_odd_mut(key.generation());
                proof {
                    assert(r is None ==> new_slot == old_map.slots()[position as int]);
                    assert(old_map.slots().update(position as int, old_map.slots()[position as int]) =~= old_map.slots());
                }
                r
            },
            None => None,
        }
    }
}

impl<T, C: MapConfig<T>> GenMap<T, C> {
    /// `copy` is a clone of `source`: it is well formed and has the same
    /// slots, free list, generations and length, with a clone of every value
    /// in the slot it was in, so every key of `source` works on `copy`.
    pub open spec fn is_clone_of(source: Self, copy: Self) -> bool where T: Clone {
        &&& copy.wf()
        &&& copy.slots().len() == source.slots().len()
        &&& copy.free_list() == source.free_list()
        &&& copy.spec_len() == source.spec_len()
        &&& forall|i: nat|
            i < source.slots().len() ==> {
                &&& #[trigger] copy.holds(i) == source.holds(i)
                &&& copy.generation_of(i) == source.generation_of(i)
                &&& source.holds(i) ==> cloned::<T>(source.value_of(i), copy.value_of(i))
                &&& !source.holds(i) ==> copy.link_of(i) == source.link_of(i)
            }
    }
}

impl<T: Clone, C: MapConfig<T>> GenMap<T, C> {
    /// `copy` holds a clone of each slot of `source`, in the same order:
    /// the same generation, a clone of the value of a slot that holds one,
    /// and the same link for one that does not.
    pub open spec fn slots_cloned(
        source: Seq<MapSlot<T, C::KeyConfig>>,
        copy: Seq<MapSlot<T, C::KeyConfig>>,
    ) -> bool {
        &&& copy.len() == source.len()
        &&& forall|i: int|
            0 <= i < copy.len() ==> {
                let a = source[i];
                let b = #[trigger] copy[i];
                &&& b.wf()
                &&& b.spec_generation() == a.spec_generation()
                &&& b.holds_value() == a.holds_value()
                &&& a.holds_value() ==> cloned::<T>(a.spec_value(), b.spec_value())
                &&& !a.holds_value() ==> b.spec_link() == a.spec_link()
            }
    }

    /// Pushes a clone of every slot of the map onto `slots`, which starts
    /// empty. Returns `false` if the storage refused a slot, which it never
    /// does for a well formed map, since `slots` is a storage of the same
    /// type as the map's own.
    fn clone_slots_into(&self, slots: &mut C::Storage) -> (ok: bool)
        requires
            old(slots).items().len() == 0,
        ensures
            self.wf() ==> ok,
            ok ==> GenMap::<T, C>::slots_cloned(self.slots(), final(slots).items()),
    {
        let count = self.slots.len();
        let mut position: usize = 0;
        while position < count
            invariant
                count == self.slots().len(),
                position <= count,
                slots.items().len() == position,
                forall|i: int|
                    0 <= i < slots.items().len() ==> {
                        let a = self.slots()[i];
                        let b = #[trigger] slots.items()[i];
                        &&& b.wf()
                        &&& b.spec_generation() == a.spec_generation()
                        &&& b.holds_value() == a.holds_value()
                        &&& a.holds_value() ==> cloned::<T>(a.spec_value(), b.spec_value())
                        &&& !a.holds_value() ==> b.spec_link() == a.spec_link()
                    },
            decreases count - position,
        {
            let copy = match self.slots.get(position).as_parity() {
                Parity::Odd(generation, value) => Slot::new_odd(generation, value.clone()),
                Parity::Even(generation, link) => Slot::new_even(generation, *link),
            };
            proof {
                slots.lemma_room();
                if self.wf() {
                    self.slots.lemma_room();
                }
            }
            let ghost before = slots.items();
            match slots.try_push(copy) {
                Ok(()) => {},
                Err(_) => {
                    return false;
                },
            }
            proof {
                assert forall|i: int| 0 <= i < before.len() implies slots.items()[i] == before[i] by {}
            }
            position = position + 1;
        }
        true
    }

    /// A map made of cloned slots and the source's bookkeeping is a clone
    /// of the source map.
    proof fn lemma_cloned_map(source: Self, copy: Self)
        requires
            source.wf(),
            GenMap::<T, C>::slots_cloned(source.slots(), copy.slots()),
            copy.next_free == source.next_free,
            copy.len == source.len,
            copy.free@ == source.free@,
        ensures
            GenMap::is_clone_of(source, copy),
    {
        lemma_count_same(source.slots(), copy.slots());
        assert forall|i: int| 0 <= i < copy.slots().len() implies (#[trigger] copy.slots()[i]).wf()
            && copy.slots()[i].spec_generation() <= key_max_generation::<C::KeyConfig>() by {
            assert(source.slots()[i].wf());
        }
        assert(free_list_ok(copy.slots(), copy.free@)) by {
            assert forall|j: int| 0 <= j < copy.free@.len() implies #[trigger] copy.free@[j] < copy.slots().len()
                && !copy.slots()[copy.free@[j] as int].holds_value()
                && link_nat(copy.slots()[copy.free@[j] as int].spec_link()) == (if j + 1 < copy.free@.len() {
                Some(copy.free@[j + 1])
            } else {
                None
            }) by {
                assert(source.free@[j] < source.slots().len());
            }
        }
    }
}

impl<T: Clone, C: MapConfig<T>> Clone for GenMap<T, C> {
    /// The clone has the same slots, free list and generations, so every key
    /// of the source works on it.
    fn clone(&self) -> (r: Self)
        ensures
            self.wf() ==> GenMap::is_clone_of(*self, r),
    {
        let mut slots = C::Storage::with_capacity(self.slots.len());
        let ok = self.clone_slots_into(&mut slots);
        let r = GenMap { slots, next_free: self.next_free, len: self.len, free: Ghost(self.free@) };
        proof {
            if self.wf() {
                GenMap::lemma_cloned_map(*self, r);
            }
        }
        r
    }

    /// Makes this map a clone of `source`. The storage is emptied and kept
    /// if it has room for all of `source`'s slots, and replaced by one of
    /// the right size before any slot is cloned otherwise. While the slots
    /// are cloned the map itself is empty, so if a clone panics the map is
    /// left empty.
    fn clone_from(&mut self, source: &Self)
        ensures
            source.wf() ==> GenMap::is_clone_of(*source, *final(self)),
    {
        self.next_free = None;
        self.len = 0;
        self.free = Ghost(Seq::empty());
        let mut slots = C::Storage::empty();
        core::mem::swap(&mut slots, &mut self.slots);
        slots.clear();
        let count = source.slots.len();
        if slots.capacity() < count {
            slots = C::Storage::with_capacity(count);
        }
        if source.clone_slots_into(&mut slots) {
            self.slots = slots;
            self.next_free = source.next_free;
            self.len = source.len;
            self.free = Ghost(source.free@);
            proof {
                if source.wf() {
                    GenMap::lemma_cloned_map(*source, *self);
                }
            }
        }
    }
}

impl<T, C: MapConfig<T>> GenMap<T, C> {
    /// `after` is `before` with the values in the slots at `positions`
    /// changed to `values`, the `i`-th one at the `i`-th position, and
    /// nothing else changed.
    pub open spec fn values_replaced(before: Self, after: Self, positions: Seq<nat>, values: Seq<T>) -> bool {
        &&& GenMap::same_shape(before, after)
        &&& forall|i: int| 0 <= i < positions.len() ==> after.value_of(#[trigger] positions[i]) == values[i]
        &&& forall|p: nat|
            p < before.slots().len() && !positions.contains(p) ==> #[trigger] after.slots()[p as int]
                == before.slots()[p as int]
    }

    /// The positions all hold a value and are all different.
    pub open spec fn disjoint_values(&self, positions: Seq<nat>) -> bool {
        &&& forall|i: int| 0 <= i < positions.len() ==> self.holds(#[trigger] positions[i])
        &&& forall|i: int, j: int| 0 <= i < j < positions.len() ==> positions[i] != positions[j]
    }

    /// Mutable references to the values in the slots at `positions`, all at
    /// once, the `i`-th one to the value at the `i`-th position.
    #[verifier::spinoff_prover]
    fn values_at_positions<'a>(&'a mut self, positions: &Vec<usize>) -> (r: Vec<&'a mut T>)
        requires
            old(self).wf(),
            old(self).disjoint_values(positions@.map_values(|p: usize| p as nat)),
        ensures
            r@.len() == positions@.len(),
            forall|i: int| 0 <= i < positions@.len() ==> *r@[i] == old(self).value_of(positions@[i] as nat),
            GenMap::values_replaced(
                *old(self),
                *final(self),
                positions@.map_values(|p: usize| p as nat),
                Seq::new(positions@.len(), |i: int| *final(r@[i])),
            ),
    {
        let ghost before = *self;
        let ghost ps = positions@.map_values(|p: usize| p as nat);
        proof {
            assert forall|i: int| 0 <= i < positions@.len() implies positions@[i] < before.slots().len()
                && before.holds(positions@[i] as nat) by {
                assert(before.holds(ps[i]));
            }
            assert forall|i: int, j: int| 0 <= i < j < positions@.len() implies positions@[i] != positions@[j] by {
                assert(ps[i] != ps[j]);
            }
        }
        let slice = self.slots.as_mut_slice();
        let ghost fin = final(slice)@;
        let mut slots = pick_disjoint(slice, positions);
        let count = positions.len();
        let mut values: Vec<&mut T> = Vec::new();
        let mut i: usize = 0;
        let ghost picked = slots@;
        proof {
            assert forall|k: int| 0 <= k < count implies (*(#[trigger] picked[k])).holds_value() by {
                assert(*picked[k] == before.slots()[positions@[k] as int]);
                assert(before.holds(positions@[k] as nat));
            }
        }
        while i < count
            invariant
                count == positions@.len(),
                i <= count,
                picked.len() == count,
                slots@ == picked.subrange(i as int, count as int),
                values@.len() == i,
                forall|k: int| 0 <= k < count ==> (*(#[trigger] picked[k])).holds_value(),
                forall|k: int|
                    0 <= k < i ==> *values@[k] == (*picked[k]).spec_value() && (*final(picked[k])).spec_parity()
                        == Parity::<MapGen<T, C>, T, Option<MapIdx<T, C>>>::Odd(
                        (*picked[k]).spec_parity()->Odd_0,
                        *final(values@[k]),
                    ),
            decreases count - i,
        {
            let slot = slots.remove(0);
            let ghost before_values = values@;
            let value = slot.get_odd_unchecked_mut();
            values.push(value);
            proof {
                assert(forall|k: int| 0 <= k < i ==> values@[k] == before_values[k]);
                assert(slots@ =~= picked.subrange(i + 1, count as int));
            }
            i = i + 1;
        }
        proof {
            assert forall|p: int| 0 <= p < fin.len() implies {
                let a = before.slots()[p];
                let b = #[trigger] fin[p];
                &&& b.wf()
                &&& b.spec_generation() == a.spec_generation()
                &&& b.holds_value() == a.holds_value()
                &&& !a.holds_value() ==> b == a
            } by {
                if ps.contains(p as nat) {
                    let k = choose|k: int| 0 <= k < ps.len() && ps[k] == p as nat;
                    assert(positions@[k] as int == p);
                    assert(*picked[k] == before.slots()[p]);
                    assert(fin[p] == *final(picked[k]));
                    assert(before.slots()[p].wf());
                    assert(before.slots()[p].holds_value());
                    assert((*final(picked[k])).spec_parity() == Parity::<MapGen<T, C>, T, Option<MapIdx<T, C>>>::Odd(
                        (*picked[k]).spec_parity()->Odd_0,
                        *final(values@[k]),
                    ));
                } else {
                    assert forall|k: int| 0 <= k < positions@.len() implies positions@[k] != p by {
                        if positions@[k] == p {
                            assert(ps[k] == p as nat);
                        }
                    }
                }
            }
            assert forall|p: nat| p < before.slots().len() && !ps.contains(p) implies #[trigger] fin[p as int]
                == before.slots()[p as int] by {
                assert forall|k: int| 0 <= k < positions@.len() implies positions@[k] != p as int by {
                    if positions@[k] == p {
                        assert(ps[k] == p);
                    }
                }
            }
            lemma_count_same(before.slots(), fin);
            assert(free_list_ok(fin, before.free@)) by {
                assert forall|j: int| 0 <= j < before.free@.len() implies #[trigger] before.free@[j] < fin.len()
                    && !fin[before.free@[j] as int].holds_value()
                    && link_nat(fin[before.free@[j] as int].spec_link()) == (if j + 1 < before.free@.len() {
                    Some(before.free@[j + 1])
                } else {
                    None
                }) by {
                    assert(before.free@[j] < before.slots().len());
                }
            }
        }
        values
    }
}

/// Pairs each key with the reference at the same place.
fn zip_keys<'a, K: KeyConfig, T>(keys: Vec<Key<K>>, values: Vec<&'a mut T>) -> (r: Vec<(Key<K>, &'a mut T)>)
    requires
        keys@.len() == values@.len(),
    ensures
        r@.len() == values@.len(),
        forall|k: int|
            0 <= k < r@.len() ==> (#[trigger] r@[k]).0 == keys@[k] && *r@[k].1 == *values@[k]
                && *final(r@[k].1) == *final(values@[k]),
{
    let count = keys.len();
    let ghost picked = values@;
    let mut values = values;
    let mut pairs: Vec<(Key<K>, &mut T)> = Vec::new();
    let mut i: usize = 0;
    while i < count
        invariant
            i <= count,
            count == keys@.len(),
            picked.len() == count,
            values@ == picked.subrange(i as int, count as int),
            pairs@.len() == i,
            forall|k: int|
                0 <= k < i ==> pairs@[k].0 == keys@[k] && *pairs@[k].1 == *picked[k] && *final(pairs@[k].1)
                    == *final(picked[k]),
        decreases count - i,
    {
        let value = values.remove(0);
        let ghost before_pairs = pairs@;
        pairs.push((keys[i], value));
        proof {
            assert(forall|k: int| 0 <= k < i ==> pairs@[k] == before_pairs[k]);
            assert(values@ =~= picked.subrange(i + 1, count as int));
        }
        i = i + 1;
    }
    pairs
}

impl<T, C: MapConfig<T>> GenMap<T, C> {
    /// What [`get_disjoint_mut_at`](Self::get_disjoint_mut_at) reports for
    /// the first `n` indices: the problem with the first index that has one,
    /// checking first that the index has a value and then that no index
    /// before it is the same, or `None` if none of them has a problem.
    pub open spec fn disjoint_at_problem(&self, idxs: Seq<nat>, n: nat) -> Option<GetDisjointMutAtError>
        decreases n,
    {
        if n == 0 {
            None
        } else {
            let i = (n - 1) as nat;
            match self.disjoint_at_problem(idxs, i) {
                Some(e) => Some(e),
                None => if !self.holds(idxs[i as int]) {
                    Some(GetDisjointMutAtError::NoValue)
                } else if idxs.subrange(0, i as int).contains(idxs[i as int]) {
                    Some(GetDisjointMutAtError::OverlappingIndices)
                } else {
                    None
                },
            }
        }
    }

    /// What [`get_disjoint_mut`](Self::get_disjoint_mut) reports for the
    /// first `n` keys: the problem with the first key that has one, checking
    /// first that the key is valid and then that no key before it has the
    /// same index, or `None` if none of them has a problem.
    pub open spec fn disjoint_keys_problem(&self, keys: Seq<(nat, nat)>, n: nat) -> Option<GetDisjointMutError>
        decreases n,
    {
        if n == 0 {
            None
        } else {
            let i = (n - 1) as nat;
            match self.disjoint_keys_problem(keys, i) {
                Some(e) => Some(e),
                None => if !self@.contains_key(keys[i as int]) {
                    Some(GetDisjointMutError::InvalidKey)
                } else if keys.subrange(0, i as int).map_values(|k: (nat, nat)| k.0).contains(keys[i as int].0) {
                    Some(GetDisjointMutError::OverlappingKeys)
                } else {
                    None
                },
            }
        }
    }

    /// The indices of `keys`.
    pub open spec fn key_indices<K: KeyConfig>(keys: Seq<Key<K>>) -> Seq<nat> {
        keys.map_values(|k: Key<K>| k@.0)
    }

    /// The indices as numbers.
    pub open spec fn idx_nats(idxs: Seq<MapIdx<T, C>>) -> Seq<nat> {
        idxs.map_values(|i: MapIdx<T, C>| i.as_nat())
    }

    /// No problem in the first `n` indices means they all hold values and
    /// are all different.
    proof fn lemma_disjoint_at_problem(&self, idxs: Seq<nat>, n: nat)
        requires
            n <= idxs.len(),
        ensures
            self.disjoint_at_problem(idxs, n) is None <==> self.disjoint_values(idxs.subrange(0, n as int)),
        decreases n,
    {
        if n > 0 {
            let i = (n - 1) as nat;
            self.lemma_disjoint_at_problem(idxs, i);
            let pre = idxs.subrange(0, i as int);
            let all = idxs.subrange(0, n as int);
            assert(all.subrange(0, i as int) =~= pre);
            if self.disjoint_at_problem(idxs, n) is None {
                assert forall|a: int, b: int| 0 <= a < b < all.len() implies all[a] != all[b] by {
                    if b < i {
                        assert(pre[a] != pre[b]);
                    } else if all[a] == all[b] {
                        assert(pre[a] == idxs[i as int]);
                        assert(pre.contains(idxs[i as int]));
                    }
                }
                assert forall|a: int| 0 <= a < all.len() implies self.holds(#[trigger] all[a]) by {
                    if a < i {
                        assert(all[a] == pre[a]);
                    }
                }
            }
            if self.disjoint_values(all) {
                assert(self.disjoint_values(pre)) by {
                    assert forall|a: int| 0 <= a < pre.len() implies self.holds(#[trigger] pre[a]) by {
                        assert(pre[a] == all[a]);
                    }
                    assert forall|a: int, b: int| 0 <= a < b < pre.len() implies pre[a] != pre[b] by {
                        assert(pre[a] == all[a] && pre[b] == all[b]);
                    }
                }
                assert(self.holds(all[i as int]));
                if pre.contains(idxs[i as int]) {
                    let a = choose|a: int| 0 <= a < pre.len() && pre[a] == idxs[i as int];
                    assert(all[a] == all[i as int]);
                }
            }
        }
    }

    /// Once one of the first `m` indices has a problem, the same problem is
    /// reported for the first `n`, and not every index holds a distinct
    /// value.
    proof fn lemma_disjoint_at_problem_stays(&self, idxs: Seq<nat>, m: nat, n: nat)
        requires
            m <= n <= idxs.len(),
            self.disjoint_at_problem(idxs, m) is Some,
        ensures
            self.disjoint_at_problem(idxs, n) == self.disjoint_at_problem(idxs, m),
            !self.disjoint_values(idxs),
        decreases n,
    {
        if n > m {
            self.lemma_disjoint_at_problem_stays(idxs, m, (n - 1) as nat);
        } else {
            self.lemma_disjoint_at_problem(idxs, n);
            if self.disjoint_values(idxs) {
                let pre = idxs.subrange(0, n as int);
                assert forall|a: int| 0 <= a < pre.len() implies self.holds(#[trigger] pre[a]) by {
                    assert(pre[a] == idxs[a]);
                }
                assert forall|a: int, b: int| 0 <= a < b < pre.len() implies pre[a] != pre[b] by {
                    assert(pre[a] == idxs[a] && pre[b] == idxs[b]);
                }
            }
        }
    }

    /// The key and a mutable reference to the value in the slot at each
    /// index, all at once, for indices that are known to name distinct
    /// slots that hold values.
    #[verifier::spinoff_prover]
    pub fn get_disjoint_mut_at_unchecked<const N: usize>(&mut self, idxs: [MapIdx<T, C>; N]) -> (r: [(
        Key<C::KeyConfig>,
        &mut T,
    ); N])
        requires
            old(self).wf(),
            old(self).disjoint_values(GenMap::<T, C>::idx_nats(idxs@)),
        ensures
            forall|i: int|
                0 <= i < N ==> r@[i].0@ == (idxs@[i].as_nat(), old(self).generation_of(idxs@[i].as_nat()))
                    && *r@[i].1 == old(self).value_of(idxs@[i].as_nat()),
            GenMap::values_replaced(
                *old(self),
                *final(self),
                GenMap::<T, C>::idx_nats(idxs@),
                Seq::new(N as nat, |i: int| *final(r@[i].1)),
            ),
    {
        let ghost before = *self;
        let ghost ns = GenMap::<T, C>::idx_nats(idxs@);
        let count = self.slots.len();
        let mut positions: Vec<usize> = Vec::new();
        let mut keys: Vec<Key<C::KeyConfig>> = Vec::new();
        let mut i: usize = 0;
        while i < N
            invariant
                *self == before,
                count == before.slots().len(),
                before.wf(),
                before.disjoint_values(ns),
                ns == GenMap::<T, C>::idx_nats(idxs@),
                i <= N,
                positions@.len() == i,
                keys@.len() == i,
                forall|k: int| 0 <= k < i ==> positions@[k] as nat == ns[k],
                forall|k: int| 0 <= k < i ==> (#[trigger] keys@[k])@ == (ns[k], before.generation_of(ns[k])),
            decreases N - i,
        {
            proof {
                before.lemma_wf_limits();
                assert(before.holds(ns[i as int]));
                assert(ns[i as int] == idxs@[i as int].as_nat());
            }
            let idx = idxs[i];
            positions.push(idx.into_usize_unchecked());
            keys.push(self.key_at_unchecked(idx));
            i = i + 1;
        }
        proof {
            assert(positions@.map_values(|p: usize| p as nat) =~= ns);
        }
        let values = self.values_at_positions(&positions);
        let ghost vs = values@;
        let ghost ks = keys@;
        let pairs = zip_keys(keys, values);
        proof {
            assert forall|k: int| 0 <= k < N implies *final(pairs@[k].1) == *final(vs[k]) by {}
            assert(Seq::new(N as nat, |k: int| *final(pairs@[k].1)) =~= Seq::new(
                positions@.len(),
                |k: int| *final(vs[k]),
            ));
            assert forall|k: int| 0 <= k < N implies pairs@[k].0@ == (idxs@[k].as_nat(), before.generation_of(
                idxs@[k].as_nat(),
            )) && *pairs@[k].1 == before.value_of(idxs@[k].as_nat()) by {
                assert(ns[k] == idxs@[k].as_nat());
                assert(ks[k]@ == (ns[k], before.generation_of(ns[k])));
                assert(positions@[k] as nat == ns[k]);
            }
        }
        vec_into_array(pairs)
    }

    /// The key and a mutable reference to the value in the slot at each
    /// index, all at once. Every index gets the same checks as
    /// [`get_at_mut`](Self::get_at_mut) and every pair of indices is checked
    /// to be different, so the references can not alias.
    ///
    /// Returns [`GetDisjointMutAtError::NoValue`] if there is no slot at one
    /// of the indices or the slot holds no value, and
    /// [`GetDisjointMutAtError::OverlappingIndices`] if two indices are the
    /// same, for the first index with a problem. Nothing is borrowed on
    /// error.
    pub fn get_disjoint_mut_at<const N: usize>(&mut self, idxs: [MapIdx<T, C>; N]) -> (r: Result<
        [(Key<C::KeyConfig>, &mut T); N],
        GetDisjointMutAtError,
    >)
        requires
            old(self).wf(),
        ensures
            r is Ok <==> old(self).disjoint_values(GenMap::<T, C>::idx_nats(idxs@)),
            match r {
                Ok(pairs) => {
                    &&& forall|i: int|
                        0 <= i < N ==> pairs@[i].0@ == (idxs@[i].as_nat(), old(self).generation_of(idxs@[i].as_nat()))
                            && *pairs@[i].1 == old(self).value_of(idxs@[i].as_nat())
                    &&& GenMap::values_replaced(
                        *old(self),
                        *final(self),
                        GenMap::<T, C>::idx_nats(idxs@),
                        Seq::new(N as nat, |i: int| *final(pairs@[i].1)),
                    )
                },
                Err(e) => {
                    &&& old(self).disjoint_at_problem(GenMap::<T, C>::idx_nats(idxs@), N as nat) == Some(e)
                    &&& *final(self) == *old(self)
                },
            },
    {
        let ghost ns = GenMap::<T, C>::idx_nats(idxs@);
        let mut i: usize = 0;
        while i < N
            invariant
                i <= N,
                self.wf(),
                *self == *old(self),
                ns == GenMap::<T, C>::idx_nats(idxs@),
                self.disjoint_at_problem(ns, i as nat) is None,
            decreases N - i,
        {
            let idx = idxs[i];
            proof {
                assert(ns[i as int] == idx.as_nat());
            }
            if self.key_at(idx).is_none() {
                proof {
                    assert(self.disjoint_at_problem(ns, (i + 1) as nat) == Some(GetDisjointMutAtError::NoValue));
                    self.lemma_disjoint_at_problem_stays(ns, (i + 1) as nat, N as nat);
                }
                return Err(GetDisjointMutAtError::NoValue);
            }
            let mut j: usize = 0;
            while j < i
                invariant
                    j <= i,
                    i < N,
                    self.wf(),
                    *self == *old(self),
                    self.holds(ns[i as int]),
                    self.disjoint_at_problem(ns, i as nat) is None,
                    ns == GenMap::<T, C>::idx_nats(idxs@),
                    ns[i as int] == idx.as_nat(),
                    forall|k: int| 0 <= k < j ==> ns[k] != ns[i as int],
                decreases i - j,
            {
                proof {
                    assert(ns[j as int] == idxs@[j as int].as_nat());
                }
                if idxs[j].is_equal(idx) {
                    proof {
                        assert(ns.subrange(0, i as int)[j as int] == ns[i as int]);
                        assert(self.disjoint_at_problem(ns, (i + 1) as nat) == Some(
                            GetDisjointMutAtError::OverlappingIndices,
                        ));
                        self.lemma_disjoint_at_problem_stays(ns, (i + 1) as nat, N as nat);
                    }
                    return Err(GetDisjointMutAtError::OverlappingIndices);
                }
                j = j + 1;
            }
            proof {
                if ns.subrange(0, i as int).contains(ns[i as int]) {
                    let k = choose|k: int| 0 <= k < i && ns.subrange(0, i as int)[k] == ns[i as int];
                    assert(ns[k] == ns[i as int]);
                }
            }
            i = i + 1;
        }
        proof {
            self.lemma_disjoint_at_problem(ns, N as nat);
            assert(ns.subrange(0, N as int) =~= ns);
        }
        Ok(self.get_disjoint_mut_at_unchecked(idxs))
    }
}

impl<T, C: MapConfig<T>> GenMap<T, C> {
    /// The keys all match values, and no two of them have the same index.
    pub open spec fn disjoint_keys(&self, keys: Seq<(nat, nat)>) -> bool {
        &&& forall|i: int| 0 <= i < keys.len() ==> self@.contains_key(#[trigger] keys[i])
        &&& forall|i: int, j: int| 0 <= i < j < keys.len() ==> keys[i].0 != keys[j].0
    }

    /// The views of `keys`.
    pub open spec fn key_views<K: KeyConfig>(keys: Seq<Key<K>>) -> Seq<(nat, nat)> {
        keys.map_values(|k: Key<K>| k@)
    }

    /// No problem in the first `n` keys means they all match values and
    /// have different indices.
    proof fn lemma_disjoint_keys_problem(&self, keys: Seq<(nat, nat)>, n: nat)
        requires
            n <= keys.len(),
        ensures
            self.disjoint_keys_problem(keys, n) is None <==> self.disjoint_keys(keys.subrange(0, n as int)),
        decreases n,
    {
        if n > 0 {
            let i = (n - 1) as nat;
            self.lemma_disjoint_keys_problem(keys, i);
            let pre = keys.subrange(0, i as int);
            let all = keys.subrange(0, n as int);
            let idxs = pre.map_values(|k: (nat, nat)| k.0);
            assert(all.subrange(0, i as int) =~= pre);
            if self.disjoint_keys_problem(keys, n) is None {
                assert forall|a: int, b: int| 0 <= a < b < all.len() implies all[a].0 != all[b].0 by {
                    if b < i {
                        assert(pre[a].0 != pre[b].0);
                    } else if all[a].0 == all[b].0 {
                        assert(idxs[a] == keys[i as int].0);
                        assert(idxs.contains(keys[i as int].0));
                    }
                }
                assert forall|a: int| 0 <= a < all.len() implies self@.contains_key(#[trigger] all[a]) by {
                    if a < i {
                        assert(all[a] == pre[a]);
                    }
                }
            }
            if self.disjoint_keys(all) {
                assert(self.disjoint_keys(pre)) by {
                    assert forall|a: int| 0 <= a < pre.len() implies self@.contains_key(#[trigger] pre[a]) by {
                        assert(pre[a] == all[a]);
                    }
                    assert forall|a: int, b: int| 0 <= a < b < pre.len() implies pre[a].0 != pre[b].0 by {
                        assert(pre[a] == all[a] && pre[b] == all[b]);
                    }
                }
                assert(self@.contains_key(all[i as int]));
                if idxs.contains(keys[i as int].0) {
                    let a = choose|a: int| 0 <= a < idxs.len() && idxs[a] == keys[i as int].0;
                    assert(all[a].0 == all[i as int].0);
                }
            }
        }
    }

    /// Once one of the first `m` keys has a problem, the same problem is
    /// reported for the first `n`, and the keys are not disjoint.
    proof fn lemma_disjoint_keys_problem_stays(&self, keys: Seq<(nat, nat)>, m: nat, n: nat)
        requires
            m <= n <= keys.len(),
            self.disjoint_keys_problem(keys, m) is Some,
        ensures
            self.disjoint_keys_problem(keys, n) == self.disjoint_keys_problem(keys, m),
            !self.disjoint_keys(keys),
        decreases n,
    {
        if n > m {
            self.lemma_disjoint_keys_problem_stays(keys, m, (n - 1) as nat);
        } else {
            self.lemma_disjoint_keys_problem(keys, n);
            if self.disjoint_keys(keys) {
                let pre = keys.subrange(0, n as int);
                assert forall|a: int| 0 <= a < pre.len() implies self@.contains_key(#[trigger] pre[a]) by {
                    assert(pre[a] == keys[a]);
                }
                assert forall|a: int, b: int| 0 <= a < b < pre.len() implies pre[a].0 != pre[b].0 by {
                    assert(pre[a] == keys[a] && pre[b] == keys[b]);
                }
            }
        }
    }

    /// A mutable reference to the value of each key, all at once, for keys
    /// that are known to be valid and to point at different slots.
    #[verifier::spinoff_prover]
    pub fn get_disjoint_mut_unchecked<const N: usize>(&mut self, keys: [Key<C::KeyConfig>; N]) -> (r: [&mut T; N])
        requires
            old(self).wf(),
            old(self).disjoint_keys(GenMap::<T, C>::key_views(keys@)),
        ensures
            forall|i: int| 0 <= i < N ==> *r@[i] == old(self)@[keys@[i]@],
            GenMap::values_replaced(
                *old(self),
                *final(self),
                GenMap::<T, C>::key_views(keys@).map_values(|k: (nat, nat)| k.0),
                Seq::new(N as nat, |i: int| *final(r@[i])),
            ),
    {
        let ghost before = *self;
        let ghost kv = GenMap::<T, C>::key_views(keys@);
        let ghost ns = kv.map_values(|k: (nat, nat)| k.0);
        let count = self.slots.len();
        let mut positions: Vec<usize> = Vec::new();
        let mut i: usize = 0;
        while i < N
            invariant
                *self == before,
                count == before.slots().len(),
                before.wf(),
                before.disjoint_keys(kv),
                kv == GenMap::<T, C>::key_views(keys@),
                ns == kv.map_values(|k: (nat, nat)| k.0),
                i <= N,
                positions@.len() == i,
                forall|k: int| 0 <= k < i ==> positions@[k] as nat == ns[k],
            decreases N - i,
        {
            let key = keys[i];
            proof {
                assert(kv[i as int] == key@);
                assert(before@.contains_key(kv[i as int]));
                assert(ns[i as int] == key@.0);
                before.lemma_wf_limits();
            }
            positions.push(key.idx().into_usize_unchecked());
            i = i + 1;
        }
        proof {
            assert(positions@.map_values(|p: usize| p as nat) =~= ns);
            assert forall|a: int| 0 <= a < ns.len() implies before.holds(#[trigger] ns[a]) by {
                assert(before@.contains_key(kv[a]));
            }
            assert forall|a: int, b: int| 0 <= a < b < ns.len() implies ns[a] != ns[b] by {
                assert(kv[a].0 != kv[b].0);
            }
        }
        let values = self.values_at_positions(&positions);
        let ghost vs = values@;
        proof {
            assert forall|k: int| 0 <= k < N implies *vs[k] == before@[keys@[k]@] by {
                assert(kv[k] == keys@[k]@);
                assert(before@.contains_key(kv[k]));
                assert(positions@[k] as nat == ns[k]);
            }
            assert(Seq::new(N as nat, |k: int| *final(vs[k])) =~= Seq::new(
                positions@.len(),
                |k: int| *final(vs[k]),
            ));
        }
        vec_into_array(values)
    }

    /// A mutable reference to the value of each key, all at once. Every key
    /// gets the same checks as it would in [`get_mut`](Self::get_mut), and
    /// every pair of keys is checked to point at different slots, so the
    /// references can not alias.
    ///
    /// Returns [`GetDisjointMutError::InvalidKey`] if a key is invalid and
    /// [`GetDisjointMutError::OverlappingKeys`] if two keys point at the same
    /// slot, for the first key with a problem. Nothing is borrowed on error.
    pub fn get_disjoint_mut<const N: usize>(&mut self, keys: [Key<C::KeyConfig>; N]) -> (r: Result<
        [&mut T; N],
        GetDisjointMutError,
    >)
        requires
            old(self).wf(),
        ensures
            r is Ok <==> old(self).disjoint_keys(GenMap::<T, C>::key_views(keys@)),
            match r {
                Ok(values) => {
                    &&& forall|i: int| 0 <= i < N ==> *values@[i] == old(self)@[keys@[i]@]
                    &&& GenMap::values_replaced(
                        *old(self),
                        *final(self),
                        GenMap::<T, C>::key_views(keys@).map_values(|k: (nat, nat)| k.0),
                        Seq::new(N as nat, |i: int| *final(values@[i])),
                    )
                },
                Err(e) => {
                    &&& old(self).disjoint_keys_problem(GenMap::<T, C>::key_views(keys@), N as nat) == Some(e)
                    &&& *final(self) == *old(self)
                },
            },
    {
        let ghost kv = GenMap::<T, C>::key_views(keys@);
        let mut i: usize = 0;
        while i < N
            invariant
                i <= N,
                self.wf(),
                *self == *old(self),
                kv == GenMap::<T, C>::key_views(keys@),
                self.disjoint_keys_problem(kv, i as nat) is None,
            decreases N - i,
        {
            let key = keys[i];
            proof {
                assert(kv[i as int] == key@);
            }
            if !self.contains_key(key) {
                proof {
                    assert(self.disjoint_keys_problem(kv, (i + 1) as nat) == Some(GetDisjointMutError::InvalidKey));
                    self.lemma_disjoint_keys_problem_stays(kv, (i + 1) as nat, N as nat);
                }
                return Err(GetDisjointMutError::InvalidKey);
            }
            let mut j: usize = 0;
            while j < i
                invariant
                    j <= i,
                    i < N,
                    self.wf(),
                    *self == *old(self),
                    self@.contains_key(kv[i as int]),
                    self.disjoint_keys_problem(kv, i as nat) is None,
                    kv == GenMap::<T, C>::key_views(keys@),
                    kv[i as int] == key@,
                    forall|k: int| 0 <= k < j ==> kv[k].0 != kv[i as int].0,
                decreases i - j,
            {
                proof {
                    assert(kv[j as int] == keys@[j as int]@);
                }
                if keys[j].idx().is_equal(key.idx()) {
                    proof {
                        let idxs = kv.subrange(0, i as int).map_values(|k: (nat, nat)| k.0);
                        assert(idxs[j as int] == kv[i as int].0);
                        assert(self.disjoint_keys_problem(kv, (i + 1) as nat) == Some(
                            GetDisjointMutError::OverlappingKeys,
                        ));
                        self.lemma_disjoint_keys_problem_stays(kv, (i + 1) as nat, N as nat);
                    }
                    return Err(GetDisjointMutError::OverlappingKeys);
                }
                j = j + 1;
            }
            proof {
                let idxs = kv.subrange(0, i as int).map_values(|k: (nat, nat)| k.0);
                if idxs.contains(kv[i as int].0) {
                    let k = choose|k: int| 0 <= k < idxs.len() && idxs[k] == kv[i as int].0;
                    assert(kv[k].0 == kv[i as int].0);
                }
            }
            i = i + 1;
        }
        proof {
            self.lemma_disjoint_keys_problem(kv, N as nat);
            assert(kv.subrange(0, N as int) =~= kv);
        }
        Ok(self.get_disjoint_mut_unchecked(keys))
    }
}

} // verus!
