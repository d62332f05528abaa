use vstd::prelude::*;

verus! {

/// The collection a [`GenMap`](crate::GenMap) keeps its slots in. A
/// [`MapConfig`](crate::MapConfig) names one through its `Storage` type.
///
/// A storage behaves like a `Vec`: [`items`](Self::items) are the items
/// pushed since the last [`clear`](Self::clear), in the order they were
/// pushed; [`try_push`](Self::try_push) appends at the end and leaves the
/// other items where they are; once [`ensure_room`](Self::ensure_room) has
/// returned `Ok`, the next `try_push` succeeds.
///
/// A storage that can also grow on request implements [`ReserveStorage`]
/// too.
pub trait SlotStorage<S>: Sized {
    /// Why the storage could not make room for another item.
    type Error: core::fmt::Debug;

    /// Every item, in the order they were pushed.
    spec fn items(&self) -> Seq<S>;

    /// The next [`try_push`](Self::try_push) will succeed.
    spec fn has_room(&self) -> bool;

    /// The number of items the storage can ever hold, if it can not grow.
    spec fn fixed_capacity() -> Option<nat>;

    /// A storage with no items.
    fn empty() -> (r: Self)
        ensures
            r.items() == Seq::<S>::empty(),
    ;

    /// Creates a storage with no items and, if it can grow, room for
    /// `capacity` of them. A storage with a fixed capacity ignores the
    /// argument.
    fn with_capacity(capacity: usize) -> (r: Self)
        ensures
            r.items() == Seq::<S>::empty(),
    ;

    /// How many items the storage can hold before it has to grow, or in
    /// total if it can not grow.
    fn capacity(&self) -> (r: usize)
        ensures
            Self::fixed_capacity() is Some ==> r as nat == Self::fixed_capacity()->0,
            Self::fixed_capacity() is None ==> r as nat >= self.items().len(),
    ;

    /// The number of items.
    fn len(&self) -> (r: usize)
        ensures
            r as nat == self.items().len(),
    ;

    /// Returns `true` if there are no items.
    fn is_empty(&self) -> (r: bool)
        ensures
            r == (self.items().len() == 0),
    {
        self.len() == 0
    }

    /// The item at `position`.
    fn get(&self, position: usize) -> (r: &S)
        requires
            position < self.items().len(),
        ensures
            *r == self.items()[position as int],
    ;

    /// The item at `position`, mutably.
    fn get_mut(&mut self, position: usize) -> (r: &mut S)
        requires
            position < old(self).items().len(),
        ensures
            *r == old(self).items()[position as int],
            final(self).items() == old(self).items().update(position as int, *final(r)),
            final(self).has_room() == old(self).has_room(),
    ;

    /// Every item, mutably, as one slice in the order they were pushed.
    fn as_mut_slice(&mut self) -> (r: &mut [S])
        ensures
            r@ == old(self).items(),
            final(self).items() == final(r)@,
    ;

    /// Makes sure the next [`try_push`](Self::try_push) will succeed,
    /// growing if the storage can and has to, or returns the reason the push
    /// would fail.
    fn ensure_room(&mut self) -> (r: Result<(), Self::Error>)
        ensures
            Self::made_room(*old(self), r),
            final(self).items() == old(self).items(),
            r is Ok ==> final(self).has_room(),
            Self::fixed_capacity() is Some ==> (r is Ok <==> old(self).has_room()),
    ;

    /// Appends `item`, or hands it back if the storage can not make room for
    /// it.
    fn try_push(&mut self, item: S) -> (r: Result<(), S>)
        ensures
            old(self).has_room() ==> r is Ok,
            r is Ok ==> final(self).items() == old(self).items().push(item),
            r is Err ==> final(self).items() == old(self).items() && r->Err_0 == item,
    ;

    /// Drops every item, which leaves the storage empty.
    fn clear(&mut self)
        ensures
            final(self).items() == Seq::<S>::empty(),
    ;

    /// `r` is a result [`ensure_room`](Self::ensure_room) can give on
    /// `before`.
    spec fn made_room(before: Self, r: Result<(), Self::Error>) -> bool;

    /// A storage never holds more items than `usize` can count.
    proof fn lemma_len_fits(&self)
        ensures
            self.items().len() <= usize::MAX,
    ;

    /// A storage has room for another item exactly when it can grow or
    /// holds fewer items than its fixed capacity.
    proof fn lemma_room(&self)
        ensures
            self.has_room() <==> (Self::fixed_capacity() is None || self.items().len()
                < Self::fixed_capacity()->0),
    ;
}

/// A [`SlotStorage`] that can make room for more items on request.
pub trait ReserveStorage<S>: SlotStorage<S> {
    /// Makes room for at least `additional` more items. The items stay as
    /// they are.
    fn reserve(&mut self, additional: usize)
        ensures
            final(self).items() == old(self).items(),
    ;

    /// The fallible form of [`reserve`](Self::reserve). It fails when the
    /// items and `additional` more could not even be counted in a `usize`.
    fn try_reserve(&mut self, additional: usize) -> (r: Result<(), Self::Error>)
        ensures
            final(self).items() == old(self).items(),
            r is Ok ==> final(self).has_room(),
            old(self).items().len() + additional > usize::MAX ==> r is Err,
    ;

    /// A storage that grows on request has no fixed capacity.
    proof fn lemma_growable()
        ensures
            Self::fixed_capacity() is None,
    ;
}

/// How many items `v` can hold without reallocating, which is at least its
/// length.
///
/// Calls `Vec::capacity`. Its documentation promises that the capacity is
/// never below the length; what it is beyond that is up to the allocator,
/// and nothing more is claimed.
#[verifier::external_body]
fn vec_capacity<S>(v: &Vec<S>) -> (r: usize)
    ensures
        r as nat >= v@.len(),
{
    v.capacity()
}

/// Reserves room in `v` for at least `additional` more items.
///
/// Calls `Vec::try_reserve`. The items stay as they are. Its documentation
/// says it returns an error when the capacity overflows, and a length plus
/// `additional` beyond `usize::MAX` is such an overflow. Whether it succeeds
/// otherwise is up to the allocator, and nothing is claimed of the capacity
/// it leaves.
#[verifier::external_body]
fn vec_try_reserve<S>(v: &mut Vec<S>, additional: usize) -> (r: Result<(), std::collections::TryReserveError>)
    ensures
        final(v)@ == old(v)@,
        old(v)@.len() + additional > usize::MAX ==> r is Err,
{
    v.try_reserve(additional)
}

impl<S> SlotStorage<S> for Vec<S> {
    type Error = std::collections::TryReserveError;

    open spec fn items(&self) -> Seq<S> {
        self@
    }

    open spec fn has_room(&self) -> bool {
        true
    }

    open spec fn fixed_capacity() -> Option<nat> {
        None
    }

    fn empty() -> (r: Self) {
        Vec::new()
    }

    fn with_capacity(capacity: usize) -> (r: Self) {
        Vec::with_capacity(capacity)
    }

    /// At least the number of items; how much more is up to the allocator.
    fn capacity(&self) -> (r: usize)
        ensures
            r as nat >= self@.len(),
    {
        vec_capacity(self)
    }

    fn len(&self) -> (r: usize) {
        Vec::len(self)
    }

    fn get(&self, position: usize) -> (r: &S) {
        &self[position]
    }

    fn get_mut(&mut self, position: usize) -> (r: &mut S) {
        &mut self[position]
    }

    fn as_mut_slice(&mut self) -> (r: &mut [S]) {
        Vec::as_mut_slice(self)
    }

    /// What `Vec::try_reserve` for one more item gives on `before`: room
    /// is made exactly when that call succeeds, with its error otherwise.
    open spec fn made_room(before: Self, r: Result<(), Self::Error>) -> bool {
        exists|v: &mut Vec<S>|
            #![trigger call_ensures(Vec::<S>::try_reserve, (v, 1usize), r)]
            *v == before && call_ensures(Vec::<S>::try_reserve, (v, 1usize), r)
    }

    fn ensure_room(&mut self) -> (r: Result<(), Self::Error>) {
        self.try_reserve(1)
    }

    fn try_push(&mut self, item: S) -> (r: Result<(), S>) {
        self.push(item);
        Ok(())
    }

    fn clear(&mut self) {
        Vec::clear(self)
    }

    proof fn lemma_len_fits(&self) {
        assert(self@.len() == self.len());
    }

    proof fn lemma_room(&self) {
    }
}

impl<S> ReserveStorage<S> for Vec<S> {
    fn reserve(&mut self, additional: usize) {
        Vec::reserve(self, additional)
    }

    fn try_reserve(&mut self, additional: usize) -> (r: Result<(), Self::Error>) {
        vec_try_reserve(self, additional)
    }

    proof fn lemma_growable() {
    }
}

/// The storage can not hold another slot: all `CAP` of them are in use.
#[derive(Debug, Clone, Copy, PartialEq, Eq, Hash)]
pub struct CapacityError;

/// Storage with a fixed capacity of `CAP` slots. It never grows past `CAP`,
/// so once all `CAP` slots exist and none of them are free, inserting fails
/// with [`FullError::StorageFull`](crate::FullError::StorageFull).
///
/// The slots live in a `Vec` on the heap, so this storage allocates: what
/// it fixes is the number of slots, not where they are kept.
pub struct ArrayStorage<S, const CAP: usize> {
    items: Vec<S>,
}

impl<S, const CAP: usize> SlotStorage<S> for ArrayStorage<S, CAP> {
    type Error = CapacityError;

    closed spec fn items(&self) -> Seq<S> {
        self.items@
    }

    closed spec fn has_room(&self) -> bool {
        self.items@.len() < CAP
    }

    open spec fn fixed_capacity() -> Option<nat> {
        Some(CAP as nat)
    }

    fn empty() -> (r: Self) {
        ArrayStorage { items: Vec::new() }
    }

    /// A fixed storage always has room for exactly `CAP` items, so the
    /// `capacity` argument is ignored.
    fn with_capacity(capacity: usize) -> (r: Self) {
        Self::empty()
    }

    fn capacity(&self) -> (r: usize) {
        CAP
    }

    fn len(&self) -> (r: usize) {
        self.items.len()
    }

    fn get(&self, position: usize) -> (r: &S) {
        &self.items[position]
    }

    fn get_mut(&mut self, position: usize) -> (r: &mut S) {
        &mut self.items[position]
    }

    fn as_mut_slice(&mut self) -> (r: &mut [S]) {
        self.items.as_mut_slice()
    }

    open spec fn made_room(before: Self, r: Result<(), Self::Error>) -> bool {
        r is Ok <==> before.items().len() < CAP
    }

    fn ensure_room(&mut self) -> (r: Result<(), Self::Error>) {
        if self.items.len() < CAP {
            Ok(())
        } else {
            Err(CapacityError)
        }
    }

    fn try_push(&mut self, item: S) -> (r: Result<(), S>) {
        if self.items.len() < CAP {
            self.items.push(item);
            Ok(())
        } else {
            Err(item)
        }
    }

    fn clear(&mut self) {
        self.items.clear()
    }

    proof fn lemma_len_fits(&self) {
        assert(self.items@.len() == self.items.len());
    }

    proof fn lemma_room(&self) {
    }
}

/// Storage that has room for `N` slots from the start and grows like a
/// `Vec` once there are more.
///
/// The slots live in a `Vec` on the heap from the start: the first `N`
/// are reserved up front rather than kept inline.
pub struct SmallStorage<S, const N: usize> {
    items: Vec<S>,
}

impl<S, const N: usize> SlotStorage<S> for SmallStorage<S, N> {
    type Error = std::collections::TryReserveError;

    closed spec fn items(&self) -> Seq<S> {
        self.items@
    }

    open spec fn has_room(&self) -> bool {
        true
    }

    open spec fn fixed_capacity() -> Option<nat> {
        None
    }

    fn empty() -> (r: Self) {
        SmallStorage { items: Vec::with_capacity(N) }
    }

    fn with_capacity(capacity: usize) -> (r: Self) {
        if capacity < N {
            SmallStorage { items: Vec::with_capacity(N) }
        } else {
            SmallStorage { items: Vec::with_capacity(capacity) }
        }
    }

    /// At least `N`, and at least the number of items; beyond that it is
    /// what the allocator gave the items once they outgrew `N`.
    fn capacity(&self) -> (r: usize)
        ensures
            r >= N,
            r as nat >= self.items().len(),
    {
        let capacity = vec_capacity(&self.items);
        if capacity < N {
            N
        } else {
            capacity
        }
    }

    fn len(&self) -> (r: usize) {
        self.items.len()
    }

    fn get(&self, position: usize) -> (r: &S) {
        &self.items[position]
    }

    fn get_mut(&mut self, position: usize) -> (r: &mut S) {
        &mut self.items[position]
    }

    fn as_mut_slice(&mut self) -> (r: &mut [S]) {
        self.items.as_mut_slice()
    }

    /// What `Vec::try_reserve` for one more item gives on the items:
    /// room is made exactly when that call succeeds, with its error
    /// otherwise.
    closed spec fn made_room(before: Self, r: Result<(), Self::Error>) -> bool {
        exists|v: &mut Vec<S>|
            #![trigger call_ensures(Vec::<S>::try_reserve, (v, 1usize), r)]
            *v == before.items && call_ensures(Vec::<S>::try_reserve, (v, 1usize), r)
    }

    fn ensure_room(&mut self) -> (r: Result<(), Self::Error>) {
        self.items.try_reserve(1)
    }

    fn try_push(&mut self, item: S) -> (r: Result<(), S>) {
        self.items.push(item);
        Ok(())
    }

    fn clear(&mut self) {
        self.items.clear()
    }

    proof fn lemma_len_fits(&self) {
        assert(self.items@.len() == self.items.len());
    }

    proof fn lemma_room(&self) {
    }
}

impl<S, const N: usize> ReserveStorage<S> for SmallStorage<S, N> {
    fn reserve(&mut self, additional: usize) {
        self.items.reserve(additional)
    }

    fn try_reserve(&mut self, additional: usize) -> (r: Result<(), Self::Error>) {
        vec_try_reserve(&mut self.items, additional)
    }

    proof fn lemma_growable() {
    }
}

} // verus!
