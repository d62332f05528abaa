use super::{GenMap, MapIdx};
use crate::config::MapConfig;
use crate::key::Key;
use crate::key_piece::KeyPiece;
use crate::storage::SlotStorage;
use std::collections::VecDeque;
use std::marker::PhantomData;
use vstd::prelude::*;

verus! {

/// Iterator over `(key, &value)` pairs, in slot order from the front and
/// from the back. Created by [`GenMap::iter`].
pub struct Iter<'a, T, C: MapConfig<T>> {
    map: &'a GenMap<T, C>,
    front: usize,
    back: usize,
    remaining: usize,
}

impl<'a, T, C: MapConfig<T>> Iter<'a, T, C> {
    /// The iterator's bookkeeping agrees with the map it walks.
    pub closed spec fn wf(&self) -> bool {
        &&& self.map.wf()
        &&& self.front <= self.back <= self.map.slots().len()
        &&& self.remaining as nat == self.map.entries_between(self.front as nat, self.back as nat).len()
    }

    /// The entries still to come, in slot order.
    pub closed spec fn rest(&self) -> Seq<((nat, nat), T)> {
        self.map.entries_between(self.front as nat, self.back as nat)
    }

    /// Returns the next entry from the front.
    pub fn next(&mut self) -> (r: Option<(Key<C::KeyConfig>, &'a T)>)
        requires
            old(self).wf(),
        ensures
            final(self).wf(),
            old(self).rest().len() == 0 ==> r is None && final(self).rest() == old(self).rest(),
            old(self).rest().len() > 0 ==> r is Some && ((r->0).0@, *(r->0).1) == old(self).rest()[0]
                && final(self).rest() == old(self).rest().drop_first(),
    {
        let ghost start = *self;
        let map: &'a GenMap<T, C> = self.map;
        while self.front < self.back
            invariant
                self.wf(),
                self.map == map,
                self.back == start.back,
                start.front <= self.front,
                self.rest() == start.rest(),
                start == *old(self),
            decreases self.back - self.front,
        {
            let position = self.front;
            proof {
                map.lemma_entries_front(position as nat, self.back as nat);
                map.lemma_wf_limits();
            }
            self.front = position + 1;
            if map.slots.get(position).is_odd() {
                self.remaining = self.remaining - 1;
                let idx = MapIdx::<T, C>::from_usize_unchecked(position);
                let (key, value) = map.get_at_unchecked(idx);
                proof {
                    assert(start.rest() =~= seq![map.entry_of(position as nat)] + self.rest());
                    assert(start.rest().drop_first() =~= self.rest());
                }
                return Some((key, value));
            }
            proof {
                assert(start.rest() =~= self.rest());
            }
        }
        proof {
            assert(self.rest() =~= Seq::<((nat, nat), T)>::empty());
        }
        None
    }

    /// Returns the next entry from the back.
    pub fn next_back(&mut self) -> (r: Option<(Key<C::KeyConfig>, &'a T)>)
        requires
            old(self).wf(),
        ensures
            final(self).wf(),
            old(self).rest().len() == 0 ==> r is None && final(self).rest() == old(self).rest(),
            old(self).rest().len() > 0 ==> r is Some && ((r->0).0@, *(r->0).1) == old(self).rest().last()
                && final(self).rest() == old(self).rest().drop_last(),
    {
        let ghost start = *self;
        let map: &'a GenMap<T, C> = self.map;
        while self.front < self.back
            invariant
                self.wf(),
                self.map == map,
                self.front == start.front,
                self.back <= start.back,
                self.rest() == start.rest(),
                start == *old(self),
            decreases self.back - self.front,
        {
            let position = self.back - 1;
            proof {
                map.lemma_wf_limits();
            }
            self.back = position;
            if map.slots.get(position).is_odd() {
                self.remaining = self.remaining - 1;
                let idx = MapIdx::<T, C>::from_usize_unchecked(position);
                let (key, value) = map.get_at_unchecked(idx);
                proof {
                    assert(start.rest() =~= self.rest().push(map.entry_of(position as nat)));
                    assert(start.rest().drop_last() =~= self.rest());
                }
                return Some((key, value));
            }
            proof {
                assert(start.rest() =~= self.rest());
            }
        }
        proof {
            assert(self.rest() =~= Seq::<((nat, nat), T)>::empty());
        }
        None
    }

    /// The number of entries still to come.
    pub fn len(&self) -> (r: usize)
        requires
            self.wf(),
        ensures
            r as nat == self.rest().len(),
    {
        self.remaining
    }

    /// The bounds on the number of entries still to come, which are both
    /// exact: `(len, Some(len))`.
    pub fn size_hint(&self) -> (r: (usize, Option<usize>))
        requires
            self.wf(),
        ensures
            r.0 as nat == self.rest().len(),
            r.1 == Some(r.0),
    {
        let n = self.len();
        (n, Some(n))
    }
}

impl<'a, T, C: MapConfig<T>> Clone for Iter<'a, T, C> {
    /// An iterator at the same place over the same map.
    fn clone(&self) -> (r: Self)
        ensures
            r.wf() == self.wf(),
            r.rest() == self.rest(),
    {
        Iter { map: self.map, front: self.front, back: self.back, remaining: self.remaining }
    }
}

/// Iterator over keys, in slot order. Created by [`GenMap::keys`].
pub struct Keys<'a, T, C: MapConfig<T>> {
    inner: Iter<'a, T, C>,
}

/// The key of an entry.
pub open spec fn entry_key<T>(e: ((nat, nat), T)) -> (nat, nat) {
    e.0
}

/// The value of an entry.
pub open spec fn entry_value<T>(e: ((nat, nat), T)) -> T {
    e.1
}

impl<'a, T, C: MapConfig<T>> Keys<'a, T, C> {
    /// The iterator's bookkeeping agrees with the map it walks.
    pub closed spec fn wf(&self) -> bool {
        self.inner.wf()
    }

    /// The keys still to come, in slot order.
    pub closed spec fn rest(&self) -> Seq<(nat, nat)> {
        self.inner.rest().map_values(|e: ((nat, nat), T)| entry_key(e))
    }

    /// Returns the next key from the front.
    pub fn next(&mut self) -> (r: Option<Key<C::KeyConfig>>)
        requires
            old(self).wf(),
        ensures
            final(self).wf(),
            old(self).rest().len() == 0 ==> r is None && final(self).rest() == old(self).rest(),
            old(self).rest().len() > 0 ==> r is Some && r->0@ == old(self).rest()[0]
                && final(self).rest() == old(self).rest().drop_first(),
    {
        let r = self.inner.next();
        proof {
            let f = |e: ((nat, nat), T)| entry_key(e);
            if old(self).inner.rest().len() > 0 {
                assert(old(self).inner.rest().drop_first().map_values(f) =~= old(self).inner.rest().map_values(f).drop_first());
            }
        }
        match r {
            Some((key, _)) => Some(key),
            None => None,
        }
    }

    /// Returns the next key from the back.
    pub fn next_back(&mut self) -> (r: Option<Key<C::KeyConfig>>)
        requires
            old(self).wf(),
        ensures
            final(self).wf(),
            old(self).rest().len() == 0 ==> r is None && final(self).rest() == old(self).rest(),
            old(self).rest().len() > 0 ==> r is Some && r->0@ == old(self).rest().last()
                && final(self).rest() == old(self).rest().drop_last(),
    {
        let r = self.inner.next_back();
        proof {
            let f = |e: ((nat, nat), T)| entry_key(e);
            if old(self).inner.rest().len() > 0 {
                assert(old(self).inner.rest().drop_last().map_values(f) =~= old(self).inner.rest().map_values(f).drop_last());
            }
        }
        match r {
            Some((key, _)) => Some(key),
            None => None,
        }
    }

    /// The number of keys still to come.
    pub fn len(&self) -> (r: usize)
        requires
            self.wf(),
        ensures
            r as nat == self.rest().len(),
    {
        self.inner.len()
    }

    /// The bounds on the number of entries still to come, which are both
    /// exact: `(len, Some(len))`.
    pub fn size_hint(&self) -> (r: (usize, Option<usize>))
        requires
            self.wf(),
        ensures
            r.0 as nat == self.rest().len(),
            r.1 == Some(r.0),
    {
        let n = self.len();
        (n, Some(n))
    }
}

impl<'a, T, C: MapConfig<T>> Clone for Keys<'a, T, C> {
    /// An iterator at the same place over the same map.
    fn clone(&self) -> (r: Self)
        ensures
            r.wf() == self.wf(),
            r.rest() == self.rest(),
    {
        Keys { inner: self.inner.clone() }
    }
}

/// Iterator over shared references to values, in slot order. Created by
/// [`GenMap::values`].
pub struct Values<'a, T, C: MapConfig<T>> {
    inner: Iter<'a, T, C>,
}

impl<'a, T, C: MapConfig<T>> Values<'a, T, C> {
    /// The iterator's bookkeeping agrees with the map it walks.
    pub closed spec fn wf(&self) -> bool {
        self.inner.wf()
    }

    /// The values still to come, in slot order.
    pub closed spec fn rest(&self) -> Seq<T> {
        self.inner.rest().map_values(|e: ((nat, nat), T)| entry_value(e))
    }

    /// Returns the next value from the front.
    pub fn next(&mut self) -> (r: Option<&'a T>)
        requires
            old(self).wf(),
        ensures
            final(self).wf(),
            old(self).rest().len() == 0 ==> r is None && final(self).rest() == old(self).rest(),
            old(self).rest().len() > 0 ==> r is Some && *r->0 == old(self).rest()[0]
                && final(self).rest() == old(self).rest().drop_first(),
    {
        let r = self.inner.next();
        proof {
            let f = |e: ((nat, nat), T)| entry_value(e);
            if old(self).inner.rest().len() > 0 {
                assert(old(self).inner.rest().drop_first().map_values(f) =~= old(self).inner.rest().map_values(f).drop_first());
            }
        }
        match r {
            Some((_, value)) => Some(value),
            None => None,
        }
    }

    /// Returns the next value from the back.
    pub fn next_back(&mut self) -> (r: Option<&'a T>)
        requires
            old(self).wf(),
        ensures
            final(self).wf(),
            old(self).rest().len() == 0 ==> r is None && final(self).rest() == old(self).rest(),
            old(self).rest().len() > 0 ==> r is Some && *r->0 == old(self).rest().last()
                && final(self).rest() == old(self).rest().drop_last(),
    {
        let r = self.inner.next_back();
        proof {
            let f = |e: ((nat, nat), T)| entry_value(e);
            if old(self).inner.rest().len() > 0 {
                assert(old(self).inner.rest().drop_last().map_values(f) =~= old(self).inner.rest().map_values(f).drop_last());
            }
        }
        match r {
            Some((_, value)) => Some(value),
            None => None,
        }
    }

    /// The number of values still to come.
    pub fn len(&self) -> (r: usize)
        requires
            self.wf(),
        ensures
            r as nat == self.rest().len(),
    {
        self.inner.len()
    }

    /// The bounds on the number of entries still to come, which are both
    /// exact: `(len, Some(len))`.
    pub fn size_hint(&self) -> (r: (usize, Option<usize>))
        requires
            self.wf(),
        ensures
            r.0 as nat == self.rest().len(),
            r.1 == Some(r.0),
    {
        let n = self.len();
        (n, Some(n))
    }
}

impl<'a, T, C: MapConfig<T>> Clone for Values<'a, T, C> {
    /// An iterator at the same place over the same map.
    fn clone(&self) -> (r: Self)
        ensures
            r.wf() == self.wf(),
            r.rest() == self.rest(),
    {
        Values { inner: self.inner.clone() }
    }
}

/// Where an iterator over a map's slots has got to: the slots from
/// `front` up to but not including `back` are still to be visited, and
/// `remaining` of them hold a value.
pub struct Cursor {
    front: usize,
    back: usize,
    remaining: usize,
}

impl Cursor {
    /// The first slot still to be visited.
    pub closed spec fn front(&self) -> nat {
        self.front as nat
    }

    /// The slot after the last one still to be visited.
    pub closed spec fn back(&self) -> nat {
        self.back as nat
    }

    /// How many of the slots still to be visited hold a value.
    pub closed spec fn remaining(&self) -> nat {
        self.remaining as nat
    }
}

/// Iterator over `(key, &mut value)` pairs, in slot order. Created by
/// [`GenMap::iter_mut`].
///
/// Each value it hands out is borrowed from the iterator, so one has to be
/// done with before the next is taken.
pub struct IterMut<'a, T, C: MapConfig<T>> {
    /// The map being walked.
    pub map: &'a mut GenMap<T, C>,
    /// Where the walk has got to.
    pub cursor: Cursor,
}

impl<'a, T, C: MapConfig<T>> IterMut<'a, T, C> {
    /// The iterator's bookkeeping agrees with the map it walks.
    pub open spec fn wf(&self) -> bool {
        &&& self.map.wf()
        &&& self.cursor.front() <= self.cursor.back() <= self.map.slots().len()
        &&& self.cursor.remaining() == self.rest().len()
    }

    /// The map as it is now, with the changes made through the values
    /// handed out so far.
    pub open spec fn map(&self) -> GenMap<T, C> {
        *self.map
    }

    /// The entries still to come, in slot order.
    pub open spec fn rest(&self) -> Seq<((nat, nat), T)> {
        self.map.entries_between(self.cursor.front(), self.cursor.back())
    }

    /// Returns the next entry from the front.
    pub fn next(&mut self) -> (r: Option<(Key<C::KeyConfig>, &mut T)>)
        requires
            old(self).wf(),
        ensures
            final(self).wf(),
            old(self).rest().len() == 0 ==> r is None && final(self).rest() == old(self).rest()
                && final(self).map() == old(self).map(),
            old(self).rest().len() > 0 ==> r is Some && ((r->0).0@, *(r->0).1) == old(self).rest()[0]
                && final(self).rest() == old(self).rest().drop_first()
                && final(self).map()@ == old(self).map()@.insert((r->0).0@, *final((r->0).1))
                && GenMap::same_shape(old(self).map(), final(self).map()),
    {
        let ghost start = *self;
        while self.cursor.front < self.cursor.back
            invariant
                self.wf(),
                self.cursor.back == start.cursor.back,
                self.map() == start.map(),
                self.rest() == start.rest(),
                start == *old(self),
            decreases self.cursor.back - self.cursor.front,
        {
            let position = self.cursor.front;
            proof {
                self.map().lemma_entries_front(position as nat, self.cursor.back as nat);
                self.map().lemma_wf_limits();
            }
            self.cursor.front = position + 1;
            if self.map.slots.get(position).is_odd() {
                self.cursor.remaining = self.cursor.remaining - 1;
                let idx = MapIdx::<T, C>::from_usize_unchecked(position);
                let ghost now = self.map();
                proof {
                    assert(start.rest() =~= seq![now.entry_of(position as nat)] + self.rest());
                    assert(start.rest().drop_first() =~= self.rest());
                }
                let ghost lo = (position + 1) as nat;
                let ghost hi = self.cursor.back as nat;
                proof {
                    assert forall|m: GenMap<T, C>|
                        m.slots().len() == now.slots().len() && (forall|i: nat|
                            i < now.slots().len() && i != position as nat ==> #[trigger] m.slots()[i as int]
                                == now.slots()[i as int]) implies #[trigger] m.entries_between(lo, hi)
                        == now.entries_between(lo, hi) by {
                        GenMap::lemma_entries_same(now, m, lo, hi);
                    }
                }
                let (key, value) = self.map.get_at_unchecked_mut(idx);
                return Some((key, value));
            }
            proof {
                assert(start.rest() =~= self.rest());
            }
        }
        proof {
            assert(self.rest() =~= Seq::<((nat, nat), T)>::empty());
        }
        None
    }

    /// Returns the next entry from the back.
    pub fn next_back(&mut self) -> (r: Option<(Key<C::KeyConfig>, &mut T)>)
        requires
            old(self).wf(),
        ensures
            final(self).wf(),
            old(self).rest().len() == 0 ==> r is None && final(self).rest() == old(self).rest()
                && final(self).map() == old(self).map(),
            old(self).rest().len() > 0 ==> r is Some && ((r->0).0@, *(r->0).1) == old(self).rest().last()
                && final(self).rest() == old(self).rest().drop_last()
                && final(self).map()@ == old(self).map()@.insert((r->0).0@, *final((r->0).1))
                && GenMap::same_shape(old(self).map(), final(self).map()),
    {
        let ghost start = *self;
        while self.cursor.front < self.cursor.back
            invariant
                self.wf(),
                self.cursor.front == start.cursor.front,
                self.map() == start.map(),
                self.rest() == start.rest(),
                start == *old(self),
            decreases self.cursor.back - self.cursor.front,
        {
            let position = self.cursor.back - 1;
            proof {
                self.map().lemma_wf_limits();
            }
            self.cursor.back = position;
            if self.map.slots.get(position).is_odd() {
                self.cursor.remaining = self.cursor.remaining - 1;
                let idx = MapIdx::<T, C>::from_usize_unchecked(position);
                let ghost now = self.map();
                proof {
                    assert(start.rest() =~= self.rest().push(now.entry_of(position as nat)));
                    assert(start.rest().drop_last() =~= self.rest());
                }
                let ghost lo = self.cursor.front as nat;
                let ghost hi = position as nat;
                proof {
                    assert forall|m: GenMap<T, C>|
                        m.slots().len() == now.slots().len() && (forall|i: nat|
                            i < now.slots().len() && i != position as nat ==> #[trigger] m.slots()[i as int]
                                == now.slots()[i as int]) implies #[trigger] m.entries_between(lo, hi)
                        == now.entries_between(lo, hi) by {
                        GenMap::lemma_entries_same(now, m, lo, hi);
                    }
                }
                let (key, value) = self.map.get_at_unchecked_mut(idx);
                return Some((key, value));
            }
            proof {
                assert(start.rest() =~= self.rest());
            }
        }
        proof {
            assert(self.rest() =~= Seq::<((nat, nat), T)>::empty());
        }
        None
    }

    /// The number of entries still to come.
    pub fn len(&self) -> (r: usize)
        requires
            self.wf(),
        ensures
            r as nat == self.rest().len(),
    {
        self.cursor.remaining
    }

    /// The bounds on the number of entries still to come, which are both
    /// exact: `(len, Some(len))`.
    pub fn size_hint(&self) -> (r: (usize, Option<usize>))
        requires
            self.wf(),
        ensures
            r.0 as nat == self.rest().len(),
            r.1 == Some(r.0),
    {
        let n = self.len();
        (n, Some(n))
    }
}

/// Iterator over mutable references to values, in slot order. Created by
/// [`GenMap::values_mut`].
///
/// Each value it hands out is borrowed from the iterator, so one has to be
/// done with before the next is taken.
pub struct ValuesMut<'a, T, C: MapConfig<T>> {
    /// The walk over the map's entries.
    pub inner: IterMut<'a, T, C>,
}

impl<'a, T, C: MapConfig<T>> ValuesMut<'a, T, C> {
    /// The iterator's bookkeeping agrees with the map it walks.
    pub open spec fn wf(&self) -> bool {
        self.inner.wf()
    }

    /// The map as it is now, with the changes made through the values
    /// handed out so far.
    pub open spec fn map(&self) -> GenMap<T, C> {
        self.inner.map()
    }

    /// The entries whose values are still to come, in slot order.
    pub open spec fn rest(&self) -> Seq<((nat, nat), T)> {
        self.inner.rest()
    }

    /// Returns the next value from the front.
    pub fn next(&mut self) -> (r: Option<&mut T>)
        requires
            old(self).wf(),
        ensures
            final(self).wf(),
            old(self).rest().len() == 0 ==> r is None && final(self).rest() == old(self).rest()
                && final(self).map() == old(self).map(),
            old(self).rest().len() > 0 ==> r is Some && *r->0 == old(self).rest()[0].1
                && final(self).rest() == old(self).rest().drop_first()
                && final(self).map()@ == old(self).map()@.insert(old(self).rest()[0].0, *final(r->0))
                && GenMap::same_shape(old(self).map(), final(self).map()),
    {
        match self.inner.next() {
            Some((_, value)) => Some(value),
            None => None,
        }
    }

    /// Returns the next value from the back.
    pub fn next_back(&mut self) -> (r: Option<&mut T>)
        requires
            old(self).wf(),
        ensures
            final(self).wf(),
            old(self).rest().len() == 0 ==> r is None && final(self).rest() == old(self).rest()
                && final(self).map() == old(self).map(),
            old(self).rest().len() > 0 ==> r is Some && *r->0 == old(self).rest().last().1
                && final(self).rest() == old(self).rest().drop_last()
                && final(self).map()@ == old(self).map()@.insert(old(self).rest().last().0, *final(r->0))
                && GenMap::same_shape(old(self).map(), final(self).map()),
    {
        match self.inner.next_back() {
            Some((_, value)) => Some(value),
            None => None,
        }
    }

    /// The number of values still to come.
    pub fn len(&self) -> (r: usize)
        requires
            self.wf(),
        ensures
            r as nat == self.rest().len(),
    {
        self.inner.len()
    }

    /// The bounds on the number of entries still to come, which are both
    /// exact: `(len, Some(len))`.
    pub fn size_hint(&self) -> (r: (usize, Option<usize>))
        requires
            self.wf(),
        ensures
            r.0 as nat == self.rest().len(),
            r.1 == Some(r.0),
    {
        let n = self.len();
        (n, Some(n))
    }
}

/// The entries a queue of owned `(key, value)` pairs holds, with each key
/// as its index and generation.
pub open spec fn owned_entries<K: crate::config::KeyConfig, T>(q: Seq<(Key<K>, T)>) -> Seq<((nat, nat), T)> {
    q.map_values(|e: (Key<K>, T)| (e.0@, e.1))
}

/// Pushing a pair onto a queue pushes its entry onto the queue's entries.
proof fn lemma_owned_push<K: crate::config::KeyConfig, T>(q: Seq<(Key<K>, T)>, key: Key<K>, value: T)
    ensures
        owned_entries(q.push((key, value))) == owned_entries(q).push((key@, value)),
{
    assert(owned_entries(q.push((key, value))) =~= owned_entries(q).push((key@, value)));
}

/// Draining iterator over `(key, value)` pairs, in slot order. Created by
/// [`GenMap::drain`], which has already removed every value from the map
/// by the time it returns; dropping the iterator drops the values it has
/// not yielded.
pub struct Drain<'a, T, C: MapConfig<T>> {
    entries: VecDeque<(Key<C::KeyConfig>, T)>,
    map: PhantomData<&'a mut GenMap<T, C>>,
}

impl<'a, T, C: MapConfig<T>> Drain<'a, T, C> {
    /// The entries still to come, in slot order.
    pub closed spec fn rest(&self) -> Seq<((nat, nat), T)> {
        owned_entries(self.entries@)
    }

    /// Returns the next entry.
    pub fn next(&mut self) -> (r: Option<(Key<C::KeyConfig>, T)>)
        ensures
            old(self).rest().len() == 0 ==> r is None && final(self).rest() == old(self).rest(),
            old(self).rest().len() > 0 ==> r is Some && ((r->0).0@, (r->0).1) == old(self).rest()[0]
                && final(self).rest() == old(self).rest().drop_first(),
    {
        let r = self.entries.pop_front();
        proof {
            if old(self).entries@.len() > 0 {
                assert(owned_entries(old(self).entries@.drop_first()) =~= owned_entries(old(self).entries@).drop_first());
            }
        }
        r
    }

    /// The number of entries still to come.
    pub fn len(&self) -> (r: usize)
        ensures
            r as nat == self.rest().len(),
    {
        self.entries.len()
    }

    /// The bounds on the number of entries still to come, which are both
    /// exact: `(len, Some(len))`.
    pub fn size_hint(&self) -> (r: (usize, Option<usize>))
        ensures
            r.0 as nat == self.rest().len(),
            r.1 == Some(r.0),
    {
        let n = self.len();
        (n, Some(n))
    }
}

/// Owning iterator over `(key, value)` pairs, in slot order. Created by
/// [`GenMap::into_iter`].
pub struct IntoIter<T, C: MapConfig<T>> {
    entries: VecDeque<(Key<C::KeyConfig>, T)>,
}

impl<T, C: MapConfig<T>> IntoIter<T, C> {
    /// The entries still to come, in slot order.
    pub closed spec fn rest(&self) -> Seq<((nat, nat), T)> {
        owned_entries(self.entries@)
    }

    /// Returns the next entry from the front.
    pub fn next(&mut self) -> (r: Option<(Key<C::KeyConfig>, T)>)
        ensures
            old(self).rest().len() == 0 ==> r is None && final(self).rest() == old(self).rest(),
            old(self).rest().len() > 0 ==> r is Some && ((r->0).0@, (r->0).1) == old(self).rest()[0]
                && final(self).rest() == old(self).rest().drop_first(),
    {
        let r = self.entries.pop_front();
        proof {
            if old(self).entries@.len() > 0 {
                assert(owned_entries(old(self).entries@.drop_first()) =~= owned_entries(old(self).entries@).drop_first());
            }
        }
        r
    }

    /// Returns the next entry from the back.
    pub fn next_back(&mut self) -> (r: Option<(Key<C::KeyConfig>, T)>)
        ensures
            old(self).rest().len() == 0 ==> r is None && final(self).rest() == old(self).rest(),
            old(self).rest().len() > 0 ==> r is Some && ((r->0).0@, (r->0).1) == old(self).rest().last()
                && final(self).rest() == old(self).rest().drop_last(),
    {
        let r = self.entries.pop_back();
        proof {
            if old(self).entries@.len() > 0 {
                assert(owned_entries(old(self).entries@.drop_last()) =~= owned_entries(old(self).entries@).drop_last());
            }
        }
        r
    }

    /// The number of entries still to come.
    pub fn len(&self) -> (r: usize)
        ensures
            r as nat == self.rest().len(),
    {
        self.entries.len()
    }

    /// The bounds on the number of entries still to come, which are both
    /// exact: `(len, Some(len))`.
    pub fn size_hint(&self) -> (r: (usize, Option<usize>))
        ensures
            r.0 as nat == self.rest().len(),
            r.1 == Some(r.0),
    {
        let n = self.len();
        (n, Some(n))
    }
}

impl<T, C: MapConfig<T>> GenMap<T, C> {
    /// Iterates over every value together with its key, in slot order.
    pub fn iter(&self) -> (r: Iter<'_, T, C>)
        requires
            self.wf(),
        ensures
            r.wf(),
            r.rest() == self.entries(),
    {
        proof {
            self.lemma_entries_count();
        }
        Iter { map: self, front: 0, back: self.slots.len(), remaining: self.len }
    }

    /// Iterates over every value mutably together with its key, in slot
    /// order.
    pub fn iter_mut(&mut self) -> (r: IterMut<'_, T, C>)
        requires
            old(self).wf(),
        ensures
            r.wf(),
            r.map() == *old(self),
            r.rest() == old(self).entries(),
            *final(self) == *final(r.map),
    {
        proof {
            self.lemma_entries_count();
        }
        let back = self.slots.len();
        let remaining = self.len;
        IterMut { map: self, cursor: Cursor { front: 0, back, remaining } }
    }

    /// Iterates over every value mutably, in slot order.
    pub fn values_mut(&mut self) -> (r: ValuesMut<'_, T, C>)
        requires
            old(self).wf(),
        ensures
            r.wf(),
            r.map() == *old(self),
            r.rest() == old(self).entries(),
            *final(self) == *final(r.inner.map),
    {
        ValuesMut { inner: self.iter_mut() }
    }

    /// Iterates over every key, in slot order.
    pub fn keys(&self) -> (r: Keys<'_, T, C>)
        requires
            self.wf(),
        ensures
            r.wf(),
            r.rest() == self.entries().map_values(|e: ((nat, nat), T)| entry_key(e)),
    {
        Keys { inner: self.iter() }
    }

    /// Iterates over every value, in slot order.
    pub fn values(&self) -> (r: Values<'_, T, C>)
        requires
            self.wf(),
        ensures
            r.wf(),
            r.rest() == self.entries().map_values(|e: ((nat, nat), T)| entry_value(e)),
    {
        Values { inner: self.iter() }
    }

    /// Removes every value as [`clear`](Self::clear) does, and hands out
    /// the values with their keys in a queue, in slot order.
    #[verifier::spinoff_prover]
    #[verifier::rlimit(40)]
    fn take_all(&mut self) -> (r: VecDeque<(Key<C::KeyConfig>, T)>)
        requires
            old(self).wf(),
        ensures
            GenMap::cleared(*old(self), *final(self)),
            owned_entries(r@) == old(self).entries(),
    {
        let ghost before = *self;
        let count = self.slots.len();
        let mut entries: VecDeque<(Key<C::KeyConfig>, T)> = VecDeque::new();
        let mut position: usize = 0;
        proof {
            assert(GenMap::cleared_up_to(before, *self, 0));
            assert(owned_entries(entries@) =~= before.entries_between(0, 0));
        }
        while position < count
            invariant
                GenMap::cleared_up_to(before, *self, position as nat),
                count == before.slots().len(),
                owned_entries(entries@) == before.entries_between(0, position as nat),
            decreases count - position,
        {
            proof {
                self.lemma_wf_limits();
            }
            let ghost now = *self;
            let ghost seen = entries@;
            if self.slots.get(position).is_odd() {
                let idx = MapIdx::<T, C>::from_usize_unchecked(position);
                let key = self.key_at_unchecked(idx);
                let value = self.take(idx, position);
                entries.push_back((key, value));
                proof {
                    assert(now.slots()[position as int] == before.slots()[position as int]);
                    lemma_owned_push(seen, key, value);
                }
            } else {
                proof {
                    assert(now.slots()[position as int] == before.slots()[position as int]);
                }
            }
            proof {
                GenMap::lemma_clear_step(before, now, *self, position as nat);
            }
            position = position + 1;
        }
        proof {
            GenMap::lemma_clear_done(before, *self);
        }
        entries
    }

    /// Removes every value as [`clear`](Self::clear) does and yields each
    /// with its key, in slot order.
    pub fn drain(&mut self) -> (r: Drain<'_, T, C>)
        requires
            old(self).wf(),
        ensures
            GenMap::cleared(*old(self), *final(self)),
            r.rest() == old(self).entries(),
    {
        Drain { entries: self.take_all(), map: PhantomData }
    }

    /// Consumes the map and yields every value with its key, in slot order.
    pub fn into_iter(self) -> (r: IntoIter<T, C>)
        requires
            self.wf(),
        ensures
            r.rest() == self.entries(),
    {
        let mut map = self;
        IntoIter { entries: map.take_all() }
    }
}

} // verus!
