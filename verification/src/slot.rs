use crate::key_piece::KeyPiece;
use crate::parity::{Even, Odd};
use vstd::prelude::*;

mod sealed;

verus! {

/// The generation of a [`Slot`] together with its value. The variant says
/// whether the generation is odd or even, and so whether the value is the
/// slot's `T` or its `U`.
#[derive(Debug, Clone, Copy, PartialEq, Eq, Hash)]
pub enum Parity<G: KeyPiece, T, U> {
    /// The generation is odd and the value is a `T`.
    Odd(Odd<G>, T),
    /// The generation is even and the value is a `U`.
    Even(Even<G>, U),
}

/// The generation that `parity` carries.
pub open spec fn parity_generation<G: KeyPiece, T, U>(parity: Parity<G, T, U>) -> nat {
    match parity {
        Parity::Odd(generation, _) => generation.value(),
        Parity::Even(generation, _) => generation.value(),
    }
}

/// A generation together with a `T` while the generation is odd, or a `U`
/// while it is even.
///
/// A [`GenMap`](crate::GenMap) keeps each of its values in a slot like this,
/// its [`MapSlot`](crate::MapSlot). A key's generation is odd, so a key that
/// matches a slot finds its `T`.
#[derive(Debug)]
pub struct Slot<G: KeyPiece, T, U> {
    parity: Parity<G, T, U>,
}

impl<G: KeyPiece, T, U> Slot<G, T, U> {
    /// The generation and the value the slot holds.
    pub closed spec fn spec_parity(self) -> Parity<G, T, U> {
        self.parity
    }

    /// The slot's generation.
    pub open spec fn spec_generation(self) -> nat {
        parity_generation(self.spec_parity())
    }

    /// The slot holds a `T`, which is when its generation is odd.
    pub open spec fn holds_value(self) -> bool {
        self.spec_parity() is Odd
    }

    /// The `T` the slot holds, meaningful while it holds one.
    pub open spec fn spec_value(self) -> T {
        self.spec_parity()->Odd_1
    }

    /// The `U` the slot holds, meaningful while its generation is even.
    pub open spec fn spec_link(self) -> U {
        self.spec_parity()->Even_1
    }

    /// The variant agrees with the parity of the generation, and the
    /// generation fits in `G`. Every slot satisfies this.
    pub open spec fn wf(self) -> bool {
        &&& (self.holds_value() <==> self.spec_generation() % 2 == 1)
        &&& self.spec_generation() <= G::spec_max()
    }

    /// Checks nothing at run time: it tells the verifier that the slot is
    /// well formed.
    pub(crate) fn lemma_wf(&self)
        ensures
            self.wf(),
    {
        match &self.parity {
            Parity::Odd(generation, _) => generation.lemma_odd(),
            Parity::Even(generation, _) => generation.lemma_even(),
        }
    }

    /// Creates a slot with the generation and the value in `parity`.
    pub fn new(parity: Parity<G, T, U>) -> (r: Self)
        ensures
            r.spec_parity() == parity,
            r.wf(),
    {
        let r = Slot { parity };
        r.lemma_wf();
        r
    }

    /// Creates a slot with an odd `generation` and a `T`.
    pub fn new_odd(generation: Odd<G>, value: T) -> (r: Self)
        ensures
            r.spec_parity() == Parity::<G, T, U>::Odd(generation, value),
            r.holds_value(),
            r.spec_generation() == generation.value(),
            r.spec_value() == value,
            r.wf(),
    {
        Self::new(Parity::Odd(generation, value))
    }

    /// Creates a slot with an even `generation` and a `U`.
    pub fn new_even(generation: Even<G>, value: U) -> (r: Self)
        ensures
            r.spec_parity() == Parity::<G, T, U>::Even(generation, value),
            !r.holds_value(),
            r.spec_generation() == generation.value(),
            r.spec_link() == value,
            r.wf(),
    {
        Self::new(Parity::Even(generation, value))
    }

    /// Returns the slot's generation.
    pub fn generation(&self) -> (r: G)
        ensures
            r.as_nat() == self.spec_generation(),
    {
        match &self.parity {
            Parity::Odd(generation, _) => generation.get(),
            Parity::Even(generation, _) => generation.get(),
        }
    }

    /// Returns `true` if the generation is odd, which means the slot holds a
    /// `T`.
    pub fn is_odd(&self) -> (r: bool)
        ensures
            r == self.holds_value(),
            r == (self.spec_generation() % 2 == 1),
    {
        self.lemma_wf();
        match &self.parity {
            Parity::Odd(..) => true,
            Parity::Even(..) => false,
        }
    }

    /// Returns `true` if the generation is even, which means the slot holds a
    /// `U`.
    pub fn is_even(&self) -> (r: bool)
        ensures
            r == !self.holds_value(),
            r == (self.spec_generation() % 2 == 0),
    {
        !self.is_odd()
    }

    /// Returns the generation and a reference to the value.
    pub fn as_parity(&self) -> (r: Parity<G, &T, &U>)
        ensures
            match (r, self.spec_parity()) {
                (Parity::Odd(g, v), Parity::Odd(h, w)) => g == h && *v == w,
                (Parity::Even(g, v), Parity::Even(h, w)) => g == h && *v == w,
                _ => false,
            },
    {
        match &self.parity {
            Parity::Odd(generation, value) => Parity::Odd(*generation, value),
            Parity::Even(generation, value) => Parity::Even(*generation, value),
        }
    }

    /// Returns the generation and a mutable reference to the value.
    pub fn as_parity_mut(&mut self) -> (r: Parity<G, &mut T, &mut U>)
        ensures
            match (r, old(self).spec_parity()) {
                (Parity::Odd(g, v), Parity::Odd(h, w)) => g == h && *v == w
                    && final(self).spec_parity() == Parity::<G, T, U>::Odd(h, *final(v)),
                (Parity::Even(g, v), Parity::Even(h, w)) => g == h && *v == w
                    && final(self).spec_parity() == Parity::<G, T, U>::Even(h, *final(v)),
                _ => false,
            },
    {
        match &mut self.parity {
            Parity::Odd(generation, value) => Parity::Odd(*generation, value),
            Parity::Even(generation, value) => Parity::Even(*generation, value),
        }
    }

    /// Takes the generation and the value out of the slot.
    pub fn into_parity(self) -> (r: Parity<G, T, U>)
        ensures
            r == self.spec_parity(),
    {
        self.parity
    }

    /// Returns a reference to the `T` if the slot's generation is
    /// `generation`.
    pub fn get_odd(&self, generation: Odd<G>) -> (r: Option<&T>)
        ensures
            r is Some <==> (self.holds_value() && self.spec_generation() == generation.value()),
            r is Some ==> *r->0 == self.spec_value(),
    {
        match &self.parity {
            Parity::Odd(own, value) => {
                if own.get().is_equal(generation.get()) {
                    Some(value)
                } else {
                    None
                }
            },
            Parity::Even(..) => None,
        }
    }

    /// Returns a mutable reference to the `T` if the slot's generation is
    /// `generation`.
    pub fn get_odd_mut(&mut self, generation: Odd<G>) -> (r: Option<&mut T>)
        ensures
            r is Some <==> (old(self).holds_value() && old(self).spec_generation()
                == generation.value()),
            r is Some ==> *r->0 == old(self).spec_value() && final(self).spec_parity()
                == Parity::<G, T, U>::Odd(old(self).spec_parity()->Odd_0, *final(r->0)),
            r is None ==> *final(self) == *old(self),
    {
        match &mut self.parity {
            Parity::Odd(own, value) => {
                if own.get().is_equal(generation.get()) {
                    Some(value)
                } else {
                    None
                }
            },
            Parity::Even(..) => None,
        }
    }

    /// Takes the `T` out of the slot if the slot's generation is
    /// `generation`, and hands the slot back otherwise.
    pub fn into_odd(self, generation: Odd<G>) -> (r: Result<T, Self>)
        ensures
            r is Ok <==> (self.holds_value() && self.spec_generation() == generation.value()),
            r is Ok ==> r->Ok_0 == self.spec_value(),
            r is Err ==> r->Err_0 == self,
    {
        match self.parity {
            Parity::Odd(own, value) => {
                if own.get().is_equal(generation.get()) {
                    Ok(value)
                } else {
                    Err(Slot { parity: Parity::Odd(own, value) })
                }
            },
            Parity::Even(own, link) => Err(Slot { parity: Parity::Even(own, link) }),
        }
    }

    /// Returns a reference to the `U` if the slot's generation is
    /// `generation`.
    pub fn get_even(&self, generation: Even<G>) -> (r: Option<&U>)
        ensures
            r is Some <==> (!self.holds_value() && self.spec_generation() == generation.value()),
            r is Some ==> *r->0 == self.spec_link(),
    {
        match &self.parity {
            Parity::Even(own, link) => {
                if own.get().is_equal(generation.get()) {
                    Some(link)
                } else {
                    None
                }
            },
            Parity::Odd(..) => None,
        }
    }

    /// Returns a mutable reference to the `U` if the slot's generation is
    /// `generation`.
    pub fn get_even_mut(&mut self, generation: Even<G>) -> (r: Option<&mut U>)
        ensures
            r is Some <==> (!old(self).holds_value() && old(self).spec_generation()
                == generation.value()),
            r is Some ==> *r->0 == old(self).spec_link() && final(self).spec_parity()
                == Parity::<G, T, U>::Even(old(self).spec_parity()->Even_0, *final(r->0)),
            r is None ==> *final(self) == *old(self),
    {
        match &mut self.parity {
            Parity::Even(own, link) => {
                if own.get().is_equal(generation.get()) {
                    Some(link)
                } else {
                    None
                }
            },
            Parity::Odd(..) => None,
        }
    }

    /// Takes the `U` out of the slot if the slot's generation is
    /// `generation`, and hands the slot back otherwise.
    pub fn into_even(self, generation: Even<G>) -> (r: Result<U, Self>)
        ensures
            r is Ok <==> (!self.holds_value() && self.spec_generation() == generation.value()),
            r is Ok ==> r->Ok_0 == self.spec_link(),
            r is Err ==> r->Err_0 == self,
    {
        match self.parity {
            Parity::Even(own, link) => {
                if own.get().is_equal(generation.get()) {
                    Ok(link)
                } else {
                    Err(Slot { parity: Parity::Even(own, link) })
                }
            },
            Parity::Odd(own, value) => Err(Slot { parity: Parity::Odd(own, value) }),
        }
    }

    /// Puts the generation and the value in `parity` into the slot, and
    /// returns the ones it had before.
    pub fn replace(&mut self, parity: Parity<G, T, U>) -> (r: Parity<G, T, U>)
        ensures
            r == old(self).spec_parity(),
            final(self).spec_parity() == parity,
    {
        let mut parity = parity;
        core::mem::swap(&mut self.parity, &mut parity);
        parity
    }

    /// Puts an odd `generation` and a `T` into the slot, and returns the
    /// generation and the value it had before.
    pub fn set_odd(&mut self, generation: Odd<G>, value: T) -> (r: Parity<G, T, U>)
        ensures
            r == old(self).spec_parity(),
            final(self).spec_parity() == Parity::<G, T, U>::Odd(generation, value),
    {
        self.replace(Parity::Odd(generation, value))
    }

    /// Puts an even `generation` and a `U` into the slot, and returns the
    /// generation and the value it had before.
    pub fn set_even(&mut self, generation: Even<G>, value: U) -> (r: Parity<G, T, U>)
        ensures
            r == old(self).spec_parity(),
            final(self).spec_parity() == Parity::<G, T, U>::Even(generation, value),
    {
        self.replace(Parity::Even(generation, value))
    }

    /// Moves the `T` out of a slot that holds one and puts an even
    /// `generation` and a `U` in its place.
    pub fn replace_odd_unchecked(&mut self, generation: Even<G>, value: U) -> (r: T)
        requires
            old(self).holds_value(),
        ensures
            r == old(self).spec_value(),
            final(self).spec_parity() == Parity::<G, T, U>::Even(generation, value),
    {
        match self.set_even(generation, value) {
            Parity::Odd(_, old) => old,
            Parity::Even(..) => vstd::pervasive::unreached(),
        }
    }

    /// Moves the `U` out of a slot that holds one and puts an odd
    /// `generation` and a `T` in its place.
    pub fn replace_even_unchecked(&mut self, generation: Odd<G>, value: T) -> (r: U)
        requires
            !old(self).holds_value(),
        ensures
            r == old(self).spec_link(),
            final(self).spec_parity() == Parity::<G, T, U>::Odd(generation, value),
    {
        match self.set_odd(generation, value) {
            Parity::Even(_, old) => old,
            Parity::Odd(..) => vstd::pervasive::unreached(),
        }
    }

    /// Returns a reference to the `T` of a slot that holds one.
    pub fn get_odd_unchecked(&self) -> (r: &T)
        requires
            self.holds_value(),
        ensures
            *r == self.spec_value(),
    {
        match &self.parity {
            Parity::Odd(_, value) => value,
            Parity::Even(..) => vstd::pervasive::unreached(),
        }
    }

    /// Returns a mutable reference to the `T` of a slot that holds one.
    pub fn get_odd_unchecked_mut(&mut self) -> (r: &mut T)
        requires
            old(self).holds_value(),
        ensures
            *r == old(self).spec_value(),
            final(self).spec_parity() == Parity::<G, T, U>::Odd(
                old(self).spec_parity()->Odd_0,
                *final(r),
            ),
    {
        match &mut self.parity {
            Parity::Odd(_, value) => value,
            Parity::Even(..) => vstd::pervasive::unreached(),
        }
    }

    /// Returns a reference to the `U` of a slot whose generation is even.
    pub fn get_even_unchecked(&self) -> (r: &U)
        requires
            !self.holds_value(),
        ensures
            *r == self.spec_link(),
    {
        match &self.parity {
            Parity::Even(_, link) => link,
            Parity::Odd(..) => vstd::pervasive::unreached(),
        }
    }

    /// Returns a mutable reference to the `U` of a slot whose generation is
    /// even.
    pub fn get_even_unchecked_mut(&mut self) -> (r: &mut U)
        requires
            !old(self).holds_value(),
        ensures
            *r == old(self).spec_link(),
            final(self).spec_parity() == Parity::<G, T, U>::Even(
                old(self).spec_parity()->Even_0,
                *final(r),
            ),
    {
        match &mut self.parity {
            Parity::Even(_, link) => link,
            Parity::Odd(..) => vstd::pervasive::unreached(),
        }
    }
}

/// A slot type a [`MapConfig`](crate::MapConfig) can bound through the value
/// it holds. Only [`Slot`] implements it.
pub trait SlotItem: sealed::Sealed {
    /// The value the slot holds while its generation is odd.
    type Item;
}

impl<G: KeyPiece, T, U> sealed::Sealed for Slot<G, T, U> {
}

impl<G: KeyPiece, T, U> SlotItem for Slot<G, T, U> {
    type Item = T;
}

impl<G: KeyPiece, T: Clone, U: Clone> Clone for Slot<G, T, U> {
    /// A slot with the same generation and a clone of what it holds.
    fn clone(&self) -> (r: Self)
        ensures
            r.wf(),
            r.spec_generation() == self.spec_generation(),
            r.holds_value() == self.holds_value(),
            self.holds_value() ==> cloned::<T>(self.spec_value(), r.spec_value()),
            !self.holds_value() ==> cloned::<U>(self.spec_link(), r.spec_link()),
    {
        match &self.parity {
            Parity::Odd(generation, value) => Slot::new_odd(*generation, value.clone()),
            Parity::Even(generation, value) => Slot::new_even(*generation, value.clone()),
        }
    }
}

} // verus!
