use crate::key_piece::KeyPiece;
use vstd::prelude::*;

verus! {

/// An odd number of type `G`.
///
/// An odd number is never zero, and the largest value of `G` is odd, so
/// every even number below it has an odd successor of type `G`.
#[derive(Debug, Copy, PartialEq, Eq, PartialOrd, Ord, Hash)]
pub struct Odd<G: KeyPiece>(G);

impl<G: KeyPiece> Odd<G> {
    #[verifier::type_invariant]
    spec fn is_odd_number(self) -> bool {
        self.0.as_nat() % 2 == 1
    }

    /// The number.
    pub closed spec fn value(self) -> nat {
        self.0.as_nat()
    }

    /// Returns `value` as an `Odd`, or `None` if it is even.
    pub fn new(value: G) -> (r: Option<Self>)
        ensures
            r is Some <==> value.as_nat() % 2 == 1,
            r is Some ==> r->0.value() == value.as_nat(),
    {
        if value.is_odd() {
            Some(Odd(value))
        } else {
            None
        }
    }

    /// [`new`](Self::new) for a value that is known to be odd.
    pub fn new_unchecked(value: G) -> (r: Self)
        requires
            value.as_nat() % 2 == 1,
        ensures
            r.value() == value.as_nat(),
    {
        Odd(value)
    }

    /// The number.
    pub fn get(self) -> (r: G)
        ensures
            r.as_nat() == self.value(),
            r.as_nat() % 2 == 1,
    {
        proof {
            use_type_invariant(&self);
        }
        self.0
    }

    /// The even number after this one. The largest value of `G` wraps around
    /// to zero.
    pub fn wrapping_next(self) -> (r: Even<G>)
        ensures
            r.value() == after_odd::<G>(self.value()),
    {
        proof {
            use_type_invariant(&self);
            G::lemma_limits();
            G::lemma_in_range(self.0);
        }
        Even(self.0.wrapping_add(G::one()))
    }

    /// The even number before this one. It never wraps, because the smallest
    /// odd number is one.
    pub fn previous(self) -> (r: Even<G>)
        ensures
            r.value() + 1 == self.value(),
    {
        proof {
            use_type_invariant(&self);
        }
        Even(self.0.wrapping_sub(G::one()))
    }

    /// Checks nothing at run time: it tells the verifier that the number is
    /// odd and fits in `G`.
    pub(crate) fn lemma_odd(&self)
        ensures
            self.value() % 2 == 1,
            self.value() <= G::spec_max(),
    {
        proof {
            use_type_invariant(self);
            G::lemma_in_range(self.0);
        }
    }
}

/// An even number of type `G`.
#[derive(Debug, Copy, PartialEq, Eq, PartialOrd, Ord, Hash)]
pub struct Even<G: KeyPiece>(G);

impl<G: KeyPiece> Clone for Odd<G> {
    fn clone(&self) -> (r: Self)
        ensures
            r == *self,
    {
        *self
    }
}

impl<G: KeyPiece> Clone for Even<G> {
    fn clone(&self) -> (r: Self)
        ensures
            r == *self,
    {
        *self
    }
}

impl<G: KeyPiece> Even<G> {
    #[verifier::type_invariant]
    spec fn is_even_number(self) -> bool {
        self.0.as_nat() % 2 == 0
    }

    /// The number.
    pub closed spec fn value(self) -> nat {
        self.0.as_nat()
    }

    /// The even number zero.
    pub fn zero() -> (r: Self)
        ensures
            r.value() == 0,
    {
        Even(G::zero())
    }

    /// Returns `value` as an `Even`, or `None` if it is odd.
    pub fn new(value: G) -> (r: Option<Self>)
        ensures
            r is Some <==> value.as_nat() % 2 == 0,
            r is Some ==> r->0.value() == value.as_nat(),
    {
        if value.is_odd() {
            None
        } else {
            Some(Even(value))
        }
    }

    /// [`new`](Self::new) for a value that is known to be even.
    pub fn new_unchecked(value: G) -> (r: Self)
        requires
            value.as_nat() % 2 == 0,
        ensures
            r.value() == value.as_nat(),
    {
        Even(value)
    }

    /// The number.
    pub fn get(self) -> (r: G)
        ensures
            r.as_nat() == self.value(),
            r.as_nat() % 2 == 0,
    {
        proof {
            use_type_invariant(&self);
        }
        self.0
    }

    /// The odd number after this one. It never overflows, because the
    /// largest value of `G` is odd and so is above every even number.
    pub fn next(self) -> (r: Odd<G>)
        ensures
            r.value() == self.value() + 1,
    {
        proof {
            use_type_invariant(&self);
            G::lemma_limits();
            G::lemma_in_range(self.0);
            vstd::arithmetic::power2::lemma_pow2_unfold(G::spec_bits());
        }
        Odd(self.0.wrapping_add(G::one()))
    }

    /// The odd number before this one. Zero wraps around to the largest value
    /// of `G`.
    pub fn wrapping_previous(self) -> (r: Odd<G>)
        ensures
            r.value() == before_even::<G>(self.value()),
    {
        proof {
            use_type_invariant(&self);
            G::lemma_limits();
            vstd::arithmetic::power2::lemma_pow2_unfold(G::spec_bits());
        }
        Odd(self.0.wrapping_sub(G::one()))
    }

    /// Checks nothing at run time: it tells the verifier that the number is
    /// even and fits in `G`.
    pub(crate) fn lemma_even(&self)
        ensures
            self.value() % 2 == 0,
            self.value() <= G::spec_max(),
    {
        proof {
            use_type_invariant(self);
            G::lemma_in_range(self.0);
        }
    }
}

/// The even number [`Odd::wrapping_next`] gives for the odd number `v`:
/// the next one, with the largest value of `G` wrapping to zero.
pub open spec fn after_odd<G: KeyPiece>(v: nat) -> nat {
    if v == G::spec_max() {
        0
    } else {
        v + 1
    }
}

/// The odd number [`Even::wrapping_previous`] gives for the even number
/// `v`: the one before, with zero wrapping to the largest value of `G`.
pub open spec fn before_even<G: KeyPiece>(v: nat) -> nat {
    if v == 0 {
        G::spec_max()
    } else {
        (v - 1) as nat
    }
}

/// [`Odd::previous`] undoes [`Even::next`], and [`Even::wrapping_previous`]
/// undoes [`Odd::wrapping_next`], the wrap included.
pub proof fn law_previous_undoes_next<G: KeyPiece>(even: nat, odd: nat)
    requires
        even % 2 == 0,
        even < G::spec_max(),
        odd % 2 == 1,
        odd <= G::spec_max(),
    ensures
        (even + 1) - 1 == even,
        before_even::<G>(after_odd::<G>(odd)) == odd,
{
}

} // verus!
