use crate::key_piece::{piece_range, KeyPiece};
use crate::parity::Odd;
use vstd::arithmetic::div_mod::{lemma_fundamental_div_mod, lemma_fundamental_div_mod_converse};
use vstd::arithmetic::mul::{lemma_mul_inequality, lemma_mul_is_distributive_sub};
use vstd::arithmetic::power2::{lemma_pow2_adds, lemma_pow2_pos, pow2};
use vstd::prelude::*;

verus! {

/// How a [`Key`](crate::Key) stores its index and generation. A
/// [`KeyConfig`](crate::KeyConfig) picks one through its `Layout` type.
///
/// The parts a layout hands back are exactly the parts it was given, and two
/// well-formed `Repr` values are equal only if they were packed from the
/// same parts.
pub trait KeyLayout<Idx: KeyPiece, Gen: KeyPiece> {
    /// The type a key stores its index and generation in.
    type Repr: Copy + Eq + Ord + core::hash::Hash + core::fmt::Debug;

    /// The layout's bit counts add up. This always holds for [`Split`]; for
    /// [`Packed`] it is what [`check_packed`] checks.
    spec fn layout_ok() -> bool;

    /// The largest index a key can hold.
    spec fn spec_max_idx() -> nat;

    /// The largest generation a key can hold.
    spec fn spec_max_generation() -> nat;

    /// The index that was packed into `repr`.
    spec fn repr_idx(repr: Self::Repr) -> nat;

    /// The generation that was packed into `repr`.
    spec fn repr_generation(repr: Self::Repr) -> nat;

    /// `repr` holds an odd generation, as every packed one does.
    spec fn repr_wf(repr: Self::Repr) -> bool;

    /// The limits fit the integer types and the largest generation is odd.
    proof fn lemma_limits()
        requires
            Self::layout_ok(),
        ensures
            Self::spec_max_idx() <= Idx::spec_max(),
            1 <= Self::spec_max_generation() <= Gen::spec_max(),
            Self::spec_max_generation() % 2 == 1,
    ;

    /// The parts of a well-formed `Repr` fit the layout, and its generation
    /// is odd.
    proof fn lemma_repr_parts(repr: Self::Repr)
        requires
            Self::layout_ok(),
            Self::repr_wf(repr),
        ensures
            Self::repr_idx(repr) <= Self::spec_max_idx(),
            Self::repr_generation(repr) <= Self::spec_max_generation(),
            Self::repr_generation(repr) % 2 == 1,
    ;

    /// Two well-formed `Repr` values with the same parts are equal.
    proof fn lemma_repr_unique(a: Self::Repr, b: Self::Repr)
        requires
            Self::layout_ok(),
            Self::repr_wf(a),
            Self::repr_wf(b),
            Self::repr_idx(a) == Self::repr_idx(b),
            Self::repr_generation(a) == Self::repr_generation(b),
        ensures
            a == b,
    ;

    /// The largest index a key can hold.
    fn max_idx() -> (r: Idx)
        requires
            Self::layout_ok(),
        ensures
            r.as_nat() == Self::spec_max_idx(),
    ;

    /// The largest generation a key can hold.
    fn max_generation() -> (r: Odd<Gen>)
        requires
            Self::layout_ok(),
        ensures
            r.value() == Self::spec_max_generation(),
    ;

    /// Packs an index and a generation that both fit the layout.
    fn pack_unchecked(idx: Idx, generation: Odd<Gen>) -> (r: Self::Repr)
        requires
            Self::layout_ok(),
            idx.as_nat() <= Self::spec_max_idx(),
            generation.value() <= Self::spec_max_generation(),
        ensures
            Self::repr_wf(r),
            Self::repr_idx(r) == idx.as_nat(),
            Self::repr_generation(r) == generation.value(),
    ;

    /// Packs an index and a generation, or returns `None` if either is larger
    /// than the layout can hold.
    fn pack(idx: Idx, generation: Odd<Gen>) -> (r: Option<Self::Repr>)
        requires
            Self::layout_ok(),
        ensures
            r is Some <== (idx.as_nat() <= Self::spec_max_idx() && generation.value()
                <= Self::spec_max_generation()),
            r is Some ==> (idx.as_nat() <= Self::spec_max_idx() && generation.value()
                <= Self::spec_max_generation()),
            r is Some ==> Self::repr_wf(r->0) && Self::repr_idx(r->0) == idx.as_nat()
                && Self::repr_generation(r->0) == generation.value(),
    {
        if idx.is_at_most(Self::max_idx()) && generation.get().is_at_most(
            Self::max_generation().get(),
        ) {
            Some(Self::pack_unchecked(idx, generation))
        } else {
            None
        }
    }

    /// The index that was packed.
    fn idx(repr: Self::Repr) -> (r: Idx)
        requires
            Self::layout_ok(),
            Self::repr_wf(repr),
        ensures
            r.as_nat() == Self::repr_idx(repr),
    ;

    /// The generation that was packed.
    fn generation(repr: Self::Repr) -> (r: Odd<Gen>)
        requires
            Self::layout_ok(),
            Self::repr_wf(repr),
        ensures
            r.value() == Self::repr_generation(repr),
    ;
}

/// Stores the index and the generation as two fields, so a key is as large
/// as the two put together, plus any padding their alignment needs. Every
/// value of `Idx` and `Gen` fits.
#[derive(Debug, Clone, Copy, Default, PartialEq, Eq, PartialOrd, Ord, Hash)]
pub struct Split;

/// The type a key with the [`Split`] layout stores its index and generation
/// in. Keys compare by index first and generation second.
#[derive(Debug, Clone, Copy, PartialEq, Eq, PartialOrd, Ord, Hash)]
pub struct SplitRepr<Idx: KeyPiece, Gen: KeyPiece> {
    idx: Idx,
    generation: Gen,
}

impl<Idx: KeyPiece, Gen: KeyPiece> KeyLayout<Idx, Gen> for Split {
    type Repr = SplitRepr<Idx, Gen>;

    open spec fn layout_ok() -> bool {
        true
    }

    open spec fn spec_max_idx() -> nat {
        Idx::spec_max()
    }

    open spec fn spec_max_generation() -> nat {
        Gen::spec_max()
    }

    closed spec fn repr_idx(repr: Self::Repr) -> nat {
        repr.idx.as_nat()
    }

    closed spec fn repr_generation(repr: Self::Repr) -> nat {
        repr.generation.as_nat()
    }

    closed spec fn repr_wf(repr: Self::Repr) -> bool {
        repr.generation.as_nat() % 2 == 1
    }

    proof fn lemma_limits() {
        Gen::lemma_limits();
        lemma_pow2_pos(Gen::spec_bits());
        vstd::arithmetic::power2::lemma_pow2_unfold(Gen::spec_bits());
    }

    proof fn lemma_repr_parts(repr: Self::Repr) {
        Idx::lemma_in_range(repr.idx);
        Gen::lemma_in_range(repr.generation);
    }

    proof fn lemma_repr_unique(a: Self::Repr, b: Self::Repr) {
        Idx::lemma_injective(a.idx, b.idx);
        Gen::lemma_injective(a.generation, b.generation);
    }

    fn max_idx() -> (r: Idx) {
        Idx::max_value()
    }

    fn max_generation() -> (r: Odd<Gen>) {
        proof {
            Gen::lemma_limits();
            vstd::arithmetic::power2::lemma_pow2_unfold(Gen::spec_bits());
        }
        Odd::new_unchecked(Gen::max_value())
    }

    fn pack_unchecked(idx: Idx, generation: Odd<Gen>) -> (r: Self::Repr) {
        SplitRepr { idx, generation: generation.get() }
    }

    fn idx(repr: Self::Repr) -> (r: Idx) {
        repr.idx
    }

    fn generation(repr: Self::Repr) -> (r: Odd<Gen>) {
        Odd::new_unchecked(repr.generation)
    }
}

/// Stores the index and the generation in the bits of one integer `R`, so a
/// key is as large as `R`. The low `GEN_BITS` bits hold the generation and
/// the bits above them hold the index.
///
/// `GEN_BITS` must be at least one and less than the bits of `R`, `Gen` must
/// have at least `GEN_BITS` bits, and `Idx` must have at least the bits that
/// are left for the index; [`check_packed`] says whether they do, and every
/// method of the layout needs them to.
///
/// The largest index is `(1 << (R::BITS - GEN_BITS)) - 1` and the largest
/// generation is `(1 << GEN_BITS) - 1`, no matter how wide `Idx` and `Gen`
/// are.
#[derive(Debug, Copy, PartialEq, Eq, PartialOrd, Ord, Hash)]
pub struct Packed<R, const GEN_BITS: u32>(core::marker::PhantomData<R>);

impl<R: Copy, const GEN_BITS: u32> Clone for Packed<R, GEN_BITS> {
    fn clone(&self) -> (r: Self) {
        *self
    }
}

/// The type a key with the [`Packed`] layout stores its index and
/// generation in: the index times `2^GEN_BITS` plus the generation.
#[derive(Debug, Clone, Copy, PartialEq, Eq, PartialOrd, Ord, Hash)]
pub struct PackedRepr<R: KeyPiece>(R);

/// The bit counts of a `Packed<R, gen_bits>` layout for keys with an `Idx`
/// index and a `Gen` generation add up.
pub open spec fn packed_fits<Idx: KeyPiece, Gen: KeyPiece, R: KeyPiece>(gen_bits: nat) -> bool {
    &&& 1 <= gen_bits
    &&& gen_bits < R::spec_bits()
    &&& Gen::spec_bits() >= gen_bits
    &&& Idx::spec_bits() + gen_bits >= R::spec_bits()
}

/// Returns `true` if the bit counts of a `Packed<R, GEN_BITS>` layout for
/// keys with an `Idx` index and a `Gen` generation add up: at least one bit
/// for each part, a `Gen` wide enough for the generation bits and an `Idx`
/// wide enough for the index bits.
pub fn check_packed<Idx: KeyPiece, Gen: KeyPiece, R: KeyPiece, const GEN_BITS: u32>() -> (r: bool)
    ensures
        r == packed_fits::<Idx, Gen, R>(GEN_BITS as nat),
{
    proof {
        Idx::lemma_limits();
        Gen::lemma_limits();
        R::lemma_limits();
    }
    GEN_BITS >= 1 && GEN_BITS < R::BITS && Gen::BITS >= GEN_BITS && Idx::BITS >= R::BITS
        - GEN_BITS
}

/// `2^e1 <= 2^e2` when `e1 <= e2`.
proof fn lemma_pow2_le(e1: nat, e2: nat)
    requires
        e1 <= e2,
    ensures
        pow2(e1) <= pow2(e2),
{
    if e1 < e2 {
        vstd::arithmetic::power2::lemma_pow2_strictly_increases(e1, e2);
    }
}

/// `(2^128 - 1) / 2^(128 - bits)` is `2^bits - 1`.
proof fn lemma_low_bits(bits: nat)
    requires
        1 <= bits < 128,
    ensures
        (pow2(128) - 1) as int / (pow2((128 - bits) as nat) as int) == pow2(bits) - 1,
{
    let d = pow2((128 - bits) as nat) as int;
    let q = pow2(bits) - 1;
    lemma_pow2_adds((128 - bits) as nat, bits);
    lemma_pow2_pos((128 - bits) as nat);
    lemma_pow2_pos(bits);
    lemma_mul_is_distributive_sub(d, pow2(bits) as int, 1);
    assert(d * q + (d - 1) == pow2(128) - 1);
    lemma_fundamental_div_mod_converse(pow2(128) - 1, d, q, d - 1);
}

/// Returns a `u128` with its lowest `bits` bits set, `2^bits - 1`.
pub fn low_bits(bits: u32) -> (r: u128)
    requires
        bits < 128,
    ensures
        r as nat == pow2(bits as nat) - 1,
        r < u128::MAX,
{
    proof {
        u128::lemma_limits();
        vstd::arithmetic::power2::lemma_pow2_strictly_increases(bits as nat, 128);
    }
    if bits == 0 {
        proof {
            vstd::arithmetic::power2::lemma2_to64();
        }
        0
    } else {
        let shift: u128 = (128 - bits) as u128;
        let r = u128::MAX >> shift;
        proof {
            vstd::bits::lemma_u128_shr_is_div(u128::MAX, shift);
            u128::lemma_limits();
            lemma_low_bits(bits as nat);
        }
        r
    }
}

/// The parts of a number of the form `idx * m + generation`, with the
/// generation below `m`.
proof fn lemma_split_number(idx: nat, generation: nat, m: nat)
    requires
        generation < m,
    ensures
        (idx * m + generation) / m == idx,
        (idx * m + generation) % m == generation,
{
    lemma_fundamental_div_mod_converse((idx * m + generation) as int, m as int, idx as int, generation as int);
}

/// A number below `2^b` has a quotient by `2^g` below `2^(b - g)`.
proof fn lemma_quotient_bound(v: nat, b: nat, g: nat)
    requires
        g <= b,
        v < pow2(b),
    ensures
        v / pow2(g) < pow2((b - g) as nat),
{
    let m = pow2(g);
    lemma_pow2_pos(g);
    lemma_pow2_adds((b - g) as nat, g);
    lemma_fundamental_div_mod(v as int, m as int);
    let q = v / m;
    if q >= pow2((b - g) as nat) {
        lemma_mul_inequality(pow2((b - g) as nat) as int, q as int, m as int);
        assert(false);
    }
}

/// A packed number fits: `idx * 2^g + generation < 2^b` when the parts fit
/// their fields.
proof fn lemma_packed_fits(idx: nat, generation: nat, b: nat, g: nat)
    requires
        g < b,
        idx < pow2((b - g) as nat),
        generation < pow2(g),
    ensures
        idx * pow2(g) + generation < pow2(b),
{
    lemma_pow2_adds((b - g) as nat, g);
    lemma_pow2_pos(g);
    lemma_mul_inequality(idx as int, pow2((b - g) as nat) - 1, pow2(g) as int);
    lemma_mul_is_distributive_sub(pow2(g) as int, pow2((b - g) as nat) as int, 1);
    assert(pow2(g) * pow2((b - g) as nat) == pow2((b - g) as nat) * pow2(g)) by (nonlinear_arith);
    assert((pow2((b - g) as nat) - 1) * pow2(g) == pow2(g) * (pow2((b - g) as nat) - 1)) by (nonlinear_arith);
}

impl<Idx: KeyPiece, Gen: KeyPiece, R: KeyPiece, const GEN_BITS: u32> KeyLayout<Idx, Gen> for Packed<
    R,
    GEN_BITS,
> {
    type Repr = PackedRepr<R>;

    open spec fn layout_ok() -> bool {
        packed_fits::<Idx, Gen, R>(GEN_BITS as nat)
    }

    open spec fn spec_max_idx() -> nat {
        (pow2((R::spec_bits() - GEN_BITS) as nat) - 1) as nat
    }

    open spec fn spec_max_generation() -> nat {
        (pow2(GEN_BITS as nat) - 1) as nat
    }

    closed spec fn repr_idx(repr: Self::Repr) -> nat {
        repr.0.as_nat() / pow2(GEN_BITS as nat)
    }

    closed spec fn repr_generation(repr: Self::Repr) -> nat {
        repr.0.as_nat() % pow2(GEN_BITS as nat)
    }

    closed spec fn repr_wf(repr: Self::Repr) -> bool {
        repr.0.as_nat() % pow2(GEN_BITS as nat) % 2 == 1
    }

    proof fn lemma_limits() {
        Idx::lemma_limits();
        Gen::lemma_limits();
        R::lemma_limits();
        let g = GEN_BITS as nat;
        let b = R::spec_bits();
        lemma_pow2_pos(g);
        lemma_pow2_pos((b - g) as nat);
        lemma_pow2_le((b - g) as nat, Idx::spec_bits());
        lemma_pow2_le(g, Gen::spec_bits());
        vstd::arithmetic::power2::lemma_pow2_unfold(g);
        assert(pow2(g) % 2 == 0);
    }

    proof fn lemma_repr_parts(repr: Self::Repr) {
        R::lemma_limits();
        R::lemma_in_range(repr.0);
        let g = GEN_BITS as nat;
        let b = R::spec_bits();
        lemma_pow2_pos(g);
        lemma_quotient_bound(repr.0.as_nat(), b, g);
    }

    proof fn lemma_repr_unique(a: Self::Repr, b: Self::Repr) {
        let m = pow2(GEN_BITS as nat);
        lemma_pow2_pos(GEN_BITS as nat);
        lemma_fundamental_div_mod(a.0.as_nat() as int, m as int);
        lemma_fundamental_div_mod(b.0.as_nat() as int, m as int);
        R::lemma_injective(a.0, b.0);
    }

    fn max_idx() -> (r: Idx) {
        proof {
            <Self as KeyLayout<Idx, Gen>>::lemma_limits();
            R::lemma_limits();
        }
        Idx::from_u128_unchecked(low_bits(R::BITS - GEN_BITS))
    }

    fn max_generation() -> (r: Odd<Gen>) {
        proof {
            <Self as KeyLayout<Idx, Gen>>::lemma_limits();
            R::lemma_limits();
        }
        Odd::new_unchecked(Gen::from_u128_unchecked(low_bits(GEN_BITS)))
    }

    fn pack_unchecked(idx: Idx, generation: Odd<Gen>) -> (r: Self::Repr) {
        proof {
            <Self as KeyLayout<Idx, Gen>>::lemma_limits();
            R::lemma_limits();
        }
        let g = generation.get();
        let m: u128 = low_bits(GEN_BITS) + 1;
        let i = idx.into_u128();
        let gv = g.into_u128();
        proof {
            lemma_pow2_pos((R::spec_bits() - GEN_BITS) as nat);
            lemma_pow2_pos(GEN_BITS as nat);
            lemma_packed_fits(i as nat, gv as nat, R::spec_bits(), GEN_BITS as nat);
            lemma_split_number(i as nat, gv as nat, m as nat);
        }
        let bits = i * m + gv;
        PackedRepr(R::from_u128_unchecked(bits))
    }

    fn idx(repr: Self::Repr) -> (r: Idx) {
        proof {
            <Self as KeyLayout<Idx, Gen>>::lemma_limits();
            <Self as KeyLayout<Idx, Gen>>::lemma_repr_parts(repr);
            R::lemma_limits();
        }
        let m: u128 = low_bits(GEN_BITS) + 1;
        Idx::from_u128_unchecked(repr.0.into_u128() / m)
    }

    fn generation(repr: Self::Repr) -> (r: Odd<Gen>) {
        proof {
            <Self as KeyLayout<Idx, Gen>>::lemma_limits();
            <Self as KeyLayout<Idx, Gen>>::lemma_repr_parts(repr);
            R::lemma_limits();
        }
        let m: u128 = low_bits(GEN_BITS) + 1;
        Odd::new_unchecked(Gen::from_u128_unchecked(repr.0.into_u128() % m))
    }
}

} // verus!
