use vstd::prelude::*;

verus! {

/// The number of values a piece of `bits` bits can take, `2^bits`.
pub open spec fn piece_range(bits: nat) -> nat {
    vstd::arithmetic::power2::pow2(bits)
}

/// An unsigned integer that can be the index or the generation of a
/// [`Key`](crate::Key). Implemented for `u8`, `u16`, `u32`, `u64`, `u128`
/// and `usize`.
///
/// Every method is specified over [`as_nat`](Self::as_nat), the value of the
/// integer as a natural number, and behaves exactly like the standard
/// unsigned integers do.
pub trait KeyPiece: Copy + Eq + Ord + core::hash::Hash + core::fmt::Debug + Sized {
    /// The value as a natural number.
    spec fn as_nat(self) -> nat;

    /// The number of bits of the type.
    spec fn spec_bits() -> nat;

    /// The largest value, `2^bits - 1`.
    spec fn spec_max() -> nat;

    /// The value zero.
    const ZERO: Self;

    /// The value one.
    const ONE: Self;

    /// The largest value.
    const MAX: Self;

    /// The number of bits.
    const BITS: u32;

    /// The constants agree with their specifications, the largest value is
    /// `2^bits - 1` (so it is odd), and every value lies between zero and the
    /// largest one.
    proof fn lemma_limits()
        ensures
            Self::ZERO.as_nat() == 0,
            Self::ONE.as_nat() == 1,
            Self::MAX.as_nat() == Self::spec_max(),
            Self::BITS as nat == Self::spec_bits(),
            8 <= Self::spec_bits() <= 128,
            Self::spec_max() + 1 == piece_range(Self::spec_bits()),
            Self::spec_max() <= u128::MAX,
    ;

    /// Every value lies between zero and the largest one.
    proof fn lemma_in_range(v: Self)
        ensures
            v.as_nat() <= Self::spec_max(),
    ;

    /// Two values with the same number are the same value.
    proof fn lemma_injective(a: Self, b: Self)
        ensures
            a.as_nat() == b.as_nat() ==> a == b,
    ;

    /// The value zero.
    fn zero() -> (r: Self)
        ensures
            r.as_nat() == 0,
    ;

    /// The value one.
    fn one() -> (r: Self)
        ensures
            r.as_nat() == 1,
    ;

    /// The largest value.
    fn max_value() -> (r: Self)
        ensures
            r.as_nat() == Self::spec_max(),
    ;

    /// Returns `true` if the two values are equal.
    fn is_equal(self, other: Self) -> (r: bool)
        ensures
            r == (self.as_nat() == other.as_nat()),
    ;

    /// Returns `true` if `self` is at most `other`.
    fn is_at_most(self, other: Self) -> (r: bool)
        ensures
            r == (self.as_nat() <= other.as_nat()),
    ;

    /// Returns `self + rhs`, or `None` if the sum does not fit in this type.
    fn checked_add(self, rhs: Self) -> (r: Option<Self>)
        ensures
            r is Some <==> self.as_nat() + rhs.as_nat() <= Self::spec_max(),
            r is Some ==> r->0.as_nat() == self.as_nat() + rhs.as_nat(),
    ;

    /// Returns `self + rhs`, wrapping around at the largest value of this
    /// type.
    fn wrapping_add(self, rhs: Self) -> (r: Self)
        ensures
            r.as_nat() == (if self.as_nat() + rhs.as_nat() > Self::spec_max() {
                self.as_nat() + rhs.as_nat() - (Self::spec_max() + 1)
            } else {
                self.as_nat() + rhs.as_nat() + 0int
            }),
    ;

    /// Returns `self - rhs`, wrapping around below zero to the largest value
    /// of this type.
    fn wrapping_sub(self, rhs: Self) -> (r: Self)
        ensures
            r.as_nat() == (if self.as_nat() < rhs.as_nat() {
                self.as_nat() + (Self::spec_max() + 1) - rhs.as_nat()
            } else {
                self.as_nat() - rhs.as_nat()
            }),
    ;

    /// Returns `true` if the lowest bit is set.
    fn is_odd(self) -> (r: bool)
        ensures
            r == (self.as_nat() % 2 == 1),
    ;

    /// Converts the value to a `usize`, or returns `None` if it does not fit.
    fn into_usize(self) -> (r: Option<usize>)
        ensures
            r is Some <==> self.as_nat() <= usize::MAX,
            r is Some ==> r->0 as nat == self.as_nat(),
    ;

    /// [`into_usize`](Self::into_usize) for a value that is known to fit.
    fn into_usize_unchecked(self) -> (r: usize)
        requires
            self.as_nat() <= usize::MAX,
        ensures
            r as nat == self.as_nat(),
    ;

    /// Converts a `usize` to this type, or returns `None` if it does not fit.
    fn from_usize(v: usize) -> (r: Option<Self>)
        ensures
            r is Some <==> v as nat <= Self::spec_max(),
            r is Some ==> r->0.as_nat() == v as nat,
    ;

    /// [`from_usize`](Self::from_usize) for a value that is known to fit.
    fn from_usize_unchecked(v: usize) -> (r: Self)
        requires
            v as nat <= Self::spec_max(),
        ensures
            r.as_nat() == v as nat,
    ;

    /// Converts the value to a `u128`, which every value fits in.
    fn into_u128(self) -> (r: u128)
        ensures
            r as nat == self.as_nat(),
    ;

    /// Converts a `u128` to this type, or returns `None` if it does not fit.
    fn from_u128(v: u128) -> (r: Option<Self>)
        ensures
            r is Some <==> v as nat <= Self::spec_max(),
            r is Some ==> r->0.as_nat() == v as nat,
    ;

    /// [`from_u128`](Self::from_u128) for a value that is known to fit.
    fn from_u128_unchecked(v: u128) -> (r: Self)
        requires
            v as nat <= Self::spec_max(),
        ensures
            r.as_nat() == v as nat,
    ;
}

impl KeyPiece for u8 {
    open spec fn as_nat(self) -> nat {
        self as nat
    }

    open spec fn spec_bits() -> nat {
        8
    }

    open spec fn spec_max() -> nat {
        u8::MAX as nat
    }

    const ZERO: Self = 0;

    const ONE: Self = 1;

    const MAX: Self = u8::MAX;

    const BITS: u32 = u8::BITS;

    proof fn lemma_limits() {
        vstd::arithmetic::power2::lemma2_to64();
        assert(Self::ZERO.as_nat() == 0 && Self::ONE.as_nat() == 1);
        assert(<Self as KeyPiece>::MAX.as_nat() == Self::spec_max());
        assert(<Self as KeyPiece>::BITS as nat == Self::spec_bits());
    }

    proof fn lemma_in_range(v: Self) {
    }

    proof fn lemma_injective(a: Self, b: Self) {
    }

    fn zero() -> (r: Self) {
        0
    }

    fn one() -> (r: Self) {
        1
    }

    fn max_value() -> (r: Self) {
        u8::MAX
    }

    fn is_equal(self, other: Self) -> (r: bool) {
        self == other
    }

    fn is_at_most(self, other: Self) -> (r: bool) {
        self <= other
    }

    fn checked_add(self, rhs: Self) -> (r: Option<Self>) {
        if rhs <= u8::MAX - self {
            Some(self + rhs)
        } else {
            None
        }
    }

    fn wrapping_add(self, rhs: Self) -> (r: Self) {
        if rhs <= u8::MAX - self {
            self + rhs
        } else {
            rhs - (u8::MAX - self) - 1
        }
    }

    fn wrapping_sub(self, rhs: Self) -> (r: Self) {
        if self < rhs {
            u8::MAX - (rhs - self) + 1
        } else {
            self - rhs
        }
    }

    fn is_odd(self) -> (r: bool) {
        self % 2 == 1
    }

    fn into_usize(self) -> (r: Option<usize>) {
        Some(self as usize)
    }

    fn into_usize_unchecked(self) -> (r: usize) {
        self as usize
    }

    fn from_usize(v: usize) -> (r: Option<Self>) {
        if v <= u8::MAX as usize {
            Some(v as u8)
        } else {
            None
        }
    }

    fn from_usize_unchecked(v: usize) -> (r: Self) {
        v as u8
    }

    fn into_u128(self) -> (r: u128) {
        self as u128
    }

    fn from_u128(v: u128) -> (r: Option<Self>) {
        if v <= u8::MAX as u128 {
            Some(v as u8)
        } else {
            None
        }
    }

    fn from_u128_unchecked(v: u128) -> (r: Self) {
        v as u8
    }
}

impl KeyPiece for u16 {
    open spec fn as_nat(self) -> nat {
        self as nat
    }

    open spec fn spec_bits() -> nat {
        16
    }

    open spec fn spec_max() -> nat {
        u16::MAX as nat
    }

    const ZERO: Self = 0;

    const ONE: Self = 1;

    const MAX: Self = u16::MAX;

    const BITS: u32 = u16::BITS;

    proof fn lemma_limits() {
        vstd::arithmetic::power2::lemma2_to64();
        assert(Self::ZERO.as_nat() == 0 && Self::ONE.as_nat() == 1);
        assert(<Self as KeyPiece>::MAX.as_nat() == Self::spec_max());
        assert(<Self as KeyPiece>::BITS as nat == Self::spec_bits());
    }

    proof fn lemma_in_range(v: Self) {
    }

    proof fn lemma_injective(a: Self, b: Self) {
    }

    fn zero() -> (r: Self) {
        0
    }

    fn one() -> (r: Self) {
        1
    }

    fn max_value() -> (r: Self) {
        u16::MAX
    }

    fn is_equal(self, other: Self) -> (r: bool) {
        self == other
    }

    fn is_at_most(self, other: Self) -> (r: bool) {
        self <= other
    }

    fn checked_add(self, rhs: Self) -> (r: Option<Self>) {
        if rhs <= u16::MAX - self {
            Some(self + rhs)
        } else {
            None
        }
    }

    fn wrapping_add(self, rhs: Self) -> (r: Self) {
        if rhs <= u16::MAX - self {
            self + rhs
        } else {
            rhs - (u16::MAX - self) - 1
        }
    }

    fn wrapping_sub(self, rhs: Self) -> (r: Self) {
        if self < rhs {
            u16::MAX - (rhs - self) + 1
        } else {
            self - rhs
        }
    }

    fn is_odd(self) -> (r: bool) {
        self % 2 == 1
    }

    fn into_usize(self) -> (r: Option<usize>) {
        Some(self as usize)
    }

    fn into_usize_unchecked(self) -> (r: usize) {
        self as usize
    }

    fn from_usize(v: usize) -> (r: Option<Self>) {
        if v <= u16::MAX as usize {
            Some(v as u16)
        } else {
            None
        }
    }

    fn from_usize_unchecked(v: usize) -> (r: Self) {
        v as u16
    }

    fn into_u128(self) -> (r: u128) {
        self as u128
    }

    fn from_u128(v: u128) -> (r: Option<Self>) {
        if v <= u16::MAX as u128 {
            Some(v as u16)
        } else {
            None
        }
    }

    fn from_u128_unchecked(v: u128) -> (r: Self) {
        v as u16
    }
}

impl KeyPiece for u32 {
    open spec fn as_nat(self) -> nat {
        self as nat
    }

    open spec fn spec_bits() -> nat {
        32
    }

    open spec fn spec_max() -> nat {
        u32::MAX as nat
    }

    const ZERO: Self = 0;

    const ONE: Self = 1;

    const MAX: Self = u32::MAX;

    const BITS: u32 = u32::BITS;

    proof fn lemma_limits() {
        vstd::arithmetic::power2::lemma2_to64();
        assert(Self::ZERO.as_nat() == 0 && Self::ONE.as_nat() == 1);
        assert(<Self as KeyPiece>::MAX.as_nat() == Self::spec_max());
        assert(<Self as KeyPiece>::BITS as nat == Self::spec_bits());
    }

    proof fn lemma_in_range(v: Self) {
    }

    proof fn lemma_injective(a: Self, b: Self) {
    }

    fn zero() -> (r: Self) {
        0
    }

    fn one() -> (r: Self) {
        1
    }

    fn max_value() -> (r: Self) {
        u32::MAX
    }

    fn is_equal(self, other: Self) -> (r: bool) {
        self == other
    }

    fn is_at_most(self, other: Self) -> (r: bool) {
        self <= other
    }

    fn checked_add(self, rhs: Self) -> (r: Option<Self>) {
        if rhs <= u32::MAX - self {
            Some(self + rhs)
        } else {
            None
        }
    }

    fn wrapping_add(self, rhs: Self) -> (r: Self) {
        if rhs <= u32::MAX - self {
            self + rhs
        } else {
            rhs - (u32::MAX - self) - 1
        }
    }

    fn wrapping_sub(self, rhs: Self) -> (r: Self) {
        if self < rhs {
            u32::MAX - (rhs - self) + 1
        } else {
            self - rhs
        }
    }

    fn is_odd(self) -> (r: bool) {
        self % 2 == 1
    }

    fn into_usize(self) -> (r: Option<usize>) {
        Some(self as usize)
    }

    fn into_usize_unchecked(self) -> (r: usize) {
        self as usize
    }

    fn from_usize(v: usize) -> (r: Option<Self>) {
        if v <= u32::MAX as usize {
            Some(v as u32)
        } else {
            None
        }
    }

    fn from_usize_unchecked(v: usize) -> (r: Self) {
        v as u32
    }

    fn into_u128(self) -> (r: u128) {
        self as u128
    }

    fn from_u128(v: u128) -> (r: Option<Self>) {
        if v <= u32::MAX as u128 {
            Some(v as u32)
        } else {
            None
        }
    }

    fn from_u128_unchecked(v: u128) -> (r: Self) {
        v as u32
    }
}

impl KeyPiece for u64 {
    open spec fn as_nat(self) -> nat {
        self as nat
    }

    open spec fn spec_bits() -> nat {
        64
    }

    open spec fn spec_max() -> nat {
        u64::MAX as nat
    }

    const ZERO: Self = 0;

    const ONE: Self = 1;

    const MAX: Self = u64::MAX;

    const BITS: u32 = u64::BITS;

    proof fn lemma_limits() {
        vstd::arithmetic::power2::lemma2_to64();
        assert(Self::ZERO.as_nat() == 0 && Self::ONE.as_nat() == 1);
        assert(<Self as KeyPiece>::MAX.as_nat() == Self::spec_max());
        assert(<Self as KeyPiece>::BITS as nat == Self::spec_bits());
    }

    proof fn lemma_in_range(v: Self) {
    }

    proof fn lemma_injective(a: Self, b: Self) {
    }

    fn zero() -> (r: Self) {
        0
    }

    fn one() -> (r: Self) {
        1
    }

    fn max_value() -> (r: Self) {
        u64::MAX
    }

    fn is_equal(self, other: Self) -> (r: bool) {
        self == other
    }

    fn is_at_most(self, other: Self) -> (r: bool) {
        self <= other
    }

    fn checked_add(self, rhs: Self) -> (r: Option<Self>) {
        if rhs <= u64::MAX - self {
            Some(self + rhs)
        } else {
            None
        }
    }

    fn wrapping_add(self, rhs: Self) -> (r: Self) {
        if rhs <= u64::MAX - self {
            self + rhs
        } else {
            rhs - (u64::MAX - self) - 1
        }
    }

    fn wrapping_sub(self, rhs: Self) -> (r: Self) {
        if self < rhs {
            u64::MAX - (rhs - self) + 1
        } else {
            self - rhs
        }
    }

    fn is_odd(self) -> (r: bool) {
        self % 2 == 1
    }

    fn into_usize(self) -> (r: Option<usize>) {
        if self <= usize::MAX as u64 {
            Some(self as usize)
        } else {
            None
        }
    }

    fn into_usize_unchecked(self) -> (r: usize) {
        self as usize
    }

    fn from_usize(v: usize) -> (r: Option<Self>) {
        Some(v as u64)
    }

    fn from_usize_unchecked(v: usize) -> (r: Self) {
        v as u64
    }

    fn into_u128(self) -> (r: u128) {
        self as u128
    }

    fn from_u128(v: u128) -> (r: Option<Self>) {
        if v <= u64::MAX as u128 {
            Some(v as u64)
        } else {
            None
        }
    }

    fn from_u128_unchecked(v: u128) -> (r: Self) {
        v as u64
    }
}

impl KeyPiece for u128 {
    open spec fn as_nat(self) -> nat {
        self as nat
    }

    open spec fn spec_bits() -> nat {
        128
    }

    open spec fn spec_max() -> nat {
        u128::MAX as nat
    }

    const ZERO: Self = 0;

    const ONE: Self = 1;

    const MAX: Self = u128::MAX;

    const BITS: u32 = u128::BITS;

    proof fn lemma_limits() {
        assert(vstd::arithmetic::power2::pow2(128) == 0x1_0000_0000_0000_0000_0000_0000_0000_0000) by {
            vstd::arithmetic::power2::lemma2_to64();
            vstd::arithmetic::power2::lemma_pow2_adds(64, 64);
        }
        assert(Self::ZERO.as_nat() == 0 && Self::ONE.as_nat() == 1);
        assert(<Self as KeyPiece>::MAX.as_nat() == Self::spec_max());
        assert(<Self as KeyPiece>::BITS as nat == Self::spec_bits());
    }

    proof fn lemma_in_range(v: Self) {
    }

    proof fn lemma_injective(a: Self, b: Self) {
    }

    fn zero() -> (r: Self) {
        0
    }

    fn one() -> (r: Self) {
        1
    }

    fn max_value() -> (r: Self) {
        u128::MAX
    }

    fn is_equal(self, other: Self) -> (r: bool) {
        self == other
    }

    fn is_at_most(self, other: Self) -> (r: bool) {
        self <= other
    }

    fn checked_add(self, rhs: Self) -> (r: Option<Self>) {
        if rhs <= u128::MAX - self {
            Some(self + rhs)
        } else {
            None
        }
    }

    fn wrapping_add(self, rhs: Self) -> (r: Self) {
        if rhs <= u128::MAX - self {
            self + rhs
        } else {
            rhs - (u128::MAX - self) - 1
        }
    }

    fn wrapping_sub(self, rhs: Self) -> (r: Self) {
        if self < rhs {
            u128::MAX - (rhs - self) + 1
        } else {
            self - rhs
        }
    }

    fn is_odd(self) -> (r: bool) {
        self % 2 == 1
    }

    fn into_usize(self) -> (r: Option<usize>) {
        if self <= usize::MAX as u128 {
            Some(self as usize)
        } else {
            None
        }
    }

    fn into_usize_unchecked(self) -> (r: usize) {
        self as usize
    }

    fn from_usize(v: usize) -> (r: Option<Self>) {
        Some(v as u128)
    }

    fn from_usize_unchecked(v: usize) -> (r: Self) {
        v as u128
    }

    fn into_u128(self) -> (r: u128) {
        self as u128
    }

    fn from_u128(v: u128) -> (r: Option<Self>) {
        if v <= u128::MAX as u128 {
            Some(v as u128)
        } else {
            None
        }
    }

    fn from_u128_unchecked(v: u128) -> (r: Self) {
        v as u128
    }
}

impl KeyPiece for usize {
    open spec fn as_nat(self) -> nat {
        self as nat
    }

    open spec fn spec_bits() -> nat {
        usize::BITS as nat
    }

    open spec fn spec_max() -> nat {
        usize::MAX as nat
    }

    const ZERO: Self = 0;

    const ONE: Self = 1;

    const MAX: Self = usize::MAX;

    const BITS: u32 = usize::BITS;

    proof fn lemma_limits() {
        vstd::arithmetic::power2::lemma2_to64();
        assert(Self::ZERO.as_nat() == 0 && Self::ONE.as_nat() == 1);
        assert(<Self as KeyPiece>::MAX.as_nat() == Self::spec_max());
        assert(<Self as KeyPiece>::BITS as nat == Self::spec_bits());
    }

    proof fn lemma_in_range(v: Self) {
    }

    proof fn lemma_injective(a: Self, b: Self) {
    }

    fn zero() -> (r: Self) {
        0
    }

    fn one() -> (r: Self) {
        1
    }

    fn max_value() -> (r: Self) {
        usize::MAX
    }

    fn is_equal(self, other: Self) -> (r: bool) {
        self == other
    }

    fn is_at_most(self, other: Self) -> (r: bool) {
        self <= other
    }

    fn checked_add(self, rhs: Self) -> (r: Option<Self>) {
        if rhs <= usize::MAX - self {
            Some(self + rhs)
        } else {
            None
        }
    }

    fn wrapping_add(self, rhs: Self) -> (r: Self) {
        if rhs <= usize::MAX - self {
            self + rhs
        } else {
            rhs - (usize::MAX - self) - 1
        }
    }

    fn wrapping_sub(self, rhs: Self) -> (r: Self) {
        if self < rhs {
            usize::MAX - (rhs - self) + 1
        } else {
            self - rhs
        }
    }

    fn is_odd(self) -> (r: bool) {
        self % 2 == 1
    }

    fn into_usize(self) -> (r: Option<usize>) {
        Some(self as usize)
    }

    fn into_usize_unchecked(self) -> (r: usize) {
        self as usize
    }

    fn from_usize(v: usize) -> (r: Option<Self>) {
        Some(v as usize)
    }

    fn from_usize_unchecked(v: usize) -> (r: Self) {
        v as usize
    }

    fn into_u128(self) -> (r: u128) {
        self as u128
    }

    fn from_u128(v: u128) -> (r: Option<Self>) {
        if v <= usize::MAX as u128 {
            Some(v as usize)
        } else {
            None
        }
    }

    fn from_u128_unchecked(v: u128) -> (r: Self) {
        v as usize
    }
}

} // verus!
