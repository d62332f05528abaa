use crate::config::{key_config_ok, key_max_generation, key_max_idx, DefaultKeyConfig, KeyConfig};
use crate::key_layout::KeyLayout;
use crate::key_piece::KeyPiece;
use crate::parity::Odd;
use vstd::prelude::*;
use vstd::std_specs::cmp::PartialEqSpecImpl;
use vstd::string::StringExecFns;

verus! {

/// A key to a value in a [`GenMap`](crate::GenMap), returned by `insert`.
/// It holds the index of a slot and the odd generation the slot had when the
/// key was handed out. The key config's [`Layout`](KeyConfig::Layout) says
/// how the key stores the two.
///
/// Keys are ordered by index, then by generation, whatever the layout.
#[derive(Debug, PartialOrd, Ord, Hash)]
pub struct Key<K: KeyConfig = DefaultKeyConfig> {
    repr: <K::Layout as KeyLayout<K::Idx, K::Gen>>::Repr,
}

impl<K: KeyConfig> Key<K> {
    #[verifier::type_invariant]
    spec fn well_formed(self) -> bool {
        &&& key_config_ok::<K>()
        &&& <K::Layout as KeyLayout<K::Idx, K::Gen>>::repr_wf(self.repr)
    }

    /// The index of the slot this key refers to.
    pub closed spec fn spec_idx(self) -> nat {
        <K::Layout as KeyLayout<K::Idx, K::Gen>>::repr_idx(self.repr)
    }

    /// The generation of the slot this key has.
    pub closed spec fn spec_generation(self) -> nat {
        <K::Layout as KeyLayout<K::Idx, K::Gen>>::repr_generation(self.repr)
    }

    /// The representation the key stores.
    pub closed spec fn spec_repr(self) -> <K::Layout as KeyLayout<K::Idx, K::Gen>>::Repr {
        self.repr
    }

    /// Checks nothing at run time: it tells the verifier what every key
    /// satisfies. Its layout's bit counts add up, its parts fit the layout,
    /// and its generation is odd.
    pub(crate) fn lemma_parts(&self)
        ensures
            key_config_ok::<K>(),
            self.spec_idx() <= key_max_idx::<K>(),
            self.spec_generation() <= key_max_generation::<K>(),
            self.spec_generation() % 2 == 1,
            <K::Layout as KeyLayout<K::Idx, K::Gen>>::repr_wf(self.spec_repr()),
    {
        proof {
            use_type_invariant(self);
            <K::Layout as KeyLayout<K::Idx, K::Gen>>::lemma_repr_parts(self.repr);
        }
    }

    /// The index of the slot this key refers to.
    pub fn idx(&self) -> (r: K::Idx)
        ensures
            r.as_nat() == self.spec_idx(),
    {
        proof {
            use_type_invariant(self);
        }
        <K::Layout as KeyLayout<K::Idx, K::Gen>>::idx(self.repr)
    }

    /// The generation of the slot this key has.
    pub fn generation(&self) -> (r: Odd<K::Gen>)
        ensures
            r.value() == self.spec_generation(),
    {
        proof {
            use_type_invariant(self);
        }
        <K::Layout as KeyLayout<K::Idx, K::Gen>>::generation(self.repr)
    }

    /// Returns `true` if the key's generation is the largest one its layout
    /// can hold. While the key is valid, removing its value wraps or retires
    /// the slot, as the map's config says, and
    /// [`detach`](crate::GenMap::detach) refuses it.
    pub fn is_max_generation(&self) -> (r: bool)
        ensures
            r == (self.spec_generation() == key_max_generation::<K>()),
    {
        proof {
            use_type_invariant(self);
        }
        self.generation().get().is_equal(
            <K::Layout as KeyLayout<K::Idx, K::Gen>>::max_generation().get(),
        )
    }

    /// Builds a key from an index and a generation that both fit the layout.
    pub fn from_raw_parts(idx: K::Idx, generation: Odd<K::Gen>) -> (r: Self)
        requires
            key_config_ok::<K>(),
            idx.as_nat() <= key_max_idx::<K>(),
            generation.value() <= key_max_generation::<K>(),
        ensures
            r.spec_idx() == idx.as_nat(),
            r.spec_generation() == generation.value(),
    {
        Key { repr: <K::Layout as KeyLayout<K::Idx, K::Gen>>::pack_unchecked(idx, generation) }
    }

    /// The key written out with its index and generation as decimal
    /// numbers, `Key { idx: 3, generation: 5 }`, whatever the layout
    /// stores. It stands where a debug print of the key would.
    pub fn debug_text(&self) -> (r: String)
        ensures
            r@ == key_text(self.spec_idx(), self.spec_generation()),
    {
        let idx = decimal(self.idx().into_u128());
        let generation = decimal(self.generation().get().into_u128());
        let mut text = String::from_str("Key { idx: ");
        text.append(idx.as_str());
        text.append(", generation: ");
        text.append(generation.as_str());
        text.append(" }");
        text
    }
}

/// The text [`Key::debug_text`] gives for a key with this index and
/// generation.
pub open spec fn key_text(idx: nat, generation: nat) -> Seq<char> {
    "Key { idx: "@ + decimal_text(idx) + ", generation: "@ + decimal_text(generation) + " }"@
}

/// The character of the decimal digit `d`.
pub open spec fn digit_char(d: nat) -> char
    recommends
        d < 10,
{
    if d == 0 {
        '0'
    } else if d == 1 {
        '1'
    } else if d == 2 {
        '2'
    } else if d == 3 {
        '3'
    } else if d == 4 {
        '4'
    } else if d == 5 {
        '5'
    } else if d == 6 {
        '6'
    } else if d == 7 {
        '7'
    } else if d == 8 {
        '8'
    } else {
        '9'
    }
}

/// The decimal digits of `n`, most significant first, with no leading zero
/// (`0` is the one digit `'0'`).
pub open spec fn decimal_text(n: nat) -> Seq<char>
    decreases n,
{
    if n < 10 {
        seq![digit_char(n)]
    } else {
        decimal_text(n / 10).push(digit_char(n % 10))
    }
}

/// The one-character text of the decimal digit `d`.
fn digit_str(d: u128) -> (r: &'static str)
    requires
        d < 10,
    ensures
        r@ == seq![digit_char(d as nat)],
{
    if d == 0 {
        proof {
            reveal_strlit("0");
        }
        "0"
    } else if d == 1 {
        proof {
            reveal_strlit("1");
        }
        "1"
    } else if d == 2 {
        proof {
            reveal_strlit("2");
        }
        "2"
    } else if d == 3 {
        proof {
            reveal_strlit("3");
        }
        "3"
    } else if d == 4 {
        proof {
            reveal_strlit("4");
        }
        "4"
    } else if d == 5 {
        proof {
            reveal_strlit("5");
        }
        "5"
    } else if d == 6 {
        proof {
            reveal_strlit("6");
        }
        "6"
    } else if d == 7 {
        proof {
            reveal_strlit("7");
        }
        "7"
    } else if d == 8 {
        proof {
            reveal_strlit("8");
        }
        "8"
    } else {
        proof {
            reveal_strlit("9");
        }
        "9"
    }
}

/// `n` written in decimal.
fn decimal(n: u128) -> (r: String)
    ensures
        r@ == decimal_text(n as nat),
    decreases n,
{
    if n < 10 {
        String::from_str(digit_str(n))
    } else {
        let mut text = decimal(n / 10);
        text.append(digit_str(n % 10));
        text
    }
}

impl<K: KeyConfig> View for Key<K> {
    type V = (nat, nat);

    /// The index and the generation.
    open spec fn view(&self) -> (nat, nat) {
        (self.spec_idx(), self.spec_generation())
    }
}

impl<K: KeyConfig> Clone for Key<K> {
    fn clone(&self) -> (r: Self)
        ensures
            r == *self,
    {
        *self
    }
}

impl<K: KeyConfig> Copy for Key<K> {
}

impl<K: KeyConfig> PartialEq for Key<K> {
    fn eq(&self, other: &Self) -> (r: bool) {
        proof {
            use_type_invariant(self);
            use_type_invariant(other);
        }
        self.idx().is_equal(other.idx()) && self.generation().get().is_equal(
            other.generation().get(),
        )
    }
}

impl<K: KeyConfig> PartialEqSpecImpl for Key<K> {
    open spec fn obeys_eq_spec() -> bool {
        true
    }

    open spec fn eq_spec(&self, other: &Self) -> bool {
        self@ == other@
    }
}

impl<K: KeyConfig> Eq for Key<K> {
}

/// Two keys with the same index and generation are the same key.
pub proof fn lemma_key_view_unique<K: KeyConfig>(a: Key<K>, b: Key<K>)
    requires
        key_config_ok::<K>(),
        <K::Layout as KeyLayout<K::Idx, K::Gen>>::repr_wf(a.spec_repr()),
        <K::Layout as KeyLayout<K::Idx, K::Gen>>::repr_wf(b.spec_repr()),
        a@ == b@,
    ensures
        a == b,
{
    <K::Layout as KeyLayout<K::Idx, K::Gen>>::lemma_repr_unique(a.spec_repr(), b.spec_repr());
}

} // verus!
