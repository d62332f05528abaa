use crate::key_layout::{KeyLayout, Split};
use crate::key_piece::KeyPiece;
use crate::slot::Slot;
use crate::storage::SlotStorage;
use vstd::prelude::*;

verus! {

/// Chooses the index and generation types of a [`Key`](crate::Key), and how
/// the key stores the two.
pub trait KeyConfig {
    /// The integer type that represents the index of a slot.
    type Idx: KeyPiece;

    /// The integer type that represents the generation of a slot.
    type Gen: KeyPiece;

    /// How a key stores its index and generation. [`Split`] keeps them as
    /// two fields and [`Packed`](crate::Packed) puts them in the bits of one
    /// integer.
    type Layout: KeyLayout<Self::Idx, Self::Gen>;
}

/// The layout of `K`'s keys has bit counts that add up, which is always the
/// case for [`Split`].
pub open spec fn key_config_ok<K: KeyConfig>() -> bool {
    <K::Layout as KeyLayout<K::Idx, K::Gen>>::layout_ok()
}

/// The largest index a key of `K` can hold.
pub open spec fn key_max_idx<K: KeyConfig>() -> nat {
    <K::Layout as KeyLayout<K::Idx, K::Gen>>::spec_max_idx()
}

/// The largest generation a key of `K` can hold.
pub open spec fn key_max_generation<K: KeyConfig>() -> nat {
    <K::Layout as KeyLayout<K::Idx, K::Gen>>::spec_max_generation()
}

/// The [`Slot`] a map whose keys use the key config `K` keeps each value
/// `T` in. While a slot is free, its `U` names the next free slot.
pub type MapSlot<T, K> = Slot<<K as KeyConfig>::Gen, T, Option<<K as KeyConfig>::Idx>>;

/// Chooses the key config of a [`GenMap<T, _>`](crate::GenMap), the storage
/// its slots live in, and what happens when a slot's generation runs out.
///
/// A config is implemented for the value types it supports, usually all of
/// them at once with a blanket impl over `T`. The impl can put bounds on
/// `T`, and the key config can depend on it.
pub trait MapConfig<T> {
    /// The config of the keys the map hands out. Maps whose configs name the
    /// same key config share a key type.
    type KeyConfig: KeyConfig;

    /// The collection the map keeps its slots in.
    type Storage: SlotStorage<MapSlot<T, Self::KeyConfig>>;

    /// What happens when a slot's generation runs out, meaning it reaches
    /// the largest one its key can hold.
    ///
    /// `false` retires the slot. It is never used again, so no stale key can
    /// ever match a new value.
    ///
    /// `true` wraps the generation back to zero and keeps using the slot. A
    /// stale key from before the wrap can then match a new value.
    const WRAP_ON_OVERFLOW: bool = false;
}

/// What a [`GenMap<T, C>`](crate::GenMap) needs from its config `C`. It is
/// implemented for every [`MapConfig<T>`], so a config never implements it
/// by hand, and it is the bound to use in code that is generic over maps.
pub trait MapConfigFor<T>: MapConfig<T> {
}

impl<T, C: MapConfig<T>> MapConfigFor<T> for C {
}

/// The key config a [`Key`](crate::Key) uses when none is named.
///
/// Keys are a `u32` index and a `u32` generation stored as two fields.
#[derive(Debug, Clone, Copy, Default, PartialEq, Eq, PartialOrd, Ord, Hash)]
pub struct DefaultKeyConfig;

impl KeyConfig for DefaultKeyConfig {
    type Idx = u32;
    type Gen = u32;
    type Layout = Split;
}

/// The config a [`GenMap`](crate::GenMap) uses when none is named.
///
/// Keys use the [`DefaultKeyConfig`], slots live in a `Vec`, and slots
/// retire when their generation runs out.
#[derive(Debug, Clone, Copy, Default, PartialEq, Eq, PartialOrd, Ord, Hash)]
pub struct DefaultMapConfig;

impl<T> MapConfig<T> for DefaultMapConfig {
    type KeyConfig = DefaultKeyConfig;
    type Storage = Vec<MapSlot<T, DefaultKeyConfig>>;
}

} // verus!
