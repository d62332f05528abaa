//! A generational map: inserting a value returns a [`Key`] that reads,
//! changes or removes the value later. Removing a value moves its slot's
//! generation on, so the old key never matches again, while the slot itself
//! is reused for the next value.
//!
//! A [`KeyConfig`] picks the key's index and generation types and how the
//! key stores them, and a [`MapConfig`] picks the key config, the storage
//! the slots live in, and what happens when a slot's generation runs out.
//!
//! Every operation is specified over [`GenMap::view`], the map from keys
//! (an index and a generation, as numbers) to values, together with the
//! slots and the free list the map keeps; the laws that hold across
//! operations are the `law_` proof functions.
mod config;
mod error;
mod key;
mod key_layout;
mod key_piece;
mod laws;
mod map;
mod map_model;
mod parity;
mod slot;
mod storage;

pub use config::{
    key_config_ok, key_max_generation, key_max_idx, DefaultKeyConfig, DefaultMapConfig, KeyConfig,
    MapConfig, MapConfigFor, MapSlot,
};
pub use error::{
    CustomOrInsertError, FullError, GetDisjointMutAtError, GetDisjointMutError, InsertError,
    InsertWithError, ReserveError,
};
pub use key::{decimal_text, digit_char, key_text, lemma_key_view_unique, Key};
pub use key_layout::{
    check_packed, low_bits, packed_fits, KeyLayout, Packed, PackedRepr, Split, SplitRepr,
};
pub use key_piece::{piece_range, KeyPiece};
pub use laws::{
    law_clear_kills, law_clone_keeps_dead, law_clone_keeps_keys, law_detach_keeps_dead, law_detach_then_reattach,
    law_entries_are_the_map, law_insert_keeps_dead, law_insert_then_get, law_len_at_most_slots, law_len_counts_keys,
    law_reattach_keeps_dead, law_remove_keeps_dead, law_remove_then_get, law_remove_then_insert,
    law_removed_key_is_dead, law_retain_keeps_dead, law_retire_kills, law_vec_storage_full_only_when_it_can_not_grow,
};
pub use map::{
    entry_key, entry_value, owned_entries, Cursor, Drain, GenMap, IntoIter, Iter, IterMut, Keys,
    MapGen, MapIdx, MapKeyConfig, StorageError, Target, VacantEntry, Values, ValuesMut,
};
pub use map_model::{count_values, free_list_ok, link_nat, value_count};
pub use parity::{after_odd, before_even, law_previous_undoes_next, Even, Odd};
pub use slot::{parity_generation, Parity, Slot, SlotItem};
pub use storage::{ArrayStorage, CapacityError, ReserveStorage, SlotStorage, SmallStorage};
