# gen_map

A generational map, verified with Verus. Inserting a value returns a `Key`
(a slot index and an odd generation) that later reads, changes or removes
the value. Removing a value moves its slot's generation on, so the old key
never matches again, while the slot is reused for the next value.

Every operation's contract is stated over `GenMap::view`, the map from keys
(index and generation, as numbers) to values, together with the slots and
the free list the map keeps.

## Layout

- `src/key_piece.rs`: the integer types a key's index and generation use.
- `src/parity.rs`: odd and even generations and the steps between them.
- `src/key_layout.rs`: how a key stores its two parts (`Split`, `Packed`).
- `src/key.rs`, `src/config.rs`: keys and the key and map configs.
- `src/slot.rs`: a slot holding either a value (odd generation) or a free
  link (even generation).
- `src/storage.rs`: the storages slots live in (`Vec`, `ArrayStorage`,
  `SmallStorage`).
- `src/map.rs` and `src/map/`: the map itself, its iterators and the
  disjoint mutable lookups.
- `src/map_model.rs`: the spec-level model of slots and the free list.
- `src/laws.rs`: proof functions for the properties that span several
  operations (a read after a write, dead keys staying dead, reuse of freed
  slots, and so on).
- `tests/`: executable tests, run against the compiled library.
