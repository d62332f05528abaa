use gen_map::GenMap;
use std::cell::RefCell;
use std::collections::HashMap;
use std::rc::Rc;
use std::vec::Vec;

/// Hands out numbered items and records how many times each one has been
/// dropped. A second drop of the same item panics on the spot.
#[derive(Clone)]
struct DropTracker {
    state: Rc<RefCell<TrackerState>>,
}

struct TrackerState {
    drops: HashMap<u32, u32>,
    next_id: u32,
}

#[allow(dead_code)]
impl DropTracker {
    fn new() -> Self {
        Self {
            state: Rc::new(RefCell::new(TrackerState {
                drops: HashMap::new(),
                next_id: 0,
            })),
        }
    }

    fn make_item(&self) -> DropItem {
        let mut state = self.state.borrow_mut();
        let id = state.next_id;
        state.next_id += 1;
        DropItem {
            id,
            state: self.state.clone(),
        }
    }

    fn total_dropped(&self) -> usize {
        self.state.borrow().drops.len()
    }

    fn total_made(&self) -> u32 {
        self.state.borrow().next_id
    }

    fn assert_all_dropped_exactly_once(&self, n: u32) {
        let state = self.state.borrow();
        for id in 0..n {
            let count = state.drops.get(&id).copied().unwrap_or(0);
            assert_eq!(count, 1, "item {id} was dropped {count} times");
        }
        assert_eq!(state.drops.len(), n as usize);
    }

    fn assert_none_dropped(&self) {
        let dropped = self.total_dropped();
        assert_eq!(dropped, 0, "expected no drops, but {dropped} items were dropped");
    }
}

struct DropItem {
    id: u32,
    state: Rc<RefCell<TrackerState>>,
}

impl Clone for DropItem {
    fn clone(&self) -> Self {
        let mut state = self.state.borrow_mut();
        let id = state.next_id;
        state.next_id += 1;
        DropItem {
            id,
            state: self.state.clone(),
        }
    }
}

impl Drop for DropItem {
    fn drop(&mut self) {
        let mut state = self.state.borrow_mut();
        let count = state.drops.entry(self.id).or_insert(0);
        *count += 1;
        assert!(*count <= 1, "item {} was dropped {} times", self.id, *count);
    }
}

#[test]
fn retain_can_keep_everything_and_mutate() {
    let mut map = GenMap::new();
    let k1 = map.insert(10);
    let k2 = map.insert(20);

    map.retain(|_, v| {
        *v += 1;
        true
    });

    assert_eq!(*map.get(k1).unwrap(), 11);
    assert_eq!(*map.get(k2).unwrap(), 21);
    assert_eq!(map.len(), 2);
}

#[test]
fn retain_removes_rejected_values() {
    let mut map = GenMap::new();
    let k1 = map.insert(1);
    let k2 = map.insert(2);
    let k3 = map.insert(3);

    map.retain(|_, v| *v % 2 == 0);

    assert!(map.get(k1).is_none());
    assert!(map.get(k3).is_none());
    assert_eq!(*map.get(k2).unwrap(), 2);
    assert_eq!(map.len(), 1);
}

#[test]
fn retain_passes_the_right_key() {
    let mut map = GenMap::new();
    let k1 = map.insert("a");
    let k2 = map.insert("b");

    map.retain(|key, v| {
        if key == k1 {
            assert_eq!(*v, "a");
        } else {
            assert_eq!(key, k2);
            assert_eq!(*v, "b");
        }
        key != k1
    });

    assert!(map.get(k1).is_none());
    assert_eq!(*map.get(k2).unwrap(), "b");
}

#[test]
fn retain_frees_slots_for_reuse_with_bumped_generation() {
    let mut map = GenMap::new();
    let k1 = map.insert(42);

    map.retain(|key, _| key != k1);
    assert_eq!(map.len(), 0);

    let k2 = map.insert(99);
    assert_eq!(k2.idx(), k1.idx());
    assert_ne!(k2.generation(), k1.generation());
    assert_eq!(*map.get(k2).unwrap(), 99);
}

#[test]
fn retain_drops_removed_values_exactly_once() {
    let tracker = DropTracker::new();
    let mut map = GenMap::new();
    let keys: Vec<_> = (0..6).map(|_| map.insert(tracker.make_item())).collect();

    map.retain(|key, _| key != keys[1] && key != keys[4]);

    assert_eq!(tracker.total_dropped(), 2);
    assert_eq!(map.len(), 4);
    drop(map);
    tracker.assert_all_dropped_exactly_once(6);
}
