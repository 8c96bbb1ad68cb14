use std::cell::RefCell;
use std::rc::Rc;

use specs_static::DenseStorage;
use specs_static::Storage;

/// A component that records, on destruction, which slot it was made for.
struct Probe {
    idx: u32,
    log: Rc<RefCell<Vec<u32>>>,
}

impl Drop for Probe {
    fn drop(&mut self) {
        self.log.borrow_mut().push(self.idx);
    }
}

fn probe_storage(
    indices: &[u32],
) -> (Storage<Probe, DenseStorage<Probe>, u32>, Rc<RefCell<Vec<u32>>>) {
    let log: Rc<RefCell<Vec<u32>>> = Rc::new(RefCell::new(Vec::new()));
    let mut s: Storage<Probe, DenseStorage<Probe>, u32> = Default::default();
    for &i in indices {
        s.insert(i, Probe { idx: i, log: Rc::clone(&log) });
    }
    (s, log)
}

#[test]
fn destruction_releases_exactly_the_live_slots() {
    let (s, log) = probe_storage(&[0, 5, 9]);
    assert!(log.borrow().is_empty());
    drop(s);
    let mut calls = log.borrow().clone();
    calls.sort();
    assert_eq!(calls, vec![0, 5, 9]);
}

#[test]
fn cleanup_releases_exactly_the_live_slots() {
    let (mut s, log) = probe_storage(&[0, 5, 9]);
    s.cleanup();
    let mut calls = log.borrow().clone();
    calls.sort();
    assert_eq!(calls, vec![0, 5, 9]);
    assert!(s.get(0).is_none());
    assert!(s.get(5).is_none());
    assert!(s.get(9).is_none());
    // Dropping the cleaned container releases nothing further.
    drop(s);
    assert_eq!(log.borrow().len(), 3);
}

#[test]
fn removed_slots_are_not_released_twice() {
    let (mut s, log) = probe_storage(&[1, 2]);
    let taken = s.remove(1);
    assert!(taken.is_some());
    drop(taken);
    assert_eq!(log.borrow().clone(), vec![1]);
    drop(s);
    let mut calls = log.borrow().clone();
    calls.sort();
    assert_eq!(calls, vec![1, 2]);
}
