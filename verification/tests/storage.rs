use specs_static::DenseStorage;
use specs_static::Id;
use specs_static::Storage;
use specs_static::MAX_INDEX;

type U64Storage = Storage<u64, DenseStorage<u64>, u32>;

#[test]
fn fresh_storage_is_empty() {
    let s: U64Storage = Default::default();
    assert_eq!(s.get(0), None);
    assert_eq!(s.get(7), None);
    assert_eq!(s.get(MAX_INDEX), None);
}

#[test]
fn id_round_trips_through_u32() {
    let id = <u32 as Id>::from_u32(7);
    assert_eq!(id, 7u32);
    assert_eq!(id.id(), 7);
    assert_eq!(<u32 as Id>::from_u32(0).id(), 0);
    assert_eq!(<u32 as Id>::from_u32(u32::MAX).id(), u32::MAX);
}

#[test]
fn insert_then_get_finds_the_value() {
    let mut s: U64Storage = Default::default();
    assert_eq!(s.insert(3, 10), None);
    assert_eq!(s.get(3), Some(&10));
    assert_eq!(s.get(2), None);
    assert_eq!(s.get(4), None);
}

#[test]
fn presence_follows_inserts_and_removes() {
    let mut s: U64Storage = Default::default();
    s.insert(1, 100);
    s.insert(2, 200);
    assert_eq!(s.get(1), Some(&100));
    s.remove(2);
    assert_eq!(s.get(1), Some(&100));
    assert_eq!(s.get(2), None);
    s.insert(2, 201);
    s.remove(1);
    assert_eq!(s.get(1), None);
    assert_eq!(s.get(2), Some(&201));
}

#[test]
fn second_insert_returns_first_value() {
    let mut s: U64Storage = Default::default();
    assert_eq!(s.insert(5, 1), None);
    assert_eq!(s.insert(5, 2), Some(1));
    assert_eq!(s.get(5), Some(&2));
}

#[test]
fn remove_of_absent_id_is_a_no_op() {
    let mut s: U64Storage = Default::default();
    s.insert(1, 10);
    s.insert(3, 30);
    assert_eq!(s.remove(2), None);
    assert_eq!(s.get(1), Some(&10));
    assert_eq!(s.get(2), None);
    assert_eq!(s.get(3), Some(&30));
}

#[test]
fn insert_remove_round_trip() {
    let mut s: U64Storage = Default::default();
    s.insert(9, 99);
    assert_eq!(s.remove(9), Some(99));
    assert_eq!(s.get(9), None);
    assert_eq!(s.remove(9), None);
}

#[test]
fn get_mut_writes_through() {
    let mut s: U64Storage = Default::default();
    s.insert(4, 40);
    assert_eq!(s.get_mut(5), None);
    if let Some(v) = s.get_mut(4) {
        *v = 41;
    } else {
        panic!("expected a value at 4");
    }
    assert_eq!(s.get(4), Some(&41));
}

#[test]
fn largest_index_is_usable() {
    let mut s: Storage<u8, DenseStorage<u8>, u32> = Default::default();
    s.insert(MAX_INDEX, 7);
    assert_eq!(s.get(MAX_INDEX), Some(&7));
    assert_eq!(s.get(MAX_INDEX - 1), None);
    assert_eq!(s.remove(MAX_INDEX), Some(7));
    assert_eq!(s.get(MAX_INDEX), None);
}

#[test]
fn storages_are_independent() {
    let mut a: U64Storage = Default::default();
    let mut b: Storage<bool, DenseStorage<bool>, u32> = Default::default();
    a.insert(1, 11);
    b.insert(2, true);
    assert_eq!(a.get(2), None);
    assert_eq!(b.get(1), None);
    assert_eq!(a.get(1), Some(&11));
    assert_eq!(b.get(2), Some(&true));
}
