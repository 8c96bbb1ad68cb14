use specs_static::read_join;
use specs_static::RawStorage;
use specs_static::read_join2;
use specs_static::write_join;
use specs_static::DenseStorage;
use specs_static::Storage;

type U64Storage = Storage<u64, DenseStorage<u64>, u32>;

#[test]
fn read_join_visits_present_ids_in_ascending_order() {
    let mut s: U64Storage = Default::default();
    s.insert(8, 80);
    s.insert(2, 20);
    s.insert(5, 50);
    let seen: Vec<(u32, u64)> = read_join(&s).into_iter().map(|(i, c)| (i, *c)).collect();
    assert_eq!(seen, vec![(2, 20), (5, 50), (8, 80)]);
}

#[test]
fn read_join2_visits_exactly_the_intersection() {
    let mut a: U64Storage = Default::default();
    let mut b: U64Storage = Default::default();
    for i in [1u32, 2, 3] {
        a.insert(i, 10 * i as u64);
    }
    for i in [2u32, 3, 4] {
        b.insert(i, 100 * i as u64);
    }
    let seen: Vec<(u32, u64, u64)> = read_join2(&a, &b)
        .into_iter()
        .map(|(i, ca, cb)| (i, *ca, *cb))
        .collect();
    assert_eq!(seen, vec![(2, 20, 200), (3, 30, 300)]);
}

#[test]
fn read_join2_of_disjoint_storages_is_empty() {
    let mut a: U64Storage = Default::default();
    let mut b: U64Storage = Default::default();
    a.insert(1, 1);
    b.insert(2, 2);
    assert!(read_join2(&a, &b).is_empty());
}

#[test]
fn write_join_mutates_each_visited_slot_independently() {
    let mut s: U64Storage = Default::default();
    s.insert(1, 0);
    s.insert(2, 0);
    s.insert(3, 0);
    write_join(&mut s, |i: u32, _v: u64| 10 * i as u64);
    assert_eq!(s.get(1), Some(&10));
    assert_eq!(s.get(2), Some(&20));
    assert_eq!(s.get(3), Some(&30));
    assert_eq!(s.get(4), None);
}

#[test]
fn write_join_sees_the_old_value_of_each_slot() {
    let mut s: U64Storage = Default::default();
    s.insert(4, 7);
    s.insert(6, 9);
    write_join(&mut s, |_i: u32, v: u64| v + 1);
    assert_eq!(s.get(4), Some(&8));
    assert_eq!(s.get(6), Some(&10));
}

#[test]
fn open_exposes_the_backing_store_for_live_slots() {
    let mut s: U64Storage = Default::default();
    s.insert(2, 20);
    s.insert(7, 70);
    let (_mask, data) = s.open();
    assert_eq!(data.raw_get(2), &20);
    assert_eq!(data.raw_get(7), &70);
}

#[test]
fn grid_cells_counted_by_value_after_overrides() {
    // An 8x8 grid whose raw iteration helper stops one short of the last
    // cell: 63 identifiers, 0 through 62, all seeded with one value.
    let mut s: U64Storage = Default::default();
    for i in 0u32..63 {
        s.insert(i, 1);
    }
    // Four cells overridden with two other distinct values.
    s.insert(5, 2);
    s.insert(20, 2);
    s.insert(33, 3);
    s.insert(47, 3);
    let mut seed = 0;
    let mut first = 0;
    let mut second = 0;
    let joined = read_join(&s);
    assert_eq!(joined.len(), 63);
    for (_, v) in joined {
        match *v {
            1 => seed += 1,
            2 => first += 1,
            3 => second += 1,
            other => panic!("unexpected cell value {}", other),
        }
    }
    assert_eq!(seed, 59);
    assert_eq!(first, 2);
    assert_eq!(second, 2);
}
