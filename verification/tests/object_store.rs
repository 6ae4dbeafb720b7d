use memmap2::MmapMut;
use photon::object_store::{InMemoryObjectStore, MmapObjectStore, ObjectId};

#[test]
fn put_get_round_trip() {
    let mut store = InMemoryObjectStore::new();
    let id = store.put(vec![1, 2, 3]).unwrap();
    assert_eq!(store.get(&id), Some(vec![1, 2, 3]));
}

#[test]
fn release_makes_get_return_none() {
    let mut store = InMemoryObjectStore::new();
    let id = store.put(vec![1, 2, 3]).unwrap();
    store.release(&id);
    assert_eq!(store.get(&id), None);
}

#[test]
fn different_payloads_get_different_ids() {
    let mut store = InMemoryObjectStore::new();
    let id1 = store.put(vec![1]).unwrap();
    let id2 = store.put(vec![2]).unwrap();
    assert_ne!(id1, id2);
}

#[test]
fn identical_payloads_get_identical_ids() {
    let mut store = InMemoryObjectStore::new();
    let id1 = store.put(vec![1, 2, 3]).unwrap();
    let id2 = store.put(vec![1, 2, 3]).unwrap();
    assert_eq!(id1, id2);
}

fn make_mmap_store(capacity: usize) -> MmapObjectStore {
    MmapObjectStore::new(MmapMut::map_anon(capacity).unwrap())
}

#[test]
fn mmap_put_get_round_trip() {
    let mut store = make_mmap_store(4096 * 4);
    let id = store.put(vec![1, 2, 3]).unwrap();
    assert_eq!(store.get(&id), Some(vec![1, 2, 3]));
}

#[test]
fn mmap_get_unknown_id_returns_none() {
    let store = make_mmap_store(4096 * 4);
    let id = ObjectId([0u8; 32]);
    assert_eq!(store.get(&id), None);
}

#[test]
fn mmap_release_makes_get_return_none() {
    let mut store = make_mmap_store(4096 * 4);
    let id = store.put(vec![1, 2, 3]).unwrap();
    store.release(&id);
    assert_eq!(store.get(&id), None);
}

#[test]
fn mmap_identical_payloads_dedupe() {
    // Capacity for exactly one page; a second distinct payload would not
    // fit, so a successful second put shows the bytes were not re-written.
    let mut store = make_mmap_store(4096);
    let id1 = store.put(vec![1, 2, 3]).unwrap();
    let id2 = store.put(vec![1, 2, 3]).unwrap();
    assert_eq!(id1, id2);
    assert_eq!(store.get(&id1), Some(vec![1, 2, 3]));
}

#[test]
fn mmap_put_returns_none_when_full() {
    let mut store = make_mmap_store(4096);
    assert!(store.put(vec![1]).is_some());
    assert!(store.put(vec![2]).is_none());
}

#[test]
fn ids_are_blake3_hashes_of_the_payload() {
    // blake3 of the empty input, a published test vector.
    let id = ObjectId::of_payload(&[]);
    let expected: [u8; 32] = [
        0xaf, 0x13, 0x49, 0xb9, 0xf5, 0xf9, 0xa1, 0xa6, 0xa0, 0x40, 0x4d, 0xea, 0x36, 0xdc, 0xc9, 0x49, 0x9b,
        0xcb, 0x25, 0xc9, 0xad, 0xc1, 0x12, 0xb7, 0xcc, 0x9a, 0x93, 0xca, 0xe4, 0x1f, 0x32, 0x62,
    ];
    assert_eq!(id, ObjectId(expected));
    let mut store = InMemoryObjectStore::new();
    assert_eq!(store.put(vec![]).unwrap(), ObjectId(expected));
}

#[test]
fn same_compares_every_byte() {
    let a = ObjectId::of_payload(&[1, 2, 3]);
    let b = ObjectId::of_payload(&[1, 2, 3]);
    let c = ObjectId::of_payload(&[3, 2, 1]);
    assert!(a.same(&b));
    assert!(!a.same(&c));
}

#[test]
fn put_keeps_other_payloads() {
    let mut store = InMemoryObjectStore::new();
    let a = store.put(vec![1]).unwrap();
    let b = store.put(vec![2, 2]).unwrap();
    store.release(&a);
    assert_eq!(store.get(&a), None);
    assert_eq!(store.get(&b), Some(vec![2, 2]));
}

#[test]
fn mmap_release_does_not_reclaim_space() {
    let mut store = make_mmap_store(4096 * 2);
    let a = store.put(vec![7; 10]).unwrap();
    store.release(&a);
    let b = store.put(vec![8; 10]).unwrap();
    assert_eq!(store.get(&b), Some(vec![8; 10]));
    // Two pages used by two puts: a third distinct payload does not fit.
    assert!(store.put(vec![9; 10]).is_none());
    // Re-putting a released payload writes it again: it is not indexed.
    assert!(store.put(vec![7; 10]).is_none());
}

#[test]
fn mmap_payload_spanning_pages_round_trips() {
    let mut store = make_mmap_store(4096 * 3);
    let big: Vec<u8> = (0..5000u32).map(|i| (i % 251) as u8).collect();
    let id = store.put(big.clone()).unwrap();
    assert_eq!(store.get(&id), Some(big));
    // 5000 bytes round up to two pages; one page is left.
    assert!(store.put(vec![1; 4096]).is_some());
    assert!(store.put(vec![2]).is_none());
}

#[test]
fn default_in_memory_store_starts_empty() {
    let mut store = InMemoryObjectStore::default();
    assert_eq!(store.get(&ObjectId([0u8; 32])), None);
    let id = store.put(vec![4, 5]).unwrap();
    assert_eq!(store.get(&id), Some(vec![4, 5]));
}

#[test]
fn mmap_store_refuses_payload_larger_than_what_is_left() {
    let mut store = make_mmap_store(4096);
    assert!(store.put(vec![7u8; 4097]).is_none());
    let id = store.put(vec![7u8; 4096]).unwrap();
    assert_eq!(store.get(&id), Some(vec![7u8; 4096]));
}
