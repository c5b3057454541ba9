use fubuki::{Endpoint, NodeEntry, NodeMap};

fn ep(last: u8, port: u16) -> Endpoint {
    Endpoint::V4 { ip: u32::from_be_bytes([192, 0, 2, last]), port }
}

fn entry(addr: u32, endpoint: Endpoint, last_seen: u64, generation: u64) -> NodeEntry {
    NodeEntry { virtual_addr: addr, endpoint, last_seen, generation }
}

#[test]
fn lookup_absent_is_none() {
    let m = NodeMap::new();
    assert_eq!(m.lookup(0x0A00_0003), None);
    assert_eq!(m.len(), 0);
}

#[test]
fn upsert_then_lookup() {
    let mut m = NodeMap::new();
    assert!(m.upsert(entry(0x0A00_0003, ep(1, 7000), 10, 3)));
    assert_eq!(m.lookup(0x0A00_0003), Some(ep(1, 7000)));
    assert_eq!(m.len(), 1);
}

#[test]
fn higher_generation_wins() {
    let mut m = NodeMap::new();
    assert!(m.upsert(entry(7, ep(1, 1), 10, 5)));
    assert!(!m.upsert(entry(7, ep(2, 2), 99, 4)));
    assert_eq!(m.lookup(7), Some(ep(1, 1)));
    assert!(m.upsert(entry(7, ep(3, 3), 1, 6)));
    assert_eq!(m.lookup(7), Some(ep(3, 3)));
    assert_eq!(m.len(), 1);
}

#[test]
fn equal_generation_later_last_seen_wins() {
    let mut m = NodeMap::new();
    m.upsert(entry(7, ep(1, 1), 10, 5));
    assert!(!m.upsert(entry(7, ep(2, 2), 9, 5)));
    assert_eq!(m.lookup(7), Some(ep(1, 1)));
    assert!(m.upsert(entry(7, ep(3, 3), 11, 5)));
    assert_eq!(m.lookup(7), Some(ep(3, 3)));
}

#[test]
fn sequence_of_upserts_keeps_highest_generation() {
    let mut m = NodeMap::new();
    let seq = [
        entry(1, ep(1, 1), 5, 2),
        entry(2, ep(2, 2), 5, 1),
        entry(1, ep(3, 3), 6, 7),
        entry(1, ep(4, 4), 9, 3),
        entry(2, ep(5, 5), 1, 4),
        entry(1, ep(6, 6), 2, 7),
    ];
    m.upsert_all(&seq);
    assert_eq!(m.get(1), Some(entry(1, ep(3, 3), 6, 7)));
    assert_eq!(m.get(2), Some(entry(2, ep(5, 5), 1, 4)));
    assert_eq!(m.len(), 2);
}

#[test]
fn register_increments_generation() {
    let mut m = NodeMap::new();
    let a = m.register(4, ep(1, 1), 100);
    assert_eq!(a.generation, 1);
    let b = m.register(4, ep(2, 2), 50);
    assert_eq!(b.generation, 2);
    assert_eq!(m.get(4), Some(entry(4, ep(2, 2), 50, 2)));
}

#[test]
fn register_holds_generation_at_max() {
    let mut m = NodeMap::new();
    m.upsert(entry(4, ep(1, 1), 1, u64::MAX));
    let b = m.register(4, ep(2, 2), 2);
    assert_eq!(b.generation, u64::MAX);
    assert_eq!(m.lookup(4), Some(ep(2, 2)));
}

#[test]
fn evict_removes_exactly_stale_entries() {
    let mut m = NodeMap::new();
    m.upsert(entry(1, ep(1, 1), 39, 1));
    m.upsert(entry(2, ep(2, 2), 40, 1));
    m.upsert(entry(3, ep(3, 3), 41, 1));
    m.upsert(entry(4, ep(4, 4), 0, 1));
    m.evict_stale(100, 60);
    assert_eq!(m.lookup(1), None);
    assert_eq!(m.lookup(2), Some(ep(2, 2)));
    assert_eq!(m.lookup(3), Some(ep(3, 3)));
    assert_eq!(m.lookup(4), None);
    assert_eq!(m.len(), 2);
}

#[test]
fn evict_with_timeout_beyond_now_keeps_all() {
    let mut m = NodeMap::new();
    m.upsert(entry(1, ep(1, 1), 0, 1));
    m.evict_stale(10, 60);
    assert_eq!(m.lookup(1), Some(ep(1, 1)));
}

#[test]
fn evict_then_reinsert() {
    let mut m = NodeMap::new();
    m.upsert(entry(1, ep(1, 1), 0, 1));
    m.upsert(entry(2, ep(2, 2), 100, 1));
    m.evict_stale(100, 10);
    assert_eq!(m.to_vec(), vec![entry(2, ep(2, 2), 100, 1)]);
    m.upsert(entry(1, ep(3, 3), 101, 1));
    assert_eq!(m.len(), 2);
    assert_eq!(m.to_vec().len(), 2);
}

#[test]
fn snapshot_is_a_copy() {
    let mut m = NodeMap::new();
    m.upsert(entry(1, ep(1, 1), 0, 1));
    m.upsert(entry(2, ep(2, 2), 0, 1));
    let snap = m.snapshot();
    m.upsert(entry(3, ep(3, 3), 0, 1));
    assert_eq!(snap.len(), 2);
    assert_eq!(snap.lookup(2), Some(ep(2, 2)));
    assert_eq!(snap.lookup(3), None);
}

#[test]
fn replace_with_swaps_whole_map() {
    let mut cache = NodeMap::new();
    cache.upsert(entry(9, ep(9, 9), 0, 1));
    let mut fresh = NodeMap::new();
    fresh.upsert(entry(1, ep(1, 1), 0, 1));
    cache.replace_with(fresh);
    assert_eq!(cache.lookup(9), None);
    assert_eq!(cache.lookup(1), Some(ep(1, 1)));
}

#[test]
fn to_vec_in_insertion_order() {
    let mut m = NodeMap::new();
    m.upsert(entry(5, ep(5, 5), 0, 1));
    m.upsert(entry(3, ep(3, 3), 0, 1));
    m.upsert(entry(5, ep(6, 6), 0, 2));
    assert_eq!(
        m.to_vec(),
        vec![entry(5, ep(6, 6), 0, 2), entry(3, ep(3, 3), 0, 1)]
    );
}
