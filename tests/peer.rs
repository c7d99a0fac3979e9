use tangle_sync::peer::PeerManager;

fn consistent(m: &PeerManager<&'static str>) {
    let keys = m.peers_keys().clone();
    for (i, k) in keys.iter().enumerate() {
        assert!(m.contains(*k));
        assert!(!keys[i + 1..].contains(k));
    }
}

#[test]
fn empty_registry() {
    let m: PeerManager<&'static str> = PeerManager::new();
    assert!(m.is_empty());
    assert!(m.get(1).is_none());
    assert_eq!(m.connected_peers(), 0);
    assert_eq!(m.synced_peers(), 0);
}

#[test]
fn add_get_remove() {
    let mut m = PeerManager::new();
    assert!(m.add(7, "a").is_ok());
    assert!(m.add(3, "b").is_ok());
    assert!(!m.is_empty());
    assert_eq!(m.get(7), Some(&"a"));
    assert_eq!(m.get(3), Some(&"b"));
    assert_eq!(m.peers_keys(), &vec![7, 3]);
    assert_eq!(m.remove(7), Some("a"));
    assert_eq!(m.get(7), None);
    assert_eq!(m.peers_keys(), &vec![3]);
    assert_eq!(m.remove(7), None);
    assert_eq!(m.remove(3), Some("b"));
    assert!(m.is_empty());
}

#[test]
fn duplicate_add_is_refused() {
    let mut m = PeerManager::new();
    assert!(m.add(1, "first").is_ok());
    assert_eq!(m.add(1, "second"), Err("second"));
    assert_eq!(m.get(1), Some(&"first"));
    assert_eq!(m.peers_keys(), &vec![1]);
}

#[test]
fn order_of_arrival_is_kept_across_removals() {
    let mut m = PeerManager::new();
    for id in [5u64, 1, 9, 4] {
        m.add(id, "p").unwrap();
    }
    m.remove(1);
    m.add(2, "q").unwrap();
    assert_eq!(m.peers_keys(), &vec![5, 9, 4, 2]);
}

#[test]
fn interleaved_adds_and_removes_stay_consistent() {
    let mut m = PeerManager::new();
    let mut state: u64 = 17;
    for _ in 0..500 {
        state = state.wrapping_mul(6364136223846793005).wrapping_add(1);
        let id = (state >> 60) as u64;
        if (state >> 40) & 1 == 0 {
            let _ = m.add(id, "x");
        } else {
            m.remove(id);
        }
        consistent(&m);
    }
}

#[test]
fn connected_peers_saturates() {
    let mut m = PeerManager::new();
    for id in 0..300u64 {
        m.add(id, ()).unwrap();
    }
    assert_eq!(m.connected_peers(), 255);
    for id in 0..100u64 {
        m.remove(id);
    }
    assert_eq!(m.connected_peers(), 200);
}
