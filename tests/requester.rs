use tangle_sync::requester::{select_peer_ids, request_packet, same_key, RequestConfig, RequestKey, RequestTracker};
use tangle_sync::packet::Packet;

fn config() -> RequestConfig {
    RequestConfig { retry_interval: 100, retry_ceiling: 3, fanout: 1, request_timeout: 10_000 }
}

fn id(b: u8) -> [u8; 32] {
    [b; 32]
}

#[test]
fn keys_compare_by_value() {
    assert!(same_key(&RequestKey::Message(id(1)), &RequestKey::Message(id(1))));
    let mut other = id(1);
    other[31] = 2;
    assert!(!same_key(&RequestKey::Message(id(1)), &RequestKey::Message(other)));
    assert!(same_key(&RequestKey::Milestone(4), &RequestKey::Milestone(4)));
    assert!(!same_key(&RequestKey::Milestone(4), &RequestKey::Milestone(5)));
    assert!(!same_key(&RequestKey::Milestone(4), &RequestKey::Message(id(4))));
}

#[test]
fn request_packet_matches_key() {
    match request_packet(&RequestKey::Milestone(9)) {
        Packet::MilestoneRequest { index } => assert_eq!(index, 9),
        _ => unreachable!(),
    }
    match request_packet(&RequestKey::Message(id(3))) {
        Packet::MessageRequest { message_id } => assert_eq!(message_id, id(3)),
        _ => unreachable!(),
    }
}

#[test]
fn selection_is_round_robin_and_skips_excluded() {
    let order = vec![10u64, 20, 30];
    assert_eq!(select_peer_ids(&order, 0, None, 1), vec![10]);
    assert_eq!(select_peer_ids(&order, 1, None, 1), vec![20]);
    assert_eq!(select_peer_ids(&order, 4, None, 2), vec![20, 30]);
    assert_eq!(select_peer_ids(&order, 2, None, 5), vec![30, 10, 20]);
    assert_eq!(select_peer_ids(&order, 0, Some(10), 1), vec![20]);
    assert_eq!(select_peer_ids(&order, 0, Some(20), 3), vec![10, 30]);
    assert_eq!(select_peer_ids(&vec![], 0, None, 3), Vec::<u64>::new());
    assert_eq!(select_peer_ids(&vec![10], 0, Some(10), 3), Vec::<u64>::new());
    assert_eq!(select_peer_ids(&order, 0, None, 0), Vec::<u64>::new());
}

#[test]
fn two_peers_request_then_receive() {
    let mut t = RequestTracker::new(config());
    let order = vec![1u64, 2];
    let m = RequestKey::Message(id(7));
    assert_eq!(t.request(&m, None, &order, 0), vec![1]);
    assert!(t.is_pending(&m));
    assert!(t.receive(&m));
    assert!(!t.is_pending(&m));
    assert!(!t.receive(&m));
    assert_eq!(t.len(), 0);
}

#[test]
fn duplicate_request_within_window_sends_nothing() {
    let mut t = RequestTracker::new(config());
    let order = vec![1u64, 2];
    let m = RequestKey::Message(id(7));
    let mut sends = 0;
    for now in [0u64, 1, 50, 99] {
        sends += t.request(&m, None, &order, now).len();
    }
    assert_eq!(sends, 1);
    assert_eq!(t.len(), 1);
    assert_eq!(t.request(&m, None, &order, 100), vec![2]);
}

#[test]
fn no_peer_no_request() {
    let mut t = RequestTracker::new(config());
    let m = RequestKey::Milestone(1);
    assert!(t.request(&m, None, &vec![], 0).is_empty());
    assert!(t.request(&m, Some(4), &vec![4], 0).is_empty());
    assert!(!t.is_pending(&m));
}

#[test]
fn retried_each_interval_up_to_ceiling_then_abandoned() {
    let mut t = RequestTracker::new(config());
    let order = vec![1u64, 2];
    let m = RequestKey::Message(id(5));
    let mut sent = 0;
    assert_eq!(t.request(&m, None, &order, 0).len(), 1);
    sent += 1;
    let mut now = 0u64;
    let mut abandoned_at = None;
    for _ in 0..10 {
        now += 100;
        let (due, gone) = t.sweep(now);
        if !gone.is_empty() {
            assert_eq!(gone.len(), 1);
            assert!(due.is_empty());
            abandoned_at = Some(now);
            break;
        }
        assert_eq!(due.len(), 1);
        for k in due.iter() {
            sent += t.request(k, None, &order, now).len();
        }
    }
    assert_eq!(sent, 3);
    assert_eq!(abandoned_at, Some(300));
    assert!(!t.is_pending(&m));
    let (due, gone) = t.sweep(now + 1000);
    assert!(due.is_empty() && gone.is_empty());
}

#[test]
fn not_due_entries_are_kept_by_sweep() {
    let mut t = RequestTracker::new(config());
    let order = vec![1u64];
    let m = RequestKey::Milestone(8);
    t.request(&m, None, &order, 1000);
    let (due, gone) = t.sweep(1050);
    assert!(due.is_empty() && gone.is_empty());
    assert!(t.is_pending(&m));
}

#[test]
fn timeout_abandons_request() {
    let cfg = RequestConfig { retry_interval: 100, retry_ceiling: 50, fanout: 2, request_timeout: 250 };
    let mut t = RequestTracker::new(cfg);
    let order = vec![1u64, 2, 3];
    let m = RequestKey::Milestone(2);
    assert_eq!(t.request(&m, None, &order, 0), vec![1, 2]);
    assert_eq!(t.request(&m, None, &order, 100), vec![2, 3]);
    assert_eq!(t.request(&m, None, &order, 200), vec![3, 1]);
    let (due, gone) = t.sweep(250);
    assert!(due.is_empty());
    assert_eq!(gone.len(), 1);
    assert_eq!(t.config(), cfg);
}
