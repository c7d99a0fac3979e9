use tangle_sync::coordinator::{
    decode_inbound, heartbeat_frame, kind_from_tag, on_message_stored, reply_frame, retry_sweep,
    serve_message_request, FrameError,
};
use tangle_sync::packet::{HeaderPacket, Packet, PacketKind};
use tangle_sync::peer::PeerManager;
use tangle_sync::requester::{RequestConfig, RequestKey, RequestTracker};
use tangle_sync::storage::{MemoryStorage, StorageBackend};
use tangle_sync::tlv::{tlv_to_bytes, TlvError};

fn config() -> RequestConfig {
    RequestConfig { retry_interval: 100, retry_ceiling: 3, fanout: 1, request_timeout: 10_000 }
}

#[test]
fn tags_name_kinds() {
    assert_eq!(kind_from_tag(1), Some(PacketKind::MilestoneRequest));
    assert_eq!(kind_from_tag(2), Some(PacketKind::Message));
    assert_eq!(kind_from_tag(3), Some(PacketKind::MessageRequest));
    assert_eq!(kind_from_tag(4), Some(PacketKind::Heartbeat));
    assert_eq!(kind_from_tag(0), None);
    assert_eq!(kind_from_tag(5), None);
}

#[test]
fn inbound_frames_are_decoded_or_dropped() {
    let h = HeaderPacket { packet_type: 9, packet_length: 1 };
    assert_eq!(decode_inbound(&h, &[0]).unwrap_err(), FrameError::UnknownType { packet_type: 9 });
    let h = HeaderPacket { packet_type: 3, packet_length: 31 };
    assert_eq!(
        decode_inbound(&h, &[0u8; 31]).unwrap_err(),
        FrameError::Invalid(TlvError::OutOfRange { type_id: 3, len: 31 })
    );
    let h = HeaderPacket { packet_type: 2, packet_length: 3 };
    match decode_inbound(&h, &[1, 2, 3]).unwrap() {
        Packet::Message { bytes } => assert_eq!(bytes, vec![1, 2, 3]),
        _ => unreachable!(),
    }
}

#[test]
fn arrival_satisfies_request_and_requests_missing_parents() {
    let mut t = RequestTracker::new(config());
    let order = vec![1u64, 2];
    let m = [7u8; 32];
    t.request(&RequestKey::Message(m), None, &order, 0);
    t.request(&RequestKey::Milestone(12), None, &order, 0);
    let missing = vec![[8u8; 32], [9u8; 32]];
    let (solicited, out) = on_message_stored(&mut t, &m, Some(12), &missing, 1, &order, 10);
    assert!(solicited);
    assert!(!t.is_pending(&RequestKey::Message(m)));
    assert!(!t.is_pending(&RequestKey::Milestone(12)));
    assert_eq!(out.len(), 2);
    for o in out.iter() {
        assert_eq!(o.peers, vec![2]);
    }
    assert_eq!(out[0].frame, tlv_to_bytes(&Packet::MessageRequest { message_id: [8u8; 32] }));
    assert_eq!(out[1].frame[0], 3);
    assert_eq!(&out[1].frame[1..3], &[32, 0]);
    assert!(t.is_pending(&RequestKey::Message([9u8; 32])));
    let (again, out2) = on_message_stored(&mut t, &m, None, &vec![], 1, &order, 20);
    assert!(!again);
    assert!(out2.is_empty());
}

#[test]
fn sweep_resends_due_requests() {
    let mut t = RequestTracker::new(config());
    let order = vec![1u64, 2];
    t.request(&RequestKey::Milestone(3), None, &order, 0);
    let (out, gone) = retry_sweep(&mut t, &order, 50);
    assert!(out.is_empty() && gone.is_empty());
    let (out, gone) = retry_sweep(&mut t, &order, 100);
    assert!(gone.is_empty());
    assert_eq!(out.len(), 1);
    assert_eq!(out[0].peers, vec![2]);
    assert_eq!(out[0].frame, vec![1, 4, 0, 3, 0, 0, 0]);
    retry_sweep(&mut t, &order, 200);
    let (out, gone) = retry_sweep(&mut t, &order, 300);
    assert!(out.is_empty());
    assert_eq!(gone.len(), 1);
}

#[test]
fn replies_frame_found_messages() {
    assert_eq!(reply_frame(Some(vec![5, 6])), Some(vec![2, 2, 0, 5, 6]));
    assert_eq!(reply_frame(Some(vec![])), None);
    assert_eq!(reply_frame(Some(vec![0u8; 32769])), None);
    assert_eq!(reply_frame(None), None);
}

#[test]
fn requests_are_served_from_storage() {
    let mut s = MemoryStorage::new();
    let id = [1u8; 32];
    assert_eq!(serve_message_request(&s, &id), None);
    s.insert(&id, &[4, 5, 6]);
    assert_eq!(serve_message_request(&s, &id), Some(vec![2, 3, 0, 4, 5, 6]));
}

#[test]
fn heartbeat_carries_registry_counts() {
    let mut peers = PeerManager::new();
    peers.add(1, ()).unwrap();
    peers.add(2, ()).unwrap();
    let f = heartbeat_frame(&peers, 10, 2, 11);
    assert_eq!(f, vec![4, 14, 0, 10, 0, 0, 0, 2, 0, 0, 0, 11, 0, 0, 0, 2, 0]);
}
