//! Decisions of the synchronization coordinator: what an inbound frame leads to, which
//! requests go out when messages arrive or retries fall due, and what is sent back.
use crate::packet::{decode_payload, HeaderPacket, MessageId, Packet, PacketKind, PacketView};
use crate::peer::{PeerId, PeerManager};
use crate::requester::{
    request_packet, request_packet_view, request_step, RequestConfig, RequestKey, RequestTracker,
    TrackerView, abandoned_keys, live_entries, retry_keys, has_key, receive_step,
};
use crate::storage::StorageBackend;
use crate::tlv::{frame, tlv_check, tlv_from_bytes, tlv_to_bytes, TlvError};
use vstd::bytes::*;
use vstd::prelude::*;

verus! {

broadcast use vstd::array::group_array_axioms;

/// The packet kind whose tag is `tag`, if any.
pub open spec fn kind_of_tag(tag: u8) -> Option<PacketKind> {
    if tag == 1 {
        Some(PacketKind::MilestoneRequest)
    } else if tag == 2 {
        Some(PacketKind::Message)
    } else if tag == 3 {
        Some(PacketKind::MessageRequest)
    } else if tag == 4 {
        Some(PacketKind::Heartbeat)
    } else {
        None
    }
}

/// The packet kind whose tag is `tag`, if any.
pub fn kind_from_tag(tag: u8) -> (r: Option<PacketKind>)
    ensures
        r == kind_of_tag(tag),
        r matches Some(k) ==> k.spec_id() == tag,
{
    if tag == 1 {
        Some(PacketKind::MilestoneRequest)
    } else if tag == 2 {
        Some(PacketKind::Message)
    } else if tag == 3 {
        Some(PacketKind::MessageRequest)
    } else if tag == 4 {
        Some(PacketKind::Heartbeat)
    } else {
        None
    }
}

/// Why an inbound frame is dropped.
#[derive(Clone, Copy, Debug, PartialEq, Eq, Structural)]
pub enum FrameError {
    /// The header's tag names no packet kind.
    UnknownType { packet_type: u8 },
    /// The frame fails the checks of the kind its tag names.
    Invalid(TlvError),
}

/// Decodes an inbound frame as the kind its header names.
///
/// A frame that is refused is dropped by the caller with no other effect.
pub fn decode_inbound(header: &HeaderPacket, payload: &[u8]) -> (r: Result<Packet, FrameError>)
    ensures
        kind_of_tag(header.packet_type) is None ==> r == Err::<Packet, FrameError>(
            FrameError::UnknownType { packet_type: header.packet_type },
        ),
        kind_of_tag(header.packet_type) matches Some(k) ==> match r {
            Ok(p) => tlv_check(k, *header, payload@.len() as usize) is None && p@ == decode_payload(
                k,
                payload@,
            ),
            Err(e) => tlv_check(k, *header, payload@.len() as usize) matches Some(t) && e
                == FrameError::Invalid(t),
        },
{
    match kind_from_tag(header.packet_type) {
        None => Err(FrameError::UnknownType { packet_type: header.packet_type }),
        Some(kind) => match tlv_from_bytes(kind, header, payload) {
            Ok(p) => Ok(p),
            Err(e) => Err(FrameError::Invalid(e)),
        },
    }
}

/// A request to send: the peers to ask and the framed request packet.
pub struct Outbound {
    pub key: RequestKey,
    pub peers: Vec<PeerId>,
    pub frame: Vec<u8>,
}

pub ghost struct OutboundView {
    pub key: RequestKey,
    pub peers: Seq<PeerId>,
    pub frame: Seq<u8>,
}

impl View for Outbound {
    type V = OutboundView;

    open spec fn view(&self) -> OutboundView {
        OutboundView { key: self.key, peers: self.peers@, frame: self.frame@ }
    }
}

/// Requests for each of `keys` in turn: the tracker afterwards and the requests that go
/// out, in order.
pub open spec fn request_all(
    cfg: RequestConfig,
    t: TrackerView,
    keys: Seq<RequestKey>,
    exclude: Option<PeerId>,
    order: Seq<PeerId>,
    now: u64,
) -> (TrackerView, Seq<OutboundView>)
    decreases keys.len(),
{
    if keys.len() == 0 {
        (t, Seq::empty())
    } else {
        let (t0, out0) = request_all(cfg, t, keys.drop_last(), exclude, order, now);
        let key = keys.last();
        let (t1, sent) = request_step(cfg, t0, key, exclude, order, now);
        if sent.len() > 0 {
            (t1, out0.push(OutboundView { key, peers: sent, frame: frame(request_packet_view(key)) }))
        } else {
            (t1, out0)
        }
    }
}

/// Requests each of `keys` in turn, skipping `exclude`; returns the requests to send.
pub fn request_many(
    tracker: &mut RequestTracker,
    keys: &Vec<RequestKey>,
    exclude: Option<PeerId>,
    order: &Vec<PeerId>,
    now: u64,
) -> (r: Vec<Outbound>)
    requires
        old(tracker).wf(),
    ensures
        final(tracker).wf(),
        final(tracker).spec_config() == old(tracker).spec_config(),
        (final(tracker)@, r@.map_values(|o: Outbound| o@)) == request_all(
            old(tracker).spec_config(),
            old(tracker)@,
            keys@,
            exclude,
            order@,
            now,
        ),
{
    let ghost cfg = tracker.spec_config();
    let ghost t = tracker@;
    let mut out: Vec<Outbound> = Vec::new();
    let mut i: usize = 0;
    while i < keys.len()
        invariant
            i <= keys@.len(),
            tracker.wf(),
            tracker.spec_config() == cfg,
            (tracker@, out@.map_values(|o: Outbound| o@)) == request_all(
                cfg,
                t,
                keys@.subrange(0, i as int),
                exclude,
                order@,
                now,
            ),
        decreases keys@.len() - i,
    {
        let key = &keys[i];
        let ghost before = out@.map_values(|o: Outbound| o@);
        proof {
            assert(keys@.subrange(0, i + 1).drop_last() =~= keys@.subrange(0, i as int));
            assert(keys@.subrange(0, i + 1).last() == keys@[i as int]);
        }
        let peers = tracker.request(key, exclude, order, now);
        if peers.len() > 0 {
            let packet = request_packet(key);
            proof {
                lemma_auto_spec_u32_to_from_le_bytes();
            }
            let framed = tlv_to_bytes(&packet);
            let o = Outbound { key: *key, peers, frame: framed };
            out.push(o);
            proof {
                assert(out@.map_values(|o: Outbound| o@) =~= before.push(o@));
            }
        }
        i = i + 1;
    }
    proof {
        assert(keys@.subrange(0, keys@.len() as int) =~= keys@);
    }
    out
}

/// A message has been stored: its pending request, and that of the milestone it
/// carries, are satisfied, and the messages it references but that are missing are
/// requested from peers other than the one it came from.
///
/// Returns whether the message had been requested, and the requests to send.
pub fn on_message_stored(
    tracker: &mut RequestTracker,
    message_id: &MessageId,
    milestone_index: Option<u32>,
    missing: &Vec<MessageId>,
    from: PeerId,
    order: &Vec<PeerId>,
    now: u64,
) -> (r: (bool, Vec<Outbound>))
    requires
        old(tracker).wf(),
    ensures
        final(tracker).wf(),
        final(tracker).spec_config() == old(tracker).spec_config(),
        ({
            let t0 = old(tracker)@;
            let t1 = receive_step(t0, RequestKey::Message(*message_id));
            let t2 = match milestone_index {
                Some(m) => receive_step(t1, RequestKey::Milestone(m)),
                None => t1,
            };
            let keys = missing@.map_values(|m: MessageId| RequestKey::Message(m));
            &&& r.0 == has_key(t0.entries, RequestKey::Message(*message_id))
            &&& (final(tracker)@, r.1@.map_values(|o: Outbound| o@)) == request_all(
                old(tracker).spec_config(),
                t2,
                keys,
                Some(from),
                order@,
                now,
            )
        }),
{
    let solicited = tracker.receive(&RequestKey::Message(*message_id));
    if let Some(m) = milestone_index {
        tracker.receive(&RequestKey::Milestone(m));
    }
    let mut keys: Vec<RequestKey> = Vec::new();
    let mut i: usize = 0;
    while i < missing.len()
        invariant
            i <= missing@.len(),
            keys@ == missing@.subrange(0, i as int).map_values(|m: MessageId| RequestKey::Message(m)),
        decreases missing@.len() - i,
    {
        keys.push(RequestKey::Message(missing[i]));
        i = i + 1;
        proof {
            assert(keys@ =~= missing@.subrange(0, i as int).map_values(|m: MessageId| RequestKey::Message(m)));
        }
    }
    proof {
        assert(missing@.subrange(0, missing@.len() as int) =~= missing@);
    }
    let out = request_many(tracker, &keys, Some(from), order, now);
    (solicited, out)
}

/// The periodic retry sweep: gives up the requests that are abandoned and sends again
/// those due for another attempt, to any peer.
///
/// Returns the requests to send and the keys given up.
pub fn retry_sweep(tracker: &mut RequestTracker, order: &Vec<PeerId>, now: u64) -> (r: (Vec<Outbound>, Vec<RequestKey>))
    requires
        old(tracker).wf(),
    ensures
        final(tracker).wf(),
        final(tracker).spec_config() == old(tracker).spec_config(),
        ({
            let cfg = old(tracker).spec_config();
            let t0 = old(tracker)@;
            let swept = TrackerView { entries: live_entries(cfg, t0.entries, now), cursor: t0.cursor };
            &&& r.1@ == abandoned_keys(cfg, t0.entries, now)
            &&& (final(tracker)@, r.0@.map_values(|o: Outbound| o@)) == request_all(
                cfg,
                swept,
                retry_keys(cfg, t0.entries, now),
                None,
                order@,
                now,
            )
        }),
{
    let (due, gone) = tracker.sweep(now);
    let out = request_many(tracker, &due, None, order, now);
    (out, gone)
}

/// The answer to a peer's request: the framed message if it was found here and fits
/// in a message packet, nothing otherwise.
pub fn reply_frame(found: Option<Vec<u8>>) -> (r: Option<Vec<u8>>)
    ensures
        match found {
            Some(b) => if PacketKind::Message.accepts_len(b@.len()) {
                r matches Some(f) && f@ == frame(PacketView::Message { bytes: b@ })
            } else {
                r is None
            },
            None => r is None,
        },
{
    match found {
        Some(bytes) => {
            if PacketKind::Message.accepts(bytes.len()) {
                let packet = Packet::Message { bytes };
                Some(tlv_to_bytes(&packet))
            } else {
                None
            }
        },
        None => None,
    }
}

/// The answer to a peer's request for message `id`, looked up in `storage`: the framed
/// message if it is stored and fits in a message packet, nothing otherwise.
pub fn serve_message_request<S: StorageBackend>(storage: &S, id: &MessageId) -> (r: Option<Vec<u8>>)
    requires
        storage.inv(),
    ensures
        storage.stored().contains_key(*id) && PacketKind::Message.accepts_len(storage.stored()[*id].len())
            ==> (r matches Some(f) && f@ == frame(PacketView::Message { bytes: storage.stored()[*id] })),
        !(storage.stored().contains_key(*id) && PacketKind::Message.accepts_len(storage.stored()[*id].len()))
            ==> r is None,
{
    reply_frame(storage.fetch(id))
}

/// The framed heartbeat this node sends: its milestone indexes and the peer counts of
/// the registry.
pub fn heartbeat_frame<E>(
    peers: &PeerManager<E>,
    solid_milestone_index: u32,
    pruned_index: u32,
    latest_milestone_index: u32,
) -> (r: Vec<u8>)
    requires
        peers.wf(),
    ensures
        r@ == frame(
            PacketView::Heartbeat {
                solid_milestone_index,
                pruned_index,
                latest_milestone_index,
                connected_peers: if peers.order().len() > u8::MAX {
                    u8::MAX
                } else {
                    peers.order().len() as u8
                },
                synced_peers: 0,
            },
        ),
{
    let packet = Packet::Heartbeat {
        solid_milestone_index,
        pruned_index,
        latest_milestone_index,
        connected_peers: peers.connected_peers(),
        synced_peers: peers.synced_peers(),
    };
    proof {
        lemma_auto_spec_u32_to_from_le_bytes();
    }
    tlv_to_bytes(&packet)
}

} // verus!
