//! Packet kinds of the gossip protocol and their fixed binary layouts.
use vstd::bytes::*;
use vstd::prelude::*;

verus! {

/// Size of the type-length header that precedes every payload.
pub const HEADER_SIZE: usize = 3;

/// Length of a message identifier, in bytes.
pub const MESSAGE_ID_LENGTH: usize = 32;

/// Smallest payload a message packet may carry.
pub const MESSAGE_MIN_SIZE: usize = 1;

/// Largest payload a message packet may carry.
pub const MESSAGE_MAX_SIZE: usize = 32768;

/// Payload size of a heartbeat: three milestone indexes and two peer counts.
pub const HEARTBEAT_SIZE: usize = 14;

/// Payload size of a milestone request: one milestone index.
pub const MILESTONE_REQUEST_SIZE: usize = 4;

/// Identifier of a message: the 32 bytes of its hash.
pub type MessageId = [u8; 32];

/// The type-length header of a packet.
#[derive(Clone, Copy, Debug, PartialEq, Eq, Structural)]
pub struct HeaderPacket {
    pub packet_type: u8,
    pub packet_length: u16,
}

/// The packet kinds that peers exchange.
#[derive(Clone, Copy, Debug, PartialEq, Eq, Structural)]
pub enum PacketKind {
    MilestoneRequest,
    Message,
    MessageRequest,
    Heartbeat,
}

impl PacketKind {
    pub open spec fn spec_id(self) -> u8 {
        match self {
            PacketKind::MilestoneRequest => 1,
            PacketKind::Message => 2,
            PacketKind::MessageRequest => 3,
            PacketKind::Heartbeat => 4,
        }
    }

    /// Smallest accepted payload length (inclusive).
    pub open spec fn spec_min_size(self) -> nat {
        match self {
            PacketKind::MilestoneRequest => MILESTONE_REQUEST_SIZE as nat,
            PacketKind::Message => MESSAGE_MIN_SIZE as nat,
            PacketKind::MessageRequest => MESSAGE_ID_LENGTH as nat,
            PacketKind::Heartbeat => HEARTBEAT_SIZE as nat,
        }
    }

    /// First payload length past the accepted range (exclusive).
    pub open spec fn spec_max_size(self) -> nat {
        match self {
            PacketKind::Message => MESSAGE_MAX_SIZE as nat + 1,
            _ => self.spec_min_size() + 1,
        }
    }

    pub open spec fn accepts_len(self, len: nat) -> bool {
        self.spec_min_size() <= len < self.spec_max_size()
    }

    /// The type tag written in the header of packets of this kind.
    pub fn id(self) -> (r: u8)
        ensures
            r == self.spec_id(),
    {
        match self {
            PacketKind::MilestoneRequest => 1,
            PacketKind::Message => 2,
            PacketKind::MessageRequest => 3,
            PacketKind::Heartbeat => 4,
        }
    }

    /// Start (inclusive) of the payload lengths this kind accepts.
    pub fn min_size(self) -> (r: usize)
        ensures
            r == self.spec_min_size(),
    {
        match self {
            PacketKind::MilestoneRequest => MILESTONE_REQUEST_SIZE,
            PacketKind::Message => MESSAGE_MIN_SIZE,
            PacketKind::MessageRequest => MESSAGE_ID_LENGTH,
            PacketKind::Heartbeat => HEARTBEAT_SIZE,
        }
    }

    /// End (exclusive) of the payload lengths this kind accepts.
    pub fn max_size(self) -> (r: usize)
        ensures
            r == self.spec_max_size(),
    {
        match self {
            PacketKind::Message => MESSAGE_MAX_SIZE + 1,
            _ => self.min_size() + 1,
        }
    }

    /// Whether a payload of `len` bytes lies in this kind's size range.
    pub fn accepts(self, len: usize) -> (r: bool)
        ensures
            r == self.accepts_len(len as nat),
    {
        self.min_size() <= len && len < self.max_size()
    }
}

/// A decoded packet: one of the closed set of kinds, with its fields.
#[derive(Clone, Debug)]
pub enum Packet {
    MilestoneRequest { index: u32 },
    Message { bytes: Vec<u8> },
    MessageRequest { message_id: MessageId },
    Heartbeat {
        solid_milestone_index: u32,
        pruned_index: u32,
        latest_milestone_index: u32,
        connected_peers: u8,
        synced_peers: u8,
    },
}

/// Mathematical model of a packet.
pub ghost enum PacketView {
    MilestoneRequest { index: u32 },
    Message { bytes: Seq<u8> },
    MessageRequest { message_id: Seq<u8> },
    Heartbeat {
        solid_milestone_index: u32,
        pruned_index: u32,
        latest_milestone_index: u32,
        connected_peers: u8,
        synced_peers: u8,
    },
}

impl View for Packet {
    type V = PacketView;

    open spec fn view(&self) -> PacketView {
        match self {
            Packet::MilestoneRequest { index } => PacketView::MilestoneRequest { index: *index },
            Packet::Message { bytes } => PacketView::Message { bytes: bytes@ },
            Packet::MessageRequest { message_id } => PacketView::MessageRequest {
                message_id: message_id@,
            },
            Packet::Heartbeat {
                solid_milestone_index,
                pruned_index,
                latest_milestone_index,
                connected_peers,
                synced_peers,
            } => PacketView::Heartbeat {
                solid_milestone_index: *solid_milestone_index,
                pruned_index: *pruned_index,
                latest_milestone_index: *latest_milestone_index,
                connected_peers: *connected_peers,
                synced_peers: *synced_peers,
            },
        }
    }
}

impl PacketView {
    pub open spec fn kind(self) -> PacketKind {
        match self {
            PacketView::MilestoneRequest { .. } => PacketKind::MilestoneRequest,
            PacketView::Message { .. } => PacketKind::Message,
            PacketView::MessageRequest { .. } => PacketKind::MessageRequest,
            PacketView::Heartbeat { .. } => PacketKind::Heartbeat,
        }
    }

    /// The fixed binary layout of the payload; integers are little-endian.
    pub open spec fn payload(self) -> Seq<u8> {
        match self {
            PacketView::MilestoneRequest { index } => spec_u32_to_le_bytes(index),
            PacketView::Message { bytes } => bytes,
            PacketView::MessageRequest { message_id } => message_id,
            PacketView::Heartbeat {
                solid_milestone_index,
                pruned_index,
                latest_milestone_index,
                connected_peers,
                synced_peers,
            } => spec_u32_to_le_bytes(solid_milestone_index) + spec_u32_to_le_bytes(pruned_index)
                + spec_u32_to_le_bytes(latest_milestone_index) + seq![connected_peers, synced_peers],
        }
    }
}

/// Reads a payload of the given kind; `b` has a length that the kind accepts.
pub open spec fn decode_payload(kind: PacketKind, b: Seq<u8>) -> PacketView {
    match kind {
        PacketKind::MilestoneRequest => PacketView::MilestoneRequest {
            index: spec_u32_from_le_bytes(b),
        },
        PacketKind::Message => PacketView::Message { bytes: b },
        PacketKind::MessageRequest => PacketView::MessageRequest { message_id: b },
        PacketKind::Heartbeat => PacketView::Heartbeat {
            solid_milestone_index: spec_u32_from_le_bytes(b.subrange(0, 4)),
            pruned_index: spec_u32_from_le_bytes(b.subrange(4, 8)),
            latest_milestone_index: spec_u32_from_le_bytes(b.subrange(8, 12)),
            connected_peers: b[12],
            synced_peers: b[13],
        },
    }
}

/// Reading a payload and laying it out again gives back the same bytes.
pub proof fn lemma_payload_round_trip(kind: PacketKind, b: Seq<u8>)
    requires
        kind.accepts_len(b.len()),
    ensures
        decode_payload(kind, b).kind() == kind,
        decode_payload(kind, b).payload() == b,
{
    lemma_auto_spec_u32_to_from_le_bytes();
    if kind == PacketKind::Heartbeat {
        assert(b =~= b.subrange(0, 4) + b.subrange(4, 8) + b.subrange(8, 12) + seq![b[12], b[13]]);
    }
}

impl Packet {
    pub fn kind(&self) -> (r: PacketKind)
        ensures
            r == self@.kind(),
    {
        match self {
            Packet::MilestoneRequest { .. } => PacketKind::MilestoneRequest,
            Packet::Message { .. } => PacketKind::Message,
            Packet::MessageRequest { .. } => PacketKind::MessageRequest,
            Packet::Heartbeat { .. } => PacketKind::Heartbeat,
        }
    }

    /// Length of the payload's binary layout.
    pub fn size(&self) -> (r: usize)
        ensures
            r == self@.payload().len(),
    {
        proof {
            lemma_auto_spec_u32_to_from_le_bytes();
        }
        match self {
            Packet::MilestoneRequest { .. } => MILESTONE_REQUEST_SIZE,
            Packet::Message { bytes } => bytes.len(),
            Packet::MessageRequest { .. } => MESSAGE_ID_LENGTH,
            Packet::Heartbeat { .. } => HEARTBEAT_SIZE,
        }
    }

    /// Appends the payload's binary layout to `out`.
    pub fn write_payload(&self, out: &mut Vec<u8>)
        ensures
            final(out)@ == old(out)@ + self@.payload(),
    {
        match self {
            Packet::MilestoneRequest { index } => {
                let mut b = u32_to_le_bytes(*index);
                out.append(&mut b);
            },
            Packet::Message { bytes } => {
                push_all(out, bytes.as_slice());
            },
            Packet::MessageRequest { message_id } => {
                push_all(out, message_id.as_slice());
            },
            Packet::Heartbeat {
                solid_milestone_index,
                pruned_index,
                latest_milestone_index,
                connected_peers,
                synced_peers,
            } => {
                let ghost start = out@;
                let mut b = u32_to_le_bytes(*solid_milestone_index);
                out.append(&mut b);
                let mut b = u32_to_le_bytes(*pruned_index);
                out.append(&mut b);
                let mut b = u32_to_le_bytes(*latest_milestone_index);
                out.append(&mut b);
                out.push(*connected_peers);
                out.push(*synced_peers);
                proof {
                    assert(out@ =~= start + self@.payload());
                }
            },
        }
    }

    /// Reads a payload of the given kind from its fixed binary layout.
    pub fn from_payload(kind: PacketKind, bytes: &[u8]) -> (r: Packet)
        requires
            kind.accepts_len(bytes@.len()),
        ensures
            r@ == decode_payload(kind, bytes@),
    {
        match kind {
            PacketKind::MilestoneRequest => Packet::MilestoneRequest { index: u32_from_le_bytes(bytes) },
            PacketKind::Message => Packet::Message { bytes: vstd::slice::slice_to_vec(bytes) },
            PacketKind::MessageRequest => {
                let mut message_id: MessageId = [0u8; 32];
                let mut i: usize = 0;
                while i < MESSAGE_ID_LENGTH
                    invariant
                        bytes@.len() == MESSAGE_ID_LENGTH,
                        i <= MESSAGE_ID_LENGTH,
                        forall|j: int| 0 <= j < i ==> message_id@[j] == bytes@[j],
                    decreases MESSAGE_ID_LENGTH - i,
                {
                    message_id[i] = bytes[i];
                    i = i + 1;
                }
                assert(message_id@ =~= bytes@);
                Packet::MessageRequest { message_id }
            },
            PacketKind::Heartbeat => Packet::Heartbeat {
                solid_milestone_index: u32_from_le_bytes(&bytes[0..4]),
                pruned_index: u32_from_le_bytes(&bytes[4..8]),
                latest_milestone_index: u32_from_le_bytes(&bytes[8..12]),
                connected_peers: bytes[12],
                synced_peers: bytes[13],
            },
        }
    }
}

/// Appends every byte of `src` to `out`.
fn push_all(out: &mut Vec<u8>, src: &[u8])
    ensures
        final(out)@ == old(out)@ + src@,
{
    let ghost start = out@;
    let mut i: usize = 0;
    while i < src.len()
        invariant
            i <= src@.len(),
            out@ == start + src@.subrange(0, i as int),
        decreases src@.len() - i,
    {
        out.push(src[i]);
        i = i + 1;
        proof {
            assert(src@.subrange(0, i as int) =~= src@.subrange(0, i - 1) + seq![src@[i - 1]]);
        }
    }
    assert(src@.subrange(0, src@.len() as int) =~= src@);
}

} // verus!
