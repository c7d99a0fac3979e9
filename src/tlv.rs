//! Type-length-value framing on top of the packets.
use crate::packet::{decode_payload, lemma_payload_round_trip, HeaderPacket, Packet, PacketKind, PacketView, HEADER_SIZE};
use vstd::bytes::*;
use vstd::prelude::*;

verus! {

/// Why a frame was refused.
#[derive(Clone, Copy, Debug, PartialEq, Eq, Structural)]
pub enum TlvError {
    /// The header's type tag (`found`) is not the tag of the expected kind (`advertised`).
    TypeMismatch { found: u8, advertised: u8 },
    /// The header's length (`advertised`) is not the length of the buffer (`found`).
    LengthMismatch { type_id: u8, advertised: usize, found: usize },
    /// The buffer's length lies outside the size range of the kind.
    OutOfRange { type_id: u8, len: usize },
}

/// The first check that a header and a buffer of `len` bytes fail, if any.
pub open spec fn tlv_check(kind: PacketKind, header: HeaderPacket, len: usize) -> Option<TlvError> {
    if header.packet_type != kind.spec_id() {
        Some(TlvError::TypeMismatch { found: header.packet_type, advertised: kind.spec_id() })
    } else if header.packet_length as usize != len {
        Some(
            TlvError::LengthMismatch {
                type_id: header.packet_type,
                advertised: header.packet_length as usize,
                found: len,
            },
        )
    } else if !kind.accepts_len(len as nat) {
        Some(TlvError::OutOfRange { type_id: header.packet_type, len })
    } else {
        None
    }
}

/// The bytes of a framed packet: tag, payload length (16 bits, little-endian), payload.
pub open spec fn frame(p: PacketView) -> Seq<u8> {
    seq![p.kind().spec_id()] + spec_u16_to_le_bytes(p.payload().len() as u16) + p.payload()
}

/// Reads the three header bytes of a frame.
pub fn header_from_bytes(bytes: &[u8]) -> (r: HeaderPacket)
    requires
        bytes@.len() == HEADER_SIZE,
    ensures
        r.packet_type == bytes@[0],
        r.packet_length == spec_u16_from_le_bytes(bytes@.subrange(1, 3)),
{
    HeaderPacket { packet_type: bytes[0], packet_length: u16_from_le_bytes(&bytes[1..3]) }
}

/// Decodes a payload announced by `header` as a packet of the expected `kind`.
///
/// The checks come in this order: the type tag, then the announced length, then the
/// kind's size range. Only a buffer that passes all three is read.
pub fn tlv_from_bytes(kind: PacketKind, header: &HeaderPacket, bytes: &[u8]) -> (r: Result<Packet, TlvError>)
    ensures
        match r {
            Ok(p) => tlv_check(kind, *header, bytes@.len() as usize) is None && p@ == decode_payload(
                kind,
                bytes@,
            ),
            Err(e) => tlv_check(kind, *header, bytes@.len() as usize) == Some(e),
        },
{
    let id = kind.id();
    if header.packet_type != id {
        return Err(TlvError::TypeMismatch { found: header.packet_type, advertised: id });
    }
    if header.packet_length as usize != bytes.len() {
        return Err(
            TlvError::LengthMismatch {
                type_id: header.packet_type,
                advertised: header.packet_length as usize,
                found: bytes.len(),
            },
        );
    }
    if !kind.accepts(bytes.len()) {
        return Err(TlvError::OutOfRange { type_id: header.packet_type, len: bytes.len() });
    }
    Ok(Packet::from_payload(kind, bytes))
}

/// Frames a packet: its kind's tag, its payload length and its payload.
pub fn tlv_to_bytes(packet: &Packet) -> (r: Vec<u8>)
    requires
        packet@.payload().len() <= u16::MAX,
    ensures
        r@ == frame(packet@),
{
    let size = packet.size();
    let mut bytes: Vec<u8> = Vec::with_capacity(HEADER_SIZE + size);
    bytes.push(packet.kind().id());
    let mut len = u16_to_le_bytes(size as u16);
    bytes.append(&mut len);
    packet.write_payload(&mut bytes);
    bytes
}

/// Decoding a payload under a header that announces its kind and length, then framing
/// the packet again, gives back the header bytes followed by the very same payload.
pub proof fn lemma_tlv_round_trip(kind: PacketKind, payload: Seq<u8>)
    requires
        kind.accepts_len(payload.len()),
    ensures
        ({
            let header = HeaderPacket { packet_type: kind.spec_id(), packet_length: payload.len() as u16 };
            &&& tlv_check(kind, header, payload.len() as usize) is None
            &&& decode_payload(kind, payload).payload().len() <= u16::MAX
            &&& frame(decode_payload(kind, payload)) == seq![kind.spec_id()]
                + spec_u16_to_le_bytes(payload.len() as u16) + payload
        }),
{
    lemma_payload_round_trip(kind, payload);
}

} // verus!
