//! The header that every packet starts with: its type, its own index, the
//! newest index received from the peer, the acknowledgement bits for the 32
//! indices before that one, and the sender's tick.

use crate::wire::{
    lemma_u16_round_trip, lemma_u32_round_trip, take_u16, take_u32, take_u8, u16_bytes, u32_bytes,
    write_u16, write_u32, PacketReader,
};
use vstd::prelude::*;

verus! {

/// The number of bytes of a header.
pub const HEADER_SIZE: usize = 11;

/// What a packet is for.
#[derive(Clone, Copy, PartialEq, Eq, Debug, Structural)]
pub enum PacketType {
    Data,
    Heartbeat,
    Ping,
    Pong,
    ClientHandshake,
    ServerHandshake,
    Disconnect,
}

/// The byte that stands for a packet type.
pub open spec fn packet_type_byte(t: PacketType) -> u8 {
    match t {
        PacketType::Data => 0,
        PacketType::Heartbeat => 1,
        PacketType::Ping => 2,
        PacketType::Pong => 3,
        PacketType::ClientHandshake => 4,
        PacketType::ServerHandshake => 5,
        PacketType::Disconnect => 6,
    }
}

/// The packet type that a byte stands for, if any.
pub open spec fn packet_type_of(byte: u8) -> Option<PacketType> {
    if byte == 0 {
        Some(PacketType::Data)
    } else if byte == 1 {
        Some(PacketType::Heartbeat)
    } else if byte == 2 {
        Some(PacketType::Ping)
    } else if byte == 3 {
        Some(PacketType::Pong)
    } else if byte == 4 {
        Some(PacketType::ClientHandshake)
    } else if byte == 5 {
        Some(PacketType::ServerHandshake)
    } else if byte == 6 {
        Some(PacketType::Disconnect)
    } else {
        None
    }
}

impl PacketType {
    pub fn to_u8(&self) -> (b: u8)
        ensures
            b == packet_type_byte(*self),
    {
        match self {
            PacketType::Data => 0,
            PacketType::Heartbeat => 1,
            PacketType::Ping => 2,
            PacketType::Pong => 3,
            PacketType::ClientHandshake => 4,
            PacketType::ServerHandshake => 5,
            PacketType::Disconnect => 6,
        }
    }

    pub fn from_u8(byte: u8) -> (t: Option<PacketType>)
        ensures
            t == packet_type_of(byte),
    {
        if byte == 0 {
            Some(PacketType::Data)
        } else if byte == 1 {
            Some(PacketType::Heartbeat)
        } else if byte == 2 {
            Some(PacketType::Ping)
        } else if byte == 3 {
            Some(PacketType::Pong)
        } else if byte == 4 {
            Some(PacketType::ClientHandshake)
        } else if byte == 5 {
            Some(PacketType::ServerHandshake)
        } else if byte == 6 {
            Some(PacketType::Disconnect)
        } else {
            None
        }
    }
}

/// The header of one packet.
#[derive(Clone, Copy, PartialEq, Eq, Debug, Structural)]
pub struct StandardHeader {
    pub packet_type: PacketType,
    pub local_packet_index: u16,
    pub last_remote_packet_index: u16,
    pub ack_field: u32,
    pub host_tick: u16,
}

/// The eleven bytes of a header.
pub open spec fn encode_header(h: StandardHeader) -> Seq<u8> {
    seq![packet_type_byte(h.packet_type)] + u16_bytes(h.local_packet_index) + u16_bytes(
        h.last_remote_packet_index,
    ) + u32_bytes(h.ack_field) + u16_bytes(h.host_tick)
}

/// The header at `pos`, with the position after it; none where the bytes
/// run out or the type byte stands for no packet type.
pub open spec fn take_header(bytes: Seq<u8>, pos: int) -> Option<(StandardHeader, int)> {
    if 0 <= pos && pos + 11 <= bytes.len() {
        match packet_type_of(bytes[pos]) {
            Some(t) => Some(
                (
                    StandardHeader {
                        packet_type: t,
                        local_packet_index: take_u16(bytes, pos + 1).unwrap().0,
                        last_remote_packet_index: take_u16(bytes, pos + 3).unwrap().0,
                        ack_field: take_u32(bytes, pos + 5).unwrap().0,
                        host_tick: take_u16(bytes, pos + 9).unwrap().0,
                    },
                    pos + 11,
                ),
            ),
            None => None,
        }
    } else {
        None
    }
}

/// A header that was written reads back as it was.
pub proof fn lemma_header_round_trip(h: StandardHeader, tail: Seq<u8>)
    ensures
        encode_header(h).len() == 11,
        take_header(encode_header(h) + tail, 0) == Some((h, 11int)),
{
    let bytes = encode_header(h) + tail;
    assert(bytes.subrange(1, 3) =~= u16_bytes(h.local_packet_index));
    assert(bytes.subrange(3, 5) =~= u16_bytes(h.last_remote_packet_index));
    assert(bytes.subrange(5, 9) =~= u32_bytes(h.ack_field));
    assert(bytes.subrange(9, 11) =~= u16_bytes(h.host_tick));
    lemma_u16_round_trip(h.local_packet_index, bytes, 1);
    lemma_u16_round_trip(h.last_remote_packet_index, bytes, 3);
    lemma_u32_round_trip(h.ack_field, bytes, 5);
    lemma_u16_round_trip(h.host_tick, bytes, 9);
    assert(bytes[0] == packet_type_byte(h.packet_type));
}

impl StandardHeader {
    pub fn new(
        packet_type: PacketType,
        local_packet_index: u16,
        last_remote_packet_index: u16,
        ack_field: u32,
        host_tick: u16,
    ) -> (h: StandardHeader)
        ensures
            h == (StandardHeader {
                packet_type,
                local_packet_index,
                last_remote_packet_index,
                ack_field,
                host_tick,
            }),
    {
        StandardHeader {
            packet_type,
            local_packet_index,
            last_remote_packet_index,
            ack_field,
            host_tick,
        }
    }

    /// The number of bytes that a header takes.
    pub fn bytes_number() -> (n: usize)
        ensures
            n == HEADER_SIZE,
    {
        HEADER_SIZE
    }

    pub fn packet_type(&self) -> (t: PacketType)
        ensures
            t == self.packet_type,
    {
        self.packet_type
    }

    /// The index that the sender gave this packet.
    pub fn local_packet_index(&self) -> (i: u16)
        ensures
            i == self.local_packet_index,
    {
        self.local_packet_index
    }

    /// The newest index that the sender had received.
    pub fn last_remote_packet_index(&self) -> (i: u16)
        ensures
            i == self.last_remote_packet_index,
    {
        self.last_remote_packet_index
    }

    pub fn ack_field(&self) -> (f: u32)
        ensures
            f == self.ack_field,
    {
        self.ack_field
    }

    pub fn host_tick(&self) -> (t: u16)
        ensures
            t == self.host_tick,
    {
        self.host_tick
    }

    /// Appends the header's bytes.
    pub fn write(&self, out: &mut Vec<u8>)
        ensures
            final(out)@ == old(out)@ + encode_header(*self),
    {
        out.push(self.packet_type.to_u8());
        write_u16(out, self.local_packet_index);
        write_u16(out, self.last_remote_packet_index);
        write_u32(out, self.ack_field);
        write_u16(out, self.host_tick);
        assert(out@ =~= old(out)@ + encode_header(*self));
    }

    /// Reads a header.
    pub fn read(reader: &mut PacketReader) -> (r: Option<StandardHeader>)
        requires
            old(reader).wf(),
        ensures
            final(reader).wf(),
            final(reader).data() == old(reader).data(),
            match take_header(old(reader).data(), old(reader).pos()) {
                Some((h, end)) => r == Some(h) && final(reader).pos() == end,
                None => r is None && final(reader).pos() == old(reader).pos(),
            },
    {
        let start = reader.get_cursor();
        let type_byte = match reader.read_u8() {
            Some(b) => b,
            None => {
                return None;
            },
        };
        let packet_type = match PacketType::from_u8(type_byte) {
            Some(t) => t,
            None => {
                reader.rewind(start);
                return None;
            },
        };
        let local_packet_index = match reader.read_u16() {
            Some(v) => v,
            None => {
                reader.rewind(start);
                return None;
            },
        };
        let last_remote_packet_index = match reader.read_u16() {
            Some(v) => v,
            None => {
                reader.rewind(start);
                return None;
            },
        };
        let ack_field = match reader.read_u32() {
            Some(v) => v,
            None => {
                reader.rewind(start);
                return None;
            },
        };
        let host_tick = match reader.read_u16() {
            Some(v) => v,
            None => {
                reader.rewind(start);
                return None;
            },
        };
        Some(
            StandardHeader {
                packet_type,
                local_packet_index,
                last_remote_packet_index,
                ack_field,
                host_tick,
            },
        )
    }
}

} // verus!
