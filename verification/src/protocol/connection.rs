use crate::protocol::compression::{bytes_are, spec_encode_compressed, spec_opened};
use crate::protocol::packets::{
    spec_decode_packet, ClientBoundPacket, ServerBoundPacket, ServerBoundPacketView,
};
use crate::protocol::types::{
    lemma_continuation_run_bound, spec_frame_bytes, spec_read_raw, spec_scan_frame, write_bytes,
    ConnectionState, PacketFrame, ProtocolError, ProtocolResult,
};
use crate::world::manager::Entity;
use vstd::prelude::*;

verus! {

/// Whether `state` knows packets with the identifier `id`.
pub open spec fn spec_known_packet(state: ConnectionState, id: i32) -> bool {
    match state {
        ConnectionState::Handshaking => id == 0x00,
        ConnectionState::Status => id == 0x00 || id == 0x01,
        ConnectionState::Login => id == 0x00 || id == 0x01 || id == 0x02,
        ConnectionState::Play => id == 0x0F || id == 0x05 || id == 0x14 || id == 0x15 || id == 0x16
            || id == 0x1A || id == 0x2E || id == 0x0A,
    }
}

/// Whether `state` knows packets with the identifier `id`.
pub fn known_packet(state: ConnectionState, id: i32) -> (r: bool)
    ensures
        r == spec_known_packet(state, id),
{
    match state {
        ConnectionState::Handshaking => id == 0x00,
        ConnectionState::Status => id == 0x00 || id == 0x01,
        ConnectionState::Login => id == 0x00 || id == 0x01 || id == 0x02,
        ConnectionState::Play => id == 0x0F || id == 0x05 || id == 0x14 || id == 0x15 || id == 0x16
            || id == 0x1A || id == 0x2E || id == 0x0A,
    }
}

/// A whole frame at the front of `bytes` is not empty, ends within `bytes`,
/// and its payload lies within it.
pub proof fn lemma_scan_frame_bounds(bytes: Seq<u8>)
    ensures
        spec_scan_frame(bytes) matches Ok(Some((_, body, end))) ==> 0 < body <= end
            <= bytes.len(),
{
    match spec_read_raw(bytes, 0, 5) {
        Some((raw, header)) => {
            lemma_continuation_run_bound(bytes, 0, 5);
            match spec_scan_frame(bytes) {
                Ok(Some((_, body, end))) => {
                    lemma_continuation_run_bound(bytes.subrange(0, end), header, 5);
                },
                _ => {},
            }
        },
        None => {},
    }
}

/// What reading one packet from the buffered bytes gives in `state`, and
/// the bytes that stay buffered. Frames with an identifier that `state` does
/// not know are passed over; that holds of a second login start in the play
/// state too, whose identifier that state does not know. `Ok(None)` stands for "more bytes are needed".
/// On an invalid frame or payload the error is given; an invalid frame
/// stays buffered.
pub open spec fn spec_read_packet(state: ConnectionState, bytes: Seq<u8>) -> (
    ProtocolResult<Option<ServerBoundPacketView>>,
    Seq<u8>,
)
    decreases bytes.len(),
{
    match spec_scan_frame(bytes) {
        Err(e) => (Err(e), bytes),
        Ok(None) => (Ok(None), bytes),
        Ok(Some((id, body, end))) => {
            let rest = bytes.subrange(end, bytes.len() as int);
            if !(0 < end <= bytes.len()) {
                (Err(ProtocolError::InvalidPacket), bytes)
            } else if !spec_known_packet(state, id) {
                spec_read_packet(state, rest)
            } else {
                match spec_decode_packet(state, id, bytes.subrange(body, end)) {
                    Err(e) => (Err(e), rest),
                    Ok(packet) => (Ok(Some(packet)), rest),
                }
            }
        },
    }
}

/// What reading one packet from buffered compressed frames gives in
/// `state`, and the bytes that stay buffered. It is `spec_read_packet` with
/// compressed frames in place of plain ones: a frame that cannot be opened
/// is an error, and its bytes have left the buffer.
pub open spec fn spec_read_compressed(state: ConnectionState, bytes: Seq<u8>) -> (
    ProtocolResult<Option<ServerBoundPacketView>>,
    Seq<u8>,
)
    decreases bytes.len(),
{
    match spec_scan_frame(bytes) {
        Err(e) => (Err(e), bytes),
        Ok(None) => (Ok(None), bytes),
        Ok(Some((marker, start, end))) => {
            let rest = bytes.subrange(end, bytes.len() as int);
            let data = bytes.subrange(start, end);
            if !(0 < end <= bytes.len()) {
                (Err(ProtocolError::InvalidPacket), bytes)
            } else {
                match spec_opened(marker, data) {
                    Err(e) => (Err(e), rest),
                    Ok((id, payload)) => if !spec_known_packet(state, id) {
                        spec_read_compressed(state, rest)
                    } else {
                        match spec_decode_packet(state, id, payload) {
                            Err(e) => (Err(e), rest),
                            Ok(packet) => (Ok(Some(packet)), rest),
                        }
                    },
                }
            }
        },
    }
}

/// One connection: the state it is in, the bytes that have arrived and are
/// not yet read as packets, the compression threshold if one is set, and
/// the entity that the connection plays once it has logged in.
pub struct MinecraftConnection {
    state: ConnectionState,
    read_buffer: Vec<u8>,
    compression_threshold: Option<i32>,
    entity: Option<Entity>,
}

impl MinecraftConnection {
    pub closed spec fn spec_state(&self) -> ConnectionState {
        self.state
    }

    pub closed spec fn spec_buffer(&self) -> Seq<u8> {
        self.read_buffer@
    }

    pub closed spec fn spec_compression(&self) -> Option<i32> {
        self.compression_threshold
    }

    pub closed spec fn spec_entity(&self) -> Option<Entity> {
        self.entity
    }

    /// A connection that has just been accepted.
    pub fn new() -> (r: Self)
        ensures
            r.spec_state() == ConnectionState::Handshaking,
            r.spec_buffer().len() == 0,
            r.spec_compression().is_none(),
            r.spec_entity().is_none(),
    {
        Self {
            state: ConnectionState::Handshaking,
            read_buffer: Vec::new(),
            compression_threshold: None,
            entity: None,
        }
    }

    pub fn state(&self) -> (r: ConnectionState)
        ensures
            r == self.spec_state(),
    {
        self.state
    }

    pub fn set_state(&mut self, state: ConnectionState)
        ensures
            final(self).spec_state() == state,
            final(self).spec_buffer() == old(self).spec_buffer(),
            final(self).spec_compression() == old(self).spec_compression(),
            final(self).spec_entity() == old(self).spec_entity(),
    {
        self.state = state;
    }

    pub fn set_compression(&mut self, threshold: i32)
        ensures
            final(self).spec_compression() == Some(threshold),
            final(self).spec_state() == old(self).spec_state(),
            final(self).spec_buffer() == old(self).spec_buffer(),
            final(self).spec_entity() == old(self).spec_entity(),
    {
        self.compression_threshold = Some(threshold);
    }

    pub fn compression(&self) -> (r: Option<i32>)
        ensures
            r == self.spec_compression(),
    {
        self.compression_threshold
    }

    /// The entity that this connection plays, once it has logged in.
    pub fn entity(&self) -> (r: Option<Entity>)
        ensures
            r == self.spec_entity(),
    {
        self.entity
    }

    /// Binds the connection to the entity that it plays.
    pub fn set_entity(&mut self, entity: Entity)
        ensures
            final(self).spec_entity() == Some(entity),
            final(self).spec_state() == old(self).spec_state(),
            final(self).spec_buffer() == old(self).spec_buffer(),
            final(self).spec_compression() == old(self).spec_compression(),
    {
        self.entity = Some(entity);
    }

    /// Takes in bytes that have arrived.
    pub fn receive(&mut self, bytes: &[u8])
        ensures
            final(self).spec_buffer() == old(self).spec_buffer() + bytes@,
            final(self).spec_state() == old(self).spec_state(),
            final(self).spec_compression() == old(self).spec_compression(),
            final(self).spec_entity() == old(self).spec_entity(),
    {
        write_bytes(&mut self.read_buffer, bytes);
    }

    /// Reads the next packet from the bytes that have arrived, passing over
    /// frames that the state does not know. `Ok(None)` asks for more bytes.
    /// Without a compression threshold the frames are plain and the result
    /// is that of `spec_read_packet`. With one the frames are compressed
    /// frames and the result is that of `spec_read_compressed`.
    pub fn read_packet(&mut self) -> (r: ProtocolResult<Option<ServerBoundPacket>>)
        ensures
            final(self).spec_state() == old(self).spec_state(),
            final(self).spec_compression() == old(self).spec_compression(),
            final(self).spec_entity() == old(self).spec_entity(),
            old(self).spec_compression().is_none() ==> final(self).spec_buffer()
                == spec_read_packet(old(self).spec_state(), old(self).spec_buffer()).1,
            old(self).spec_compression().is_none() ==> (match (
                r,
                spec_read_packet(old(self).spec_state(), old(self).spec_buffer()).0,
            ) {
                (Ok(Some(packet)), Ok(Some(view))) => packet@ == view,
                (Ok(None), Ok(None)) => true,
                (Err(e), Err(f)) => e == f,
                _ => false,
            }),
            old(self).spec_compression().is_some() ==> final(self).spec_buffer()
                == spec_read_compressed(old(self).spec_state(), old(self).spec_buffer()).1,
            old(self).spec_compression().is_some() ==> (match (
                r,
                spec_read_compressed(old(self).spec_state(), old(self).spec_buffer()).0,
            ) {
                (Ok(Some(packet)), Ok(Some(view))) => packet@ == view,
                (Ok(None), Ok(None)) => true,
                (Err(e), Err(f)) => e == f,
                _ => false,
            }),
    {
        if self.compression_threshold.is_some() {
            self.read_compressed()
        } else {
            self.read_plain()
        }
    }

    /// Reads the next packet from plain frames.
    fn read_plain(&mut self) -> (r: ProtocolResult<Option<ServerBoundPacket>>)
        ensures
            final(self).spec_state() == old(self).spec_state(),
            final(self).spec_compression() == old(self).spec_compression(),
            final(self).spec_entity() == old(self).spec_entity(),
            final(self).spec_buffer() == spec_read_packet(
                old(self).spec_state(),
                old(self).spec_buffer(),
            ).1,
            match (r, spec_read_packet(old(self).spec_state(), old(self).spec_buffer()).0) {
                (Ok(Some(packet)), Ok(Some(view))) => packet@ == view,
                (Ok(None), Ok(None)) => true,
                (Err(e), Err(f)) => e == f,
                _ => false,
            },
    {
        loop
            invariant
                self.state == old(self).state,
                self.compression_threshold == old(self).compression_threshold,
                self.entity == old(self).entity,
                spec_read_packet(self.state, self.read_buffer@) == spec_read_packet(
                    old(self).state,
                    old(self).read_buffer@,
                ),
            decreases self.read_buffer@.len(),
        {
            proof {
                lemma_scan_frame_bounds(self.read_buffer@);
            }
            let frame = match PacketFrame::decode(&mut self.read_buffer) {
                Err(e) => { return Err(e); },
                Ok(None) => { return Ok(None); },
                Ok(Some(frame)) => frame,
            };
            if known_packet(self.state, frame.id) {
                return match ServerBoundPacket::decode(self.state, frame.id, frame.data.as_slice()) {
                    Ok(packet) => Ok(Some(packet)),
                    Err(e) => Err(e),
                };
            }
        }
    }

    /// Reads the next packet from compressed frames.
    fn read_compressed(&mut self) -> (r: ProtocolResult<Option<ServerBoundPacket>>)
        ensures
            final(self).spec_state() == old(self).spec_state(),
            final(self).spec_compression() == old(self).spec_compression(),
            final(self).spec_entity() == old(self).spec_entity(),
            final(self).spec_buffer() == spec_read_compressed(
                old(self).spec_state(),
                old(self).spec_buffer(),
            ).1,
            match (r, spec_read_compressed(old(self).spec_state(), old(self).spec_buffer()).0) {
                (Ok(Some(packet)), Ok(Some(view))) => packet@ == view,
                (Ok(None), Ok(None)) => true,
                (Err(e), Err(f)) => e == f,
                _ => false,
            },
    {
        loop
            invariant
                self.state == old(self).state,
                self.compression_threshold == old(self).compression_threshold,
                self.entity == old(self).entity,
                spec_read_compressed(self.state, self.read_buffer@) == spec_read_compressed(
                    old(self).state,
                    old(self).read_buffer@,
                ),
            decreases self.read_buffer@.len(),
        {
            let ghost before = self.read_buffer@;
            proof {
                lemma_scan_frame_bounds(before);
            }
            let frame = match PacketFrame::decode_compressed(&mut self.read_buffer) {
                Err(e) => { return Err(e); },
                Ok(None) => { return Ok(None); },
                Ok(Some(frame)) => frame,
            };
            if known_packet(self.state, frame.id) {
                return match ServerBoundPacket::decode(self.state, frame.id, frame.data.as_slice()) {
                    Ok(packet) => Ok(Some(packet)),
                    Err(e) => Err(e),
                };
            }
        }
    }

    /// Whether the stream may end here: it may where no bytes are left
    /// unread, and otherwise the bytes left are a broken packet.
    pub fn finish(&self) -> (r: ProtocolResult<()>)
        ensures
            r == if self.spec_buffer().len() == 0 {
                Ok::<(), ProtocolError>(())
            } else {
                Err::<(), ProtocolError>(ProtocolError::InvalidPacket)
            },
    {
        if self.read_buffer.len() == 0 {
            Ok(())
        } else {
            Err(ProtocolError::InvalidPacket)
        }
    }

    /// The bytes that carry `packet` over the stream: its frame, plain
    /// without a compression threshold and as `spec_encode_compressed` says
    /// with one. A packet that is too long for its length to be written, or
    /// that cannot be compressed, is an invalid packet.
    pub fn write_packet(&self, packet: &ClientBoundPacket) -> (r: ProtocolResult<Vec<u8>>)
        ensures
            match packet.spec_payload() {
                Err(e) => r matches Err(f) && f == e,
                Ok(payload) => match self.spec_compression() {
                    None => if payload.len() + 5 <= i32::MAX {
                        r matches Ok(bytes) && bytes@ == spec_frame_bytes(
                            packet.spec_packet_id(),
                            payload,
                        )
                    } else {
                        r matches Err(f) && f == ProtocolError::InvalidPacket
                    },
                    Some(threshold) => match spec_encode_compressed(
                        packet.spec_packet_id(),
                        payload,
                        threshold,
                    ) {
                        Some(framed) => r matches Ok(bytes) && bytes@ == framed,
                        None => r matches Err(f) && f == ProtocolError::InvalidPacket,
                    },
                },
            },
    {
        let frame = packet.encode()?;
        match self.compression_threshold {
            None => {
                if frame.data.len() > 0x7fff_fffa {
                    return Err(ProtocolError::InvalidPacket);
                }
                Ok(frame.encode())
            },
            Some(threshold) => match frame.encode_compressed(threshold) {
                Some(bytes) => Ok(bytes),
                None => Err(ProtocolError::InvalidPacket),
            },
        }
    }

    /// The packet that tells the client why it is disconnected, in the
    /// states that have one.
    pub fn disconnect(&self, reason: &str) -> (r: Option<ClientBoundPacket>)
        ensures
            match self.spec_state() {
                ConnectionState::Login => r matches Some(
                    ClientBoundPacket::LoginDisconnect { reason: text },
                ) && text@ == reason@,
                ConnectionState::Play => r matches Some(
                    ClientBoundPacket::PlayDisconnect { reason: text },
                ) && text@ == reason@,
                _ => r.is_none(),
            },
    {
        match self.state {
            ConnectionState::Login => Some(
                ClientBoundPacket::LoginDisconnect { reason: reason.to_owned() },
            ),
            ConnectionState::Play => Some(
                ClientBoundPacket::PlayDisconnect { reason: reason.to_owned() },
            ),
            _ => None,
        }
    }
}

} // verus!
