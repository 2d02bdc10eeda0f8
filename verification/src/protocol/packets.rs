use crate::protocol::types::{
    be128, be128_bytes, be16, be16_bytes, be32, be32_bytes, be64, be64_bytes, copy_range,
    read_i64, read_i8, read_position, read_string, read_u16, read_u32, read_u64, read_u8,
    read_uuid, read_varint, signed64, signed8, spec_encode_string, spec_encode_varint,
    spec_read_string, spec_read_varint, spec_unpack_position, unsigned16, unsigned32, unsigned64,
    unsigned8, write_bytes, write_i16, write_i32, write_i64, write_i8, write_string, write_u32,
    write_u64, write_uuid, write_varint, ConnectionState, PacketFrame, ProtocolError,
    ProtocolResult,
};
use vstd::prelude::*;
use vstd::utf8::encode_utf8;

verus! {

/// A packet that a client sends. Floating-point fields are carried as their
/// IEEE 754 bit patterns, exactly as they travel.
#[derive(Debug)]
#[allow(inconsistent_fields)]
pub enum ServerBoundPacket {
    Handshake { protocol_version: i32, server_address: String, server_port: u16, next_state: i32 },
    StatusRequest,
    StatusPing { payload: i64 },
    LoginStart { name: String, uuid: Option<u128> },
    LoginEncryptionResponse { shared_secret: Vec<u8>, verify_token: Vec<u8> },
    LoginPluginResponse { message_id: i32, data: Option<Vec<u8>> },
    KeepAlive { id: i64 },
    ChatMessage { message: String },
    PlayerPosition { x: u64, y: u64, z: u64, on_ground: bool },
    PlayerRotation { yaw: u32, pitch: u32, on_ground: bool },
    PlayerPositionAndRotation { x: u64, y: u64, z: u64, yaw: u32, pitch: u32, on_ground: bool },
    PlayerDigging { status: i32, location: (i32, i32, i32), face: i8 },
    PlayerBlockPlacement {
        location: (i32, i32, i32),
        face: i32,
        hand: i32,
        cursor_x: u32,
        cursor_y: u32,
        cursor_z: u32,
        inside_block: bool,
    },
    PluginMessage { channel: String, data: Vec<u8> },
}

/// What a `ServerBoundPacket` holds, as mathematical values.
#[allow(inconsistent_fields)]
pub ghost enum ServerBoundPacketView {
    Handshake {
        protocol_version: i32,
        server_address: Seq<char>,
        server_port: u16,
        next_state: i32,
    },
    StatusRequest,
    StatusPing { payload: i64 },
    LoginStart { name: Seq<char>, uuid: Option<u128> },
    LoginEncryptionResponse { shared_secret: Seq<u8>, verify_token: Seq<u8> },
    LoginPluginResponse { message_id: i32, data: Option<Seq<u8>> },
    KeepAlive { id: i64 },
    ChatMessage { message: Seq<char> },
    PlayerPosition { x: u64, y: u64, z: u64, on_ground: bool },
    PlayerRotation { yaw: u32, pitch: u32, on_ground: bool },
    PlayerPositionAndRotation { x: u64, y: u64, z: u64, yaw: u32, pitch: u32, on_ground: bool },
    PlayerDigging { status: i32, location: (i32, i32, i32), face: i8 },
    PlayerBlockPlacement {
        location: (i32, i32, i32),
        face: i32,
        hand: i32,
        cursor_x: u32,
        cursor_y: u32,
        cursor_z: u32,
        inside_block: bool,
    },
    PluginMessage { channel: Seq<char>, data: Seq<u8> },
}

impl View for ServerBoundPacket {
    type V = ServerBoundPacketView;

    open spec fn view(&self) -> ServerBoundPacketView {
        match *self {
            ServerBoundPacket::Handshake {
                protocol_version,
                server_address,
                server_port,
                next_state,
            } => ServerBoundPacketView::Handshake {
                protocol_version,
                server_address: server_address@,
                server_port,
                next_state,
            },
            ServerBoundPacket::StatusRequest => ServerBoundPacketView::StatusRequest,
            ServerBoundPacket::StatusPing { payload } => ServerBoundPacketView::StatusPing {
                payload,
            },
            ServerBoundPacket::LoginStart { name, uuid } => ServerBoundPacketView::LoginStart {
                name: name@,
                uuid,
            },
            ServerBoundPacket::LoginEncryptionResponse { shared_secret, verify_token } =>
                ServerBoundPacketView::LoginEncryptionResponse {
                shared_secret: shared_secret@,
                verify_token: verify_token@,
            },
            ServerBoundPacket::LoginPluginResponse { message_id, data } =>
                ServerBoundPacketView::LoginPluginResponse {
                message_id,
                data: match data {
                    Some(bytes) => Some(bytes@),
                    None => None,
                },
            },
            ServerBoundPacket::KeepAlive { id } => ServerBoundPacketView::KeepAlive { id },
            ServerBoundPacket::ChatMessage { message } => ServerBoundPacketView::ChatMessage {
                message: message@,
            },
            ServerBoundPacket::PlayerPosition { x, y, z, on_ground } =>
                ServerBoundPacketView::PlayerPosition { x, y, z, on_ground },
            ServerBoundPacket::PlayerRotation { yaw, pitch, on_ground } =>
                ServerBoundPacketView::PlayerRotation { yaw, pitch, on_ground },
            ServerBoundPacket::PlayerPositionAndRotation { x, y, z, yaw, pitch, on_ground } =>
                ServerBoundPacketView::PlayerPositionAndRotation {
                x,
                y,
                z,
                yaw,
                pitch,
                on_ground,
            },
            ServerBoundPacket::PlayerDigging { status, location, face } =>
                ServerBoundPacketView::PlayerDigging { status, location, face },
            ServerBoundPacket::PlayerBlockPlacement {
                location,
                face,
                hand,
                cursor_x,
                cursor_y,
                cursor_z,
                inside_block,
            } => ServerBoundPacketView::PlayerBlockPlacement {
                location,
                face,
                hand,
                cursor_x,
                cursor_y,
                cursor_z,
                inside_block,
            },
            ServerBoundPacket::PluginMessage { channel, data } =>
                ServerBoundPacketView::PluginMessage { channel: channel@, data: data@ },
        }
    }
}

/// `count` bytes at `pos` read as one big-endian number, where they are there.
pub open spec fn spec_read_be(bytes: Seq<u8>, pos: int, count: int) -> ProtocolResult<(nat, int)> {
    if pos < 0 || pos + count > bytes.len() {
        Err(ProtocolError::InvalidPacket)
    } else if count == 1 {
        Ok((bytes[pos] as nat, pos + 1))
    } else if count == 2 {
        Ok((be16(bytes, pos), pos + 2))
    } else if count == 4 {
        Ok((be32(bytes, pos), pos + 4))
    } else if count == 8 {
        Ok((be64(bytes, pos), pos + 8))
    } else {
        Ok((be128(bytes, pos), pos + 16))
    }
}

/// Whether a decoder's result is the one that the model gives.
pub open spec fn decoded_as(
    r: ProtocolResult<ServerBoundPacket>,
    expected: ProtocolResult<ServerBoundPacketView>,
) -> bool {
    match (r, expected) {
        (Ok(packet), Ok(view)) => packet@ == view,
        (Err(e), Err(f)) => e == f,
        _ => false,
    }
}

/// A block of bytes at `pos`: a variable-length count, then that many bytes.
pub open spec fn spec_read_block(bytes: Seq<u8>, pos: int) -> ProtocolResult<(Seq<u8>, int)> {
    match spec_read_varint(bytes, pos) {
        Err(e) => Err(e),
        Ok((len, start)) => {
            if len < 0 || bytes.len() - start < len {
                Err(ProtocolError::InvalidPacket)
            } else {
                Ok((bytes.subrange(start, start + len), start + len))
            }
        },
    }
}

fn read_block(data: &[u8], pos: usize) -> (r: ProtocolResult<(Vec<u8>, usize)>)
    ensures
        match (r, spec_read_block(data@, pos as int)) {
            (Ok((block, next)), Ok((spec_block, spec_next))) => block@ == spec_block && next
                == spec_next && next <= data@.len(),
            (Err(e), Err(f)) => e == f,
            _ => false,
        },
{
    let (declared, start) = read_varint(data, pos)?;
    if declared < 0 || data.len() - start < declared as usize {
        return Err(ProtocolError::InvalidPacket);
    }
    let end: usize = start + declared as usize;
    Ok((copy_range(data, start, end), end))
}

/// The handshake that `data` holds: protocol version, server address of at
/// most 255 characters, port, and the state asked for.
pub open spec fn spec_decode_handshake(data: Seq<u8>) -> ProtocolResult<ServerBoundPacketView> {
    match spec_read_varint(data, 0) {
        Err(e) => Err(e),
        Ok((protocol_version, p1)) => match spec_read_string(data, p1, 255) {
            Err(e) => Err(e),
            Ok((server_address, p2)) => match spec_read_be(data, p2, 2) {
                Err(e) => Err(e),
                Ok((port, p3)) => match spec_read_varint(data, p3) {
                    Err(e) => Err(e),
                    Ok((next_state, _)) => Ok(
                        ServerBoundPacketView::Handshake {
                            protocol_version,
                            server_address,
                            server_port: port as u16,
                            next_state,
                        },
                    ),
                },
            },
        },
    }
}

fn decode_handshake(data: &[u8]) -> (r: ProtocolResult<ServerBoundPacket>)
    ensures
        decoded_as(r, spec_decode_handshake(data@)),
{
    let (protocol_version, p1) = read_varint(data, 0)?;
    let (server_address, p2) = read_string(data, p1, 255)?;
    let (server_port, p3) = read_u16(data, p2)?;
    let (next_state, _) = read_varint(data, p3)?;
    Ok(ServerBoundPacket::Handshake { protocol_version, server_address, server_port, next_state })
}

/// The eight bytes at the front of `data` as a signed number.
pub open spec fn spec_decode_long(data: Seq<u8>) -> ProtocolResult<i64> {
    match spec_read_be(data, 0, 8) {
        Err(e) => Err(e),
        Ok((raw, _)) => Ok(signed64(raw)),
    }
}

/// The login start that `data` holds: a name of at most 16 characters and,
/// where at least sixteen bytes follow it, an identifier.
pub open spec fn spec_decode_login_start(data: Seq<u8>) -> ProtocolResult<ServerBoundPacketView> {
    match spec_read_string(data, 0, 16) {
        Err(e) => Err(e),
        Ok((name, p1)) => {
            if data.len() - p1 >= 16 {
                Ok(ServerBoundPacketView::LoginStart { name, uuid: Some(be128(data, p1) as u128) })
            } else {
                Ok(ServerBoundPacketView::LoginStart { name, uuid: None })
            }
        },
    }
}

fn decode_login_start(data: &[u8]) -> (r: ProtocolResult<ServerBoundPacket>)
    ensures
        decoded_as(r, spec_decode_login_start(data@)),
{
    let (name, p1) = read_string(data, 0, 16)?;
    if data.len() - p1 >= 16 {
        let (uuid, _) = read_uuid(data, p1)?;
        Ok(ServerBoundPacket::LoginStart { name, uuid: Some(uuid) })
    } else {
        Ok(ServerBoundPacket::LoginStart { name, uuid: None })
    }
}

/// The encryption response that `data` holds: two blocks of bytes.
pub open spec fn spec_decode_encryption_response(data: Seq<u8>) -> ProtocolResult<
    ServerBoundPacketView,
> {
    match spec_read_block(data, 0) {
        Err(e) => Err(e),
        Ok((shared_secret, p1)) => match spec_read_block(data, p1) {
            Err(e) => Err(e),
            Ok((verify_token, _)) => Ok(
                ServerBoundPacketView::LoginEncryptionResponse { shared_secret, verify_token },
            ),
        },
    }
}

fn decode_encryption_response(data: &[u8]) -> (r: ProtocolResult<ServerBoundPacket>)
    ensures
        decoded_as(r, spec_decode_encryption_response(data@)),
{
    let (shared_secret, p1) = read_block(data, 0)?;
    let (verify_token, _) = read_block(data, p1)?;
    Ok(ServerBoundPacket::LoginEncryptionResponse { shared_secret, verify_token })
}

/// The plugin response that `data` holds: a message number, a flag, and,
/// where the flag is set, all bytes that follow.
pub open spec fn spec_decode_plugin_response(data: Seq<u8>) -> ProtocolResult<
    ServerBoundPacketView,
> {
    match spec_read_varint(data, 0) {
        Err(e) => Err(e),
        Ok((message_id, p1)) => match spec_read_be(data, p1, 1) {
            Err(e) => Err(e),
            Ok((flag, p2)) => Ok(
                ServerBoundPacketView::LoginPluginResponse {
                    message_id,
                    data: if flag != 0 {
                        Some(data.subrange(p2, data.len() as int))
                    } else {
                        None
                    },
                },
            ),
        },
    }
}

fn decode_plugin_response(data: &[u8]) -> (r: ProtocolResult<ServerBoundPacket>)
    ensures
        decoded_as(r, spec_decode_plugin_response(data@)),
{
    let (message_id, p1) = read_varint(data, 0)?;
    let (flag, p2) = read_u8(data, p1)?;
    if flag != 0 {
        Ok(
            ServerBoundPacket::LoginPluginResponse {
                message_id,
                data: Some(copy_range(data, p2, data.len())),
            },
        )
    } else {
        Ok(ServerBoundPacket::LoginPluginResponse { message_id, data: None })
    }
}

/// The chat message that `data` holds: a string of at most 256 characters.
pub open spec fn spec_decode_chat(data: Seq<u8>) -> ProtocolResult<ServerBoundPacketView> {
    match spec_read_string(data, 0, 256) {
        Err(e) => Err(e),
        Ok((message, _)) => Ok(ServerBoundPacketView::ChatMessage { message }),
    }
}

/// The player position that `data` holds: three 64-bit coordinates and the
/// on-ground flag.
pub open spec fn spec_decode_player_position(data: Seq<u8>) -> ProtocolResult<
    ServerBoundPacketView,
> {
    if data.len() < 25 {
        Err(ProtocolError::InvalidPacket)
    } else {
        Ok(
            ServerBoundPacketView::PlayerPosition {
                x: be64(data, 0) as u64,
                y: be64(data, 8) as u64,
                z: be64(data, 16) as u64,
                on_ground: data[24] != 0,
            },
        )
    }
}

fn decode_player_position(data: &[u8]) -> (r: ProtocolResult<ServerBoundPacket>)
    ensures
        decoded_as(r, spec_decode_player_position(data@)),
{
    let (x, p1) = read_u64(data, 0)?;
    let (y, p2) = read_u64(data, p1)?;
    let (z, p3) = read_u64(data, p2)?;
    let (flag, _) = read_u8(data, p3)?;
    Ok(ServerBoundPacket::PlayerPosition { x, y, z, on_ground: flag != 0 })
}

/// The player rotation that `data` holds: yaw and pitch of 32 bits each and
/// the on-ground flag.
pub open spec fn spec_decode_player_rotation(data: Seq<u8>) -> ProtocolResult<
    ServerBoundPacketView,
> {
    if data.len() < 9 {
        Err(ProtocolError::InvalidPacket)
    } else {
        Ok(
            ServerBoundPacketView::PlayerRotation {
                yaw: be32(data, 0) as u32,
                pitch: be32(data, 4) as u32,
                on_ground: data[8] != 0,
            },
        )
    }
}

fn decode_player_rotation(data: &[u8]) -> (r: ProtocolResult<ServerBoundPacket>)
    ensures
        decoded_as(r, spec_decode_player_rotation(data@)),
{
    let (yaw, p1) = read_u32(data, 0)?;
    let (pitch, p2) = read_u32(data, p1)?;
    let (flag, _) = read_u8(data, p2)?;
    Ok(ServerBoundPacket::PlayerRotation { yaw, pitch, on_ground: flag != 0 })
}

/// The player position and rotation that `data` holds.
pub open spec fn spec_decode_player_position_and_rotation(data: Seq<u8>) -> ProtocolResult<
    ServerBoundPacketView,
> {
    if data.len() < 33 {
        Err(ProtocolError::InvalidPacket)
    } else {
        Ok(
            ServerBoundPacketView::PlayerPositionAndRotation {
                x: be64(data, 0) as u64,
                y: be64(data, 8) as u64,
                z: be64(data, 16) as u64,
                yaw: be32(data, 24) as u32,
                pitch: be32(data, 28) as u32,
                on_ground: data[32] != 0,
            },
        )
    }
}

fn decode_player_position_and_rotation(data: &[u8]) -> (r: ProtocolResult<ServerBoundPacket>)
    ensures
        decoded_as(r, spec_decode_player_position_and_rotation(data@)),
{
    let (x, p1) = read_u64(data, 0)?;
    let (y, p2) = read_u64(data, p1)?;
    let (z, p3) = read_u64(data, p2)?;
    let (yaw, p4) = read_u32(data, p3)?;
    let (pitch, p5) = read_u32(data, p4)?;
    let (flag, _) = read_u8(data, p5)?;
    Ok(ServerBoundPacket::PlayerPositionAndRotation { x, y, z, yaw, pitch, on_ground: flag != 0 })
}

/// The digging action that `data` holds: a status, a packed block position
/// and a face.
pub open spec fn spec_decode_digging(data: Seq<u8>) -> ProtocolResult<ServerBoundPacketView> {
    match spec_read_varint(data, 0) {
        Err(e) => Err(e),
        Ok((status, p1)) => {
            if data.len() - p1 < 9 {
                Err(ProtocolError::InvalidPacket)
            } else {
                Ok(
                    ServerBoundPacketView::PlayerDigging {
                        status,
                        location: spec_unpack_position(be64(data, p1)),
                        face: signed8(data[p1 + 8]),
                    },
                )
            }
        },
    }
}

fn decode_digging(data: &[u8]) -> (r: ProtocolResult<ServerBoundPacket>)
    ensures
        decoded_as(r, spec_decode_digging(data@)),
{
    let (status, p1) = read_varint(data, 0)?;
    let (location, p2) = read_position(data, p1)?;
    let (face, _) = read_i8(data, p2)?;
    Ok(ServerBoundPacket::PlayerDigging { status, location, face })
}

/// The block placement that `data` holds: the hand, a packed block position,
/// the face, three 32-bit cursor coordinates and the inside-block flag.
pub open spec fn spec_decode_block_placement(data: Seq<u8>) -> ProtocolResult<
    ServerBoundPacketView,
> {
    match spec_read_varint(data, 0) {
        Err(e) => Err(e),
        Ok((hand, p1)) => match spec_read_be(data, p1, 8) {
            Err(e) => Err(e),
            Ok((packed, p2)) => match spec_read_varint(data, p2) {
                Err(e) => Err(e),
                Ok((face, p3)) => {
                    if data.len() - p3 < 13 {
                        Err(ProtocolError::InvalidPacket)
                    } else {
                        Ok(
                            ServerBoundPacketView::PlayerBlockPlacement {
                                location: spec_unpack_position(packed),
                                face,
                                hand,
                                cursor_x: be32(data, p3) as u32,
                                cursor_y: be32(data, p3 + 4) as u32,
                                cursor_z: be32(data, p3 + 8) as u32,
                                inside_block: data[p3 + 12] != 0,
                            },
                        )
                    }
                },
            },
        },
    }
}

fn decode_block_placement(data: &[u8]) -> (r: ProtocolResult<ServerBoundPacket>)
    ensures
        decoded_as(r, spec_decode_block_placement(data@)),
{
    let (hand, p1) = read_varint(data, 0)?;
    let (location, p2) = read_position(data, p1)?;
    let (face, p3) = read_varint(data, p2)?;
    let (cursor_x, p4) = read_u32(data, p3)?;
    let (cursor_y, p5) = read_u32(data, p4)?;
    let (cursor_z, p6) = read_u32(data, p5)?;
    let (flag, _) = read_u8(data, p6)?;
    Ok(
        ServerBoundPacket::PlayerBlockPlacement {
            location,
            face,
            hand,
            cursor_x,
            cursor_y,
            cursor_z,
            inside_block: flag != 0,
        },
    )
}

/// The plugin message that `data` holds: a channel name of at most 256
/// characters, then all bytes that follow.
pub open spec fn spec_decode_plugin_message(data: Seq<u8>) -> ProtocolResult<
    ServerBoundPacketView,
> {
    match spec_read_string(data, 0, 256) {
        Err(e) => Err(e),
        Ok((channel, p1)) => Ok(
            ServerBoundPacketView::PluginMessage {
                channel,
                data: data.subrange(p1, data.len() as int),
            },
        ),
    }
}

fn decode_plugin_message(data: &[u8]) -> (r: ProtocolResult<ServerBoundPacket>)
    ensures
        decoded_as(r, spec_decode_plugin_message(data@)),
{
    let (channel, p1) = read_string(data, 0, 256)?;
    Ok(ServerBoundPacket::PluginMessage { channel, data: copy_range(data, p1, data.len()) })
}

/// The packet that identifier `id` and payload `data` stand for in `state`.
/// An identifier that `state` does not know, and a payload that ends early
/// or is malformed, are invalid.
pub open spec fn spec_decode_packet(state: ConnectionState, id: i32, data: Seq<u8>) -> ProtocolResult<
    ServerBoundPacketView,
> {
    match state {
        ConnectionState::Handshaking => if id == 0x00 {
            spec_decode_handshake(data)
        } else {
            Err(ProtocolError::InvalidPacket)
        },
        ConnectionState::Status => if id == 0x00 {
            Ok(ServerBoundPacketView::StatusRequest)
        } else if id == 0x01 {
            match spec_decode_long(data) {
                Err(e) => Err(e),
                Ok(payload) => Ok(ServerBoundPacketView::StatusPing { payload }),
            }
        } else {
            Err(ProtocolError::InvalidPacket)
        },
        ConnectionState::Login => if id == 0x00 {
            spec_decode_login_start(data)
        } else if id == 0x01 {
            spec_decode_encryption_response(data)
        } else if id == 0x02 {
            spec_decode_plugin_response(data)
        } else {
            Err(ProtocolError::InvalidPacket)
        },
        ConnectionState::Play => if id == 0x0F {
            match spec_decode_long(data) {
                Err(e) => Err(e),
                Ok(id) => Ok(ServerBoundPacketView::KeepAlive { id }),
            }
        } else if id == 0x05 {
            spec_decode_chat(data)
        } else if id == 0x14 {
            spec_decode_player_position(data)
        } else if id == 0x15 {
            spec_decode_player_rotation(data)
        } else if id == 0x16 {
            spec_decode_player_position_and_rotation(data)
        } else if id == 0x1A {
            spec_decode_digging(data)
        } else if id == 0x2E {
            spec_decode_block_placement(data)
        } else if id == 0x0A {
            spec_decode_plugin_message(data)
        } else {
            Err(ProtocolError::InvalidPacket)
        },
    }
}

impl ServerBoundPacket {
    /// Reads the packet with identifier `id` and payload `data` as the
    /// connection state `state` asks.
    pub fn decode(state: ConnectionState, id: i32, data: &[u8]) -> (r: ProtocolResult<Self>)
        ensures
            decoded_as(r, spec_decode_packet(state, id, data@)),
    {
        match state {
            ConnectionState::Handshaking => match id {
                0x00 => decode_handshake(data),
                _ => Err(ProtocolError::InvalidPacket),
            },
            ConnectionState::Status => match id {
                0x00 => Ok(ServerBoundPacket::StatusRequest),
                0x01 => {
                    let (payload, _) = read_i64(data, 0)?;
                    Ok(ServerBoundPacket::StatusPing { payload })
                },
                _ => Err(ProtocolError::InvalidPacket),
            },
            ConnectionState::Login => match id {
                0x00 => decode_login_start(data),
                0x01 => decode_encryption_response(data),
                0x02 => decode_plugin_response(data),
                _ => Err(ProtocolError::InvalidPacket),
            },
            ConnectionState::Play => match id {
                0x0F => {
                    let (id, _) = read_i64(data, 0)?;
                    Ok(ServerBoundPacket::KeepAlive { id })
                },
                0x05 => {
                    let (message, _) = read_string(data, 0, 256)?;
                    Ok(ServerBoundPacket::ChatMessage { message })
                },
                0x14 => decode_player_position(data),
                0x15 => decode_player_rotation(data),
                0x16 => decode_player_position_and_rotation(data),
                0x1A => decode_digging(data),
                0x2E => decode_block_placement(data),
                0x0A => decode_plugin_message(data),
                _ => Err(ProtocolError::InvalidPacket),
            },
        }
    }
}

/// The registry data of a join-game packet, which this server leaves empty.
#[derive(Debug, Clone, Copy, Default)]
pub struct Blob;

/// A packet that the server sends. Floating-point fields are carried as
/// their IEEE 754 bit patterns, exactly as they travel.
#[derive(Debug)]
#[allow(inconsistent_fields)]
pub enum ClientBoundPacket {
    StatusResponse { json: String },
    StatusPong { payload: i64 },
    LoginDisconnect { reason: String },
    LoginEncryptionRequest { server_id: String, public_key: Vec<u8>, verify_token: Vec<u8> },
    LoginSuccess { uuid: u128, username: String },
    LoginSetCompression { threshold: i32 },
    LoginPluginRequest { message_id: i32, channel: String, data: Vec<u8> },
    PlayDisconnect { reason: String },
    KeepAlive { id: i64 },
    JoinGame {
        entity_id: i32,
        is_hardcore: bool,
        gamemode: u8,
        previous_gamemode: i8,
        dimension_names: Vec<String>,
        registry_codec: Blob,
        dimension_type: String,
        dimension_name: String,
        hashed_seed: i64,
        max_players: i32,
        view_distance: i32,
        simulation_distance: i32,
        reduced_debug_info: bool,
        enable_respawn_screen: bool,
        is_debug: bool,
        is_flat: bool,
    },
    ChunkData { x: i32, z: i32, data: Vec<u8> },
    SpawnPlayer { entity_id: i32, uuid: u128, x: u64, y: u64, z: u64, yaw: u8, pitch: u8 },
    EntityPosition { entity_id: i32, delta_x: i16, delta_y: i16, delta_z: i16, on_ground: bool },
    EntityRotation { entity_id: i32, yaw: u8, pitch: u8, on_ground: bool },
    EntityPositionAndRotation {
        entity_id: i32,
        delta_x: i16,
        delta_y: i16,
        delta_z: i16,
        yaw: u8,
        pitch: u8,
        on_ground: bool,
    },
    PlayerPositionAndLook {
        x: u64,
        y: u64,
        z: u64,
        yaw: u32,
        pitch: u32,
        flags: u8,
        teleport_id: i32,
        dismount_vehicle: bool,
    },
    PluginMessage { channel: String, data: Vec<u8> },
    ChatMessage { message: String, position: i8, sender: u128 },
}

/// The bytes of a string field, where its length can be written.
pub open spec fn spec_string_field(text: Seq<char>) -> ProtocolResult<Seq<u8>> {
    if encode_utf8(text).len() > i32::MAX {
        Err(ProtocolError::StringTooLong)
    } else {
        Ok(spec_encode_string(text))
    }
}

/// The bytes of a counted block of bytes, where its length can be written.
pub open spec fn spec_block_field(bytes: Seq<u8>) -> ProtocolResult<Seq<u8>> {
    if bytes.len() > i32::MAX {
        Err(ProtocolError::InvalidPacket)
    } else {
        Ok(spec_encode_varint(bytes.len() as i32) + bytes)
    }
}

/// One field after another: the first error, or both runs of bytes in order.
pub open spec fn spec_then(first: ProtocolResult<Seq<u8>>, second: ProtocolResult<Seq<u8>>)
    -> ProtocolResult<Seq<u8>> {
    match first {
        Err(e) => Err(e),
        Ok(a) => match second {
            Err(e) => Err(e),
            Ok(b) => Ok(a + b),
        },
    }
}

/// The byte that stands for a flag.
pub open spec fn spec_flag(flag: bool) -> Seq<u8> {
    seq![if flag { 1u8 } else { 0u8 }]
}

fn write_flag(buf: &mut Vec<u8>, flag: bool)
    ensures
        final(buf)@ == old(buf)@ + spec_flag(flag),
{
    let ghost before = buf@;
    buf.push(if flag { 1u8 } else { 0u8 });
    assert(buf@ =~= before + spec_flag(flag));
}

fn write_byte(buf: &mut Vec<u8>, byte: u8)
    ensures
        final(buf)@ == old(buf)@ + seq![byte],
{
    let ghost before = buf@;
    buf.push(byte);
    assert(buf@ =~= before + seq![byte]);
}

/// Appends a string field, or refuses one whose length cannot be written.
fn write_string_field(buf: &mut Vec<u8>, text: &str) -> (r: ProtocolResult<()>)
    ensures
        match spec_string_field(text@) {
            Ok(bytes) => r is Ok && final(buf)@ == old(buf)@ + bytes,
            Err(e) => r == Err::<(), ProtocolError>(e) && final(buf)@ == old(buf)@,
        },
{
    if text.as_bytes().len() > 0x7fff_ffff {
        return Err(ProtocolError::StringTooLong);
    }
    write_string(buf, text);
    Ok(())
}

/// Appends a counted block of bytes, or refuses one whose length cannot be
/// written.
fn write_block_field(buf: &mut Vec<u8>, bytes: &[u8]) -> (r: ProtocolResult<()>)
    ensures
        match spec_block_field(bytes@) {
            Ok(field) => r is Ok && final(buf)@ == old(buf)@ + field,
            Err(e) => r == Err::<(), ProtocolError>(e) && final(buf)@ == old(buf)@,
        },
{
    if bytes.len() > 0x7fff_ffff {
        return Err(ProtocolError::InvalidPacket);
    }
    let ghost before = buf@;
    write_varint(buf, bytes.len() as i32);
    write_bytes(buf, bytes);
    assert(buf@ =~= before + (spec_encode_varint(bytes@.len() as i32) + bytes@));
    Ok(())
}

impl ClientBoundPacket {
    /// The identifier under which this packet travels.
    pub open spec fn spec_packet_id(&self) -> i32 {
        match *self {
            ClientBoundPacket::StatusResponse { .. } => 0x00,
            ClientBoundPacket::StatusPong { .. } => 0x01,
            ClientBoundPacket::LoginDisconnect { .. } => 0x00,
            ClientBoundPacket::LoginEncryptionRequest { .. } => 0x01,
            ClientBoundPacket::LoginSuccess { .. } => 0x02,
            ClientBoundPacket::LoginSetCompression { .. } => 0x03,
            ClientBoundPacket::LoginPluginRequest { .. } => 0x04,
            ClientBoundPacket::PlayDisconnect { .. } => 0x1A,
            ClientBoundPacket::KeepAlive { .. } => 0x21,
            ClientBoundPacket::JoinGame { .. } => 0x26,
            ClientBoundPacket::ChunkData { .. } => 0x22,
            ClientBoundPacket::SpawnPlayer { .. } => 0x02,
            ClientBoundPacket::EntityPosition { .. } => 0x29,
            ClientBoundPacket::EntityRotation { .. } => 0x2B,
            ClientBoundPacket::EntityPositionAndRotation { .. } => 0x2A,
            ClientBoundPacket::PlayerPositionAndLook { .. } => 0x38,
            ClientBoundPacket::PluginMessage { .. } => 0x18,
            ClientBoundPacket::ChatMessage { .. } => 0x0F,
        }
    }

    /// The payload of this packet, field by field in the order of travel; an
    /// error where a string or a counted block is too long for its length to
    /// be written. A join-game packet travels without payload.
    #[verifier::opaque]
    pub open spec fn spec_payload(&self) -> ProtocolResult<Seq<u8>> {
        match *self {
            ClientBoundPacket::StatusResponse { json } => spec_string_field(json@),
            ClientBoundPacket::StatusPong { payload } => Ok(be64_bytes(unsigned64(payload))),
            ClientBoundPacket::LoginDisconnect { reason } => spec_string_field(reason@),
            ClientBoundPacket::LoginEncryptionRequest { server_id, public_key, verify_token } =>
                spec_then(
                spec_then(spec_string_field(server_id@), spec_block_field(public_key@)),
                spec_block_field(verify_token@),
            ),
            ClientBoundPacket::LoginSuccess { uuid, username } => spec_then(
                spec_then(Ok(be128_bytes(uuid as nat)), spec_string_field(username@)),
                Ok(spec_encode_varint(0)),
            ),
            ClientBoundPacket::LoginSetCompression { threshold } => Ok(
                spec_encode_varint(threshold),
            ),
            ClientBoundPacket::LoginPluginRequest { message_id, channel, data } => spec_then(
                spec_then(Ok(spec_encode_varint(message_id)), spec_string_field(channel@)),
                Ok(data@),
            ),
            ClientBoundPacket::PlayDisconnect { reason } => spec_string_field(reason@),
            ClientBoundPacket::KeepAlive { id } => Ok(be64_bytes(unsigned64(id))),
            ClientBoundPacket::JoinGame { .. } => Ok(Seq::empty()),
            ClientBoundPacket::ChunkData { x, z, data } => Ok(
                be32_bytes(unsigned32(x)) + be32_bytes(unsigned32(z)) + data@,
            ),
            ClientBoundPacket::SpawnPlayer { entity_id, uuid, x, y, z, yaw, pitch } => Ok(
                spec_encode_varint(entity_id) + be128_bytes(uuid as nat) + be64_bytes(x as nat)
                    + be64_bytes(y as nat) + be64_bytes(z as nat) + seq![yaw] + seq![pitch],
            ),
            ClientBoundPacket::EntityPosition { entity_id, delta_x, delta_y, delta_z, on_ground } =>
                Ok(
                spec_encode_varint(entity_id) + be16_bytes(unsigned16(delta_x)) + be16_bytes(
                    unsigned16(delta_y),
                ) + be16_bytes(unsigned16(delta_z)) + spec_flag(on_ground),
            ),
            ClientBoundPacket::EntityRotation { entity_id, yaw, pitch, on_ground } => Ok(
                spec_encode_varint(entity_id) + seq![yaw] + seq![pitch] + spec_flag(on_ground),
            ),
            ClientBoundPacket::EntityPositionAndRotation {
                entity_id,
                delta_x,
                delta_y,
                delta_z,
                yaw,
                pitch,
                on_ground,
            } => Ok(
                spec_encode_varint(entity_id) + be16_bytes(unsigned16(delta_x)) + be16_bytes(
                    unsigned16(delta_y),
                ) + be16_bytes(unsigned16(delta_z)) + seq![yaw] + seq![pitch] + spec_flag(
                    on_ground,
                ),
            ),
            ClientBoundPacket::PlayerPositionAndLook {
                x,
                y,
                z,
                yaw,
                pitch,
                flags,
                teleport_id,
                dismount_vehicle,
            } => Ok(
                be64_bytes(x as nat) + be64_bytes(y as nat) + be64_bytes(z as nat) + be32_bytes(
                    yaw as nat,
                ) + be32_bytes(pitch as nat) + seq![flags] + spec_encode_varint(teleport_id)
                    + spec_flag(dismount_vehicle),
            ),
            ClientBoundPacket::PluginMessage { channel, data } => spec_then(
                spec_string_field(channel@),
                Ok(data@),
            ),
            ClientBoundPacket::ChatMessage { message, position, sender } => spec_then(
                spec_string_field(message@),
                Ok(seq![unsigned8(position) as u8] + be128_bytes(sender as nat)),
            ),
        }
    }

    /// The frame that carries this packet.
    pub fn encode(&self) -> (r: ProtocolResult<PacketFrame>)
        ensures
            match self.spec_payload() {
                Ok(payload) => r matches Ok(frame) && frame.id == self.spec_packet_id()
                    && frame.data@ == payload,
                Err(e) => r matches Err(f) && f == e,
            },
    {
        proof {
            reveal(ClientBoundPacket::spec_payload);
        }
        let mut buf: Vec<u8> = Vec::new();
        let id: i32 = match self {
            ClientBoundPacket::StatusResponse { json } => {
                write_string_field(&mut buf, json.as_str())?;
                assert(buf@ =~= spec_encode_string(json@));
                0x00
            },
            ClientBoundPacket::StatusPong { payload } => {
                write_i64(&mut buf, *payload);
                assert(buf@ =~= be64_bytes(unsigned64(*payload)));
                0x01
            },
            ClientBoundPacket::LoginDisconnect { reason } => {
                write_string_field(&mut buf, reason.as_str())?;
                assert(buf@ =~= spec_encode_string(reason@));
                0x00
            },
            ClientBoundPacket::LoginEncryptionRequest { server_id, public_key, verify_token } => {
                write_string_field(&mut buf, server_id.as_str())?;
                assert(buf@ =~= spec_encode_string(server_id@));
                write_block_field(&mut buf, public_key.as_slice())?;
                write_block_field(&mut buf, verify_token.as_slice())?;
                0x01
            },
            ClientBoundPacket::LoginSuccess { uuid, username } => {
                write_uuid(&mut buf, *uuid);
                assert(buf@ =~= be128_bytes(*uuid as nat));
                write_string_field(&mut buf, username.as_str())?;
                write_varint(&mut buf, 0);
                0x02
            },
            ClientBoundPacket::LoginSetCompression { threshold } => {
                write_varint(&mut buf, *threshold);
                assert(buf@ =~= spec_encode_varint(*threshold));
                0x03
            },
            ClientBoundPacket::LoginPluginRequest { message_id, channel, data } => {
                write_varint(&mut buf, *message_id);
                assert(buf@ =~= spec_encode_varint(*message_id));
                write_string_field(&mut buf, channel.as_str())?;
                write_bytes(&mut buf, data.as_slice());
                0x04
            },
            ClientBoundPacket::PlayDisconnect { reason } => {
                write_string_field(&mut buf, reason.as_str())?;
                assert(buf@ =~= spec_encode_string(reason@));
                0x1A
            },
            ClientBoundPacket::KeepAlive { id } => {
                write_i64(&mut buf, *id);
                assert(buf@ =~= be64_bytes(unsigned64(*id)));
                0x21
            },
            ClientBoundPacket::JoinGame { .. } => { 0x26 },
            ClientBoundPacket::ChunkData { x, z, data } => {
                write_i32(&mut buf, *x);
                write_i32(&mut buf, *z);
                write_bytes(&mut buf, data.as_slice());
                assert(buf@ =~= be32_bytes(unsigned32(*x)) + be32_bytes(unsigned32(*z)) + data@);
                0x22
            },
            ClientBoundPacket::SpawnPlayer { entity_id, uuid, x, y, z, yaw, pitch } => {
                write_varint(&mut buf, *entity_id);
                write_uuid(&mut buf, *uuid);
                write_u64(&mut buf, *x);
                write_u64(&mut buf, *y);
                write_u64(&mut buf, *z);
                write_byte(&mut buf, *yaw);
                write_byte(&mut buf, *pitch);
                assert(buf@ =~= self.spec_payload()->Ok_0);
                0x02
            },
            ClientBoundPacket::EntityPosition { entity_id, delta_x, delta_y, delta_z, on_ground } => {
                write_varint(&mut buf, *entity_id);
                write_i16(&mut buf, *delta_x);
                write_i16(&mut buf, *delta_y);
                write_i16(&mut buf, *delta_z);
                write_flag(&mut buf, *on_ground);
                assert(buf@ =~= self.spec_payload()->Ok_0);
                0x29
            },
            ClientBoundPacket::EntityRotation { entity_id, yaw, pitch, on_ground } => {
                write_varint(&mut buf, *entity_id);
                write_byte(&mut buf, *yaw);
                write_byte(&mut buf, *pitch);
                write_flag(&mut buf, *on_ground);
                assert(buf@ =~= self.spec_payload()->Ok_0);
                0x2B
            },
            ClientBoundPacket::EntityPositionAndRotation {
                entity_id,
                delta_x,
                delta_y,
                delta_z,
                yaw,
                pitch,
                on_ground,
            } => {
                write_varint(&mut buf, *entity_id);
                write_i16(&mut buf, *delta_x);
                write_i16(&mut buf, *delta_y);
                write_i16(&mut buf, *delta_z);
                write_byte(&mut buf, *yaw);
                write_byte(&mut buf, *pitch);
                write_flag(&mut buf, *on_ground);
                assert(buf@ =~= self.spec_payload()->Ok_0);
                0x2A
            },
            ClientBoundPacket::PlayerPositionAndLook {
                x,
                y,
                z,
                yaw,
                pitch,
                flags,
                teleport_id,
                dismount_vehicle,
            } => {
                write_u64(&mut buf, *x);
                write_u64(&mut buf, *y);
                write_u64(&mut buf, *z);
                write_u32(&mut buf, *yaw);
                write_u32(&mut buf, *pitch);
                write_byte(&mut buf, *flags);
                write_varint(&mut buf, *teleport_id);
                write_flag(&mut buf, *dismount_vehicle);
                assert(buf@ =~= self.spec_payload()->Ok_0);
                0x38
            },
            ClientBoundPacket::PluginMessage { channel, data } => {
                write_string_field(&mut buf, channel.as_str())?;
                assert(buf@ =~= spec_encode_string(channel@));
                write_bytes(&mut buf, data.as_slice());
                0x18
            },
            ClientBoundPacket::ChatMessage { message, position, sender } => {
                write_string_field(&mut buf, message.as_str())?;
                assert(buf@ =~= spec_encode_string(message@));
                let ghost text = buf@;
                write_i8(&mut buf, *position);
                write_uuid(&mut buf, *sender);
                assert(buf@ =~= text + (seq![unsigned8(*position) as u8] + be128_bytes(
                    *sender as nat,
                )));
                0x0F
            },
        };
        Ok(PacketFrame::new(id, buf))
    }
}

} // verus!
