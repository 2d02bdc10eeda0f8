use plunkit_server::protocol::packets::{Blob, ClientBoundPacket, ServerBoundPacket};
use plunkit_server::protocol::types::{
    pack_position, write_string, write_u16, write_u32, write_u64, write_uuid, write_varint,
    ConnectionState, ProtocolError,
};

fn handshake_payload(proto: i32, addr: &str, port: u16, next: i32) -> Vec<u8> {
    let mut p = Vec::new();
    write_varint(&mut p, proto);
    write_string(&mut p, addr);
    write_u16(&mut p, port);
    write_varint(&mut p, next);
    p
}

#[test]
fn decode_handshake() {
    let p = handshake_payload(762, "x", 25565, 1);
    match ServerBoundPacket::decode(ConnectionState::Handshaking, 0, &p) {
        Ok(ServerBoundPacket::Handshake {
            protocol_version,
            server_address,
            server_port,
            next_state,
        }) => {
            assert_eq!(protocol_version, 762);
            assert_eq!(server_address, "x");
            assert_eq!(server_port, 25565);
            assert_eq!(next_state, 1);
        }
        other => panic!("unexpected {:?}", other),
    }
}

#[test]
fn decode_handshake_cut_short() {
    let p = handshake_payload(762, "x", 25565, 1);
    for k in 0..p.len() {
        assert!(matches!(
            ServerBoundPacket::decode(ConnectionState::Handshaking, 0, &p[..k]),
            Err(ProtocolError::InvalidPacket)
        ));
    }
}

#[test]
fn decode_handshake_address_too_long() {
    let mut p = Vec::new();
    write_varint(&mut p, 762);
    write_varint(&mut p, 255 * 4 + 1);
    p.extend(vec![b'a'; 255 * 4 + 1]);
    write_u16(&mut p, 1);
    write_varint(&mut p, 1);
    assert!(matches!(
        ServerBoundPacket::decode(ConnectionState::Handshaking, 0, &p),
        Err(ProtocolError::StringTooLong)
    ));
}

#[test]
fn decode_unknown_ids() {
    for (state, id) in [
        (ConnectionState::Handshaking, 1),
        (ConnectionState::Status, 2),
        (ConnectionState::Login, 3),
        (ConnectionState::Play, 0),
        (ConnectionState::Play, -1),
    ] {
        assert!(matches!(
            ServerBoundPacket::decode(state, id, &[0; 64]),
            Err(ProtocolError::InvalidPacket)
        ));
    }
}

#[test]
fn decode_status_packets() {
    assert!(matches!(
        ServerBoundPacket::decode(ConnectionState::Status, 0, &[]),
        Ok(ServerBoundPacket::StatusRequest)
    ));
    let mut p = Vec::new();
    write_u64(&mut p, 0xDEADBEEF);
    assert!(matches!(
        ServerBoundPacket::decode(ConnectionState::Status, 1, &p),
        Ok(ServerBoundPacket::StatusPing { payload: 0xDEADBEEF })
    ));
    assert!(matches!(
        ServerBoundPacket::decode(ConnectionState::Status, 1, &p[..7]),
        Err(ProtocolError::InvalidPacket)
    ));
    assert!(matches!(
        ServerBoundPacket::decode(ConnectionState::Status, 1, &[0xff; 8]),
        Ok(ServerBoundPacket::StatusPing { payload: -1 })
    ));
}

#[test]
fn decode_login_start_with_and_without_uuid() {
    let mut p = Vec::new();
    write_string(&mut p, "alice");
    match ServerBoundPacket::decode(ConnectionState::Login, 0, &p) {
        Ok(ServerBoundPacket::LoginStart { name, uuid }) => {
            assert_eq!(name, "alice");
            assert_eq!(uuid, None);
        }
        other => panic!("unexpected {:?}", other),
    }
    write_uuid(&mut p, 0x1234);
    match ServerBoundPacket::decode(ConnectionState::Login, 0, &p) {
        Ok(ServerBoundPacket::LoginStart { name, uuid }) => {
            assert_eq!(name, "alice");
            assert_eq!(uuid, Some(0x1234));
        }
        other => panic!("unexpected {:?}", other),
    }
    p.truncate(p.len() - 1);
    assert!(matches!(
        ServerBoundPacket::decode(ConnectionState::Login, 0, &p),
        Ok(ServerBoundPacket::LoginStart { uuid: None, .. })
    ));
}

#[test]
fn decode_login_responses() {
    let p = vec![2, 0xaa, 0xbb, 1, 0xcc];
    match ServerBoundPacket::decode(ConnectionState::Login, 1, &p) {
        Ok(ServerBoundPacket::LoginEncryptionResponse { shared_secret, verify_token }) => {
            assert_eq!(shared_secret, vec![0xaa, 0xbb]);
            assert_eq!(verify_token, vec![0xcc]);
        }
        other => panic!("unexpected {:?}", other),
    }
    assert!(matches!(
        ServerBoundPacket::decode(ConnectionState::Login, 1, &[3, 1, 2]),
        Err(ProtocolError::InvalidPacket)
    ));
    match ServerBoundPacket::decode(ConnectionState::Login, 2, &[7, 1, 9, 9]) {
        Ok(ServerBoundPacket::LoginPluginResponse { message_id, data }) => {
            assert_eq!(message_id, 7);
            assert_eq!(data, Some(vec![9, 9]));
        }
        other => panic!("unexpected {:?}", other),
    }
    assert!(matches!(
        ServerBoundPacket::decode(ConnectionState::Login, 2, &[7, 0, 9, 9]),
        Ok(ServerBoundPacket::LoginPluginResponse { message_id: 7, data: None })
    ));
}

#[test]
fn decode_play_packets() {
    let mut p = Vec::new();
    write_u64(&mut p, 42);
    assert!(matches!(
        ServerBoundPacket::decode(ConnectionState::Play, 0x0F, &p),
        Ok(ServerBoundPacket::KeepAlive { id: 42 })
    ));

    let mut chat = Vec::new();
    write_string(&mut chat, "hi");
    match ServerBoundPacket::decode(ConnectionState::Play, 0x05, &chat) {
        Ok(ServerBoundPacket::ChatMessage { message }) => assert_eq!(message, "hi"),
        other => panic!("unexpected {:?}", other),
    }

    let mut pos = Vec::new();
    write_u64(&mut pos, 1.5f64.to_bits());
    write_u64(&mut pos, 64.0f64.to_bits());
    write_u64(&mut pos, (-2.25f64).to_bits());
    pos.push(1);
    match ServerBoundPacket::decode(ConnectionState::Play, 0x14, &pos) {
        Ok(ServerBoundPacket::PlayerPosition { x, y, z, on_ground }) => {
            assert_eq!(f64::from_bits(x), 1.5);
            assert_eq!(f64::from_bits(y), 64.0);
            assert_eq!(f64::from_bits(z), -2.25);
            assert!(on_ground);
        }
        other => panic!("unexpected {:?}", other),
    }
    assert!(matches!(
        ServerBoundPacket::decode(ConnectionState::Play, 0x14, &pos[..24]),
        Err(ProtocolError::InvalidPacket)
    ));

    let mut rot = Vec::new();
    write_u32(&mut rot, 90.0f32.to_bits());
    write_u32(&mut rot, (-45.0f32).to_bits());
    rot.push(0);
    match ServerBoundPacket::decode(ConnectionState::Play, 0x15, &rot) {
        Ok(ServerBoundPacket::PlayerRotation { yaw, pitch, on_ground }) => {
            assert_eq!(f32::from_bits(yaw), 90.0);
            assert_eq!(f32::from_bits(pitch), -45.0);
            assert!(!on_ground);
        }
        other => panic!("unexpected {:?}", other),
    }

    let mut both = pos[..24].to_vec();
    both.extend(&rot);
    assert!(matches!(
        ServerBoundPacket::decode(ConnectionState::Play, 0x16, &both),
        Ok(ServerBoundPacket::PlayerPositionAndRotation { on_ground: false, .. })
    ));

    let mut dig = vec![2];
    write_u64(&mut dig, pack_position(-3, 70, 1000));
    dig.push(0xff);
    assert!(matches!(
        ServerBoundPacket::decode(ConnectionState::Play, 0x1A, &dig),
        Ok(ServerBoundPacket::PlayerDigging { status: 2, location: (-3, 70, 1000), face: -1 })
    ));

    let mut place = vec![1];
    write_u64(&mut place, pack_position(3, 64, 5));
    place.push(4);
    write_u32(&mut place, 0.5f32.to_bits());
    write_u32(&mut place, 0.25f32.to_bits());
    write_u32(&mut place, 0.75f32.to_bits());
    place.push(1);
    match ServerBoundPacket::decode(ConnectionState::Play, 0x2E, &place) {
        Ok(ServerBoundPacket::PlayerBlockPlacement {
            location,
            face,
            hand,
            cursor_x,
            cursor_y,
            cursor_z,
            inside_block,
        }) => {
            assert_eq!(location, (3, 64, 5));
            assert_eq!(face, 4);
            assert_eq!(hand, 1);
            assert_eq!(f32::from_bits(cursor_x), 0.5);
            assert_eq!(f32::from_bits(cursor_y), 0.25);
            assert_eq!(f32::from_bits(cursor_z), 0.75);
            assert!(inside_block);
        }
        other => panic!("unexpected {:?}", other),
    }

    let mut plugin = Vec::new();
    write_string(&mut plugin, "brand");
    plugin.extend([1, 2, 3]);
    match ServerBoundPacket::decode(ConnectionState::Play, 0x0A, &plugin) {
        Ok(ServerBoundPacket::PluginMessage { channel, data }) => {
            assert_eq!(channel, "brand");
            assert_eq!(data, vec![1, 2, 3]);
        }
        other => panic!("unexpected {:?}", other),
    }
}

fn frame_of(packet: ClientBoundPacket) -> (i32, Vec<u8>) {
    let frame = packet.encode().unwrap();
    (frame.id, frame.data)
}

#[test]
fn encode_status_and_login_packets() {
    assert_eq!(
        frame_of(ClientBoundPacket::StatusResponse { json: "{}".to_string() }),
        (0x00, vec![2, b'{', b'}'])
    );
    assert_eq!(
        frame_of(ClientBoundPacket::StatusPong { payload: 0xDEADBEEF }),
        (0x01, vec![0, 0, 0, 0, 0xde, 0xad, 0xbe, 0xef])
    );
    assert_eq!(
        frame_of(ClientBoundPacket::LoginDisconnect { reason: "no".to_string() }),
        (0x00, vec![2, b'n', b'o'])
    );
    assert_eq!(
        frame_of(ClientBoundPacket::LoginEncryptionRequest {
            server_id: "s".to_string(),
            public_key: vec![1, 2],
            verify_token: vec![3],
        }),
        (0x01, vec![1, b's', 2, 1, 2, 1, 3])
    );
    let (id, data) =
        frame_of(ClientBoundPacket::LoginSuccess { uuid: 0x0102, username: "al".to_string() });
    assert_eq!(id, 0x02);
    let mut expect = vec![0u8; 14];
    expect.extend([1, 2, 2, b'a', b'l', 0]);
    assert_eq!(data, expect);
    assert_eq!(frame_of(ClientBoundPacket::LoginSetCompression { threshold: 256 }), (0x03, vec![0x80, 0x02]));
    assert_eq!(
        frame_of(ClientBoundPacket::LoginPluginRequest {
            message_id: 1,
            channel: "c".to_string(),
            data: vec![9],
        }),
        (0x04, vec![1, 1, b'c', 9])
    );
}

#[test]
fn encode_play_packets() {
    assert_eq!(
        frame_of(ClientBoundPacket::PlayDisconnect { reason: "x".to_string() }),
        (0x1A, vec![1, b'x'])
    );
    assert_eq!(
        frame_of(ClientBoundPacket::KeepAlive { id: -1 }),
        (0x21, vec![0xff; 8])
    );
    assert_eq!(
        frame_of(ClientBoundPacket::ChunkData { x: 1, z: -1, data: vec![7, 7] }),
        (0x22, vec![0, 0, 0, 1, 0xff, 0xff, 0xff, 0xff, 7, 7])
    );
    let (id, data) = frame_of(ClientBoundPacket::SpawnPlayer {
        entity_id: 300,
        uuid: 1,
        x: 1.0f64.to_bits(),
        y: 2.0f64.to_bits(),
        z: 3.0f64.to_bits(),
        yaw: 4,
        pitch: 5,
    });
    assert_eq!(id, 0x02);
    assert_eq!(data.len(), 2 + 16 + 24 + 2);
    assert_eq!(&data[..2], &[0xac, 0x02]);
    assert_eq!(&data[18..26], &1.0f64.to_be_bytes());
    assert_eq!(&data[42..], &[4, 5]);
    assert_eq!(
        frame_of(ClientBoundPacket::EntityPosition {
            entity_id: 1,
            delta_x: 1,
            delta_y: -1,
            delta_z: 256,
            on_ground: true,
        }),
        (0x29, vec![1, 0, 1, 0xff, 0xff, 1, 0, 1])
    );
    assert_eq!(
        frame_of(ClientBoundPacket::EntityRotation { entity_id: 1, yaw: 2, pitch: 3, on_ground: false }),
        (0x2B, vec![1, 2, 3, 0])
    );
    assert_eq!(
        frame_of(ClientBoundPacket::EntityPositionAndRotation {
            entity_id: 1,
            delta_x: 0,
            delta_y: 0,
            delta_z: 0,
            yaw: 2,
            pitch: 3,
            on_ground: true,
        }),
        (0x2A, vec![1, 0, 0, 0, 0, 0, 0, 2, 3, 1])
    );
    let (id, data) = frame_of(ClientBoundPacket::PlayerPositionAndLook {
        x: 0f64.to_bits(),
        y: 64f64.to_bits(),
        z: 0f64.to_bits(),
        yaw: 0f32.to_bits(),
        pitch: 0f32.to_bits(),
        flags: 0,
        teleport_id: 0,
        dismount_vehicle: false,
    });
    assert_eq!(id, 0x38);
    assert_eq!(data.len(), 24 + 8 + 3);
    assert_eq!(&data[8..16], &64f64.to_be_bytes());
    assert_eq!(
        frame_of(ClientBoundPacket::PluginMessage { channel: "c".to_string(), data: vec![1, 2] }),
        (0x18, vec![1, b'c', 1, 2])
    );
    let (id, data) = frame_of(ClientBoundPacket::ChatMessage {
        message: "hi".to_string(),
        position: -1,
        sender: 2,
    });
    assert_eq!(id, 0x0F);
    let mut expect = vec![2, b'h', b'i', 0xff];
    expect.extend(vec![0u8; 15]);
    expect.push(2);
    assert_eq!(data, expect);
}

#[test]
fn encode_join_game_has_no_payload() {
    let packet = ClientBoundPacket::JoinGame {
        entity_id: 1,
        is_hardcore: false,
        gamemode: 1,
        previous_gamemode: -1,
        dimension_names: vec!["minecraft:overworld".to_string()],
        registry_codec: Blob,
        dimension_type: "minecraft:overworld".to_string(),
        dimension_name: "minecraft:overworld".to_string(),
        hashed_seed: 0,
        max_players: 20,
        view_distance: 10,
        simulation_distance: 10,
        reduced_debug_info: false,
        enable_respawn_screen: true,
        is_debug: false,
        is_flat: true,
    };
    assert_eq!(frame_of(packet), (0x26, vec![]));
}
