use plunkit_server::protocol::connection::{known_packet, MinecraftConnection};
use plunkit_server::protocol::packets::{ClientBoundPacket, ServerBoundPacket};
use plunkit_server::protocol::types::{
    pack_position, write_string, write_u16, write_u32, write_u64, write_uuid, write_varint,
    ConnectionState, PacketFrame, ProtocolError,
};
use plunkit_server::server::{
    status_json, status_json_from, MinecraftServer, PacketOutcome, WorldEvent,
};
use plunkit_server::world::manager::{Entity, World};

fn frame(id: i32, payload: Vec<u8>) -> Vec<u8> {
    PacketFrame::new(id, payload).encode()
}

fn handshake(next: i32) -> Vec<u8> {
    let mut p = Vec::new();
    write_varint(&mut p, 762);
    write_string(&mut p, "x");
    write_u16(&mut p, 25565);
    write_varint(&mut p, next);
    frame(0, p)
}

fn login_start(name: &str, uuid: Option<u128>) -> Vec<u8> {
    let mut p = Vec::new();
    write_string(&mut p, name);
    if let Some(id) = uuid {
        write_uuid(&mut p, id);
    }
    frame(0, p)
}

/// Feeds the bytes to the connection and handles every packet in them.
fn run(
    server: &mut MinecraftServer,
    conn: &mut MinecraftConnection,
    bytes: &[u8],
    fresh: u128,
) -> Vec<PacketOutcome> {
    conn.receive(bytes);
    let mut outcomes = Vec::new();
    loop {
        match conn.read_packet() {
            Ok(Some(packet)) => {
                let outcome = server.handle_packet(conn, packet, fresh);
                let open = outcome.keep_open;
                outcomes.push(outcome);
                if !open {
                    break;
                }
            }
            Ok(None) => break,
            Err(e) => panic!("protocol error {:?}", e),
        }
    }
    outcomes
}

fn fresh_server(id: &str) -> MinecraftServer {
    MinecraftServer::new(World::new(id.to_string(), "Test".to_string()))
}

#[test]
fn status_json_text() {
    assert_eq!(
        status_json_from("\"hello\""),
        "{\"description\":{\"text\":\"hello\"},\"players\":{\"max\":20,\"online\":0,\"sample\":[]},\"version\":{\"name\":\"1.19.4\",\"protocol\":762}}"
    );
    assert_eq!(
        status_json("Test"),
        "{\"description\":{\"text\":\"Plunkit Server - Test\"},\"players\":{\"max\":20,\"online\":0,\"sample\":[]},\"version\":{\"name\":\"1.19.4\",\"protocol\":762}}"
    );
}

#[test]
fn status_json_escapes_the_world_name() {
    let json = status_json("a\"b\\c\n");
    assert!(json.contains("\"text\":\"Plunkit Server - a\\\"b\\\\c\\n\""));
    let parsed = serde_json::from_str::<serde_json::Value>(&json).unwrap();
    assert_eq!(parsed["description"]["text"], "Plunkit Server - a\"b\\c\n");
    assert_eq!(parsed["version"]["protocol"], 762);
    assert_eq!(parsed["version"]["name"], "1.19.4");
    assert_eq!(parsed["players"]["max"], 20);
    assert_eq!(parsed["players"]["online"], 0);
    assert_eq!(parsed["players"]["sample"].as_array().unwrap().len(), 0);
}

#[test]
fn scenario_ping() {
    let mut server = fresh_server("w");
    let mut conn = MinecraftConnection::new();
    assert_eq!(conn.state(), ConnectionState::Handshaking);
    let mut bytes = handshake(1);
    bytes.extend(frame(0, vec![]));
    let mut ping = Vec::new();
    write_u64(&mut ping, 0xDEADBEEF);
    bytes.extend(frame(1, ping));
    let outcomes = run(&mut server, &mut conn, &bytes, 0);
    assert_eq!(outcomes.len(), 3);
    assert!(outcomes[0].keep_open && outcomes[0].replies.is_empty());
    assert!(outcomes[1].keep_open);
    assert_eq!(outcomes[1].replies.len(), 1);
    match &outcomes[1].replies[0] {
        ClientBoundPacket::StatusResponse { json } => assert!(json.contains("\"protocol\":762")),
        other => panic!("unexpected {:?}", other),
    }
    assert!(!outcomes[2].keep_open);
    assert_eq!(outcomes[2].replies.len(), 1);
    assert!(matches!(
        outcomes[2].replies[0],
        ClientBoundPacket::StatusPong { payload: 0xDEADBEEF }
    ));
    assert_eq!(conn.state(), ConnectionState::Status);
    assert!(server.world.ecs.entities.is_empty());
    assert!(conn.finish().is_ok());
}

#[test]
fn status_exchange_for_several_payloads() {
    for n in [0i64, -1, i64::MAX, i64::MIN, 77] {
        let mut server = fresh_server("w");
        let mut conn = MinecraftConnection::new();
        let mut bytes = handshake(1);
        bytes.extend(frame(0, vec![]));
        let mut ping = Vec::new();
        write_u64(&mut ping, n as u64);
        bytes.extend(frame(1, ping));
        let outcomes = run(&mut server, &mut conn, &bytes, 0);
        let sent: Vec<&ClientBoundPacket> =
            outcomes.iter().flat_map(|o| o.replies.iter()).collect();
        assert_eq!(sent.len(), 2);
        assert!(matches!(sent[0], ClientBoundPacket::StatusResponse { .. }));
        assert!(matches!(sent[1], ClientBoundPacket::StatusPong { payload } if *payload == n));
        assert!(!outcomes.last().unwrap().keep_open);
    }
}

#[test]
fn scenario_flat_world_join() {
    let mut server = fresh_server("w");
    let mut conn = MinecraftConnection::new();
    let mut bytes = handshake(2);
    bytes.extend(login_start("alice", None));
    let outcomes = run(&mut server, &mut conn, &bytes, 0xabcdef);
    assert_eq!(outcomes.len(), 2);
    assert_eq!(conn.state(), ConnectionState::Play);
    assert_eq!(conn.entity(), Some(Entity { index: 0 }));
    let login = &outcomes[1];
    assert!(login.keep_open);
    assert!(matches!(login.event, WorldEvent::PlayerJoined { entity_id: 1 }));
    assert_eq!(login.replies.len(), 28);
    match &login.replies[0] {
        ClientBoundPacket::LoginSuccess { uuid, username } => {
            assert_eq!(*uuid, 0xabcdef);
            assert_eq!(username, "alice");
        }
        other => panic!("unexpected {:?}", other),
    }
    assert!(matches!(login.replies[1], ClientBoundPacket::JoinGame { entity_id: 1, .. }));
    match &login.replies[2] {
        ClientBoundPacket::PlayerPositionAndLook { x, y, z, .. } => {
            assert_eq!(f64::from_bits(*x), 0.0);
            assert_eq!(f64::from_bits(*y), 64.0);
            assert_eq!(f64::from_bits(*z), 0.0);
        }
        other => panic!("unexpected {:?}", other),
    }
    let mut expected = Vec::new();
    for z in -2..=2 {
        for x in -2..=2 {
            expected.push((x, z));
        }
    }
    for (k, reply) in login.replies[3..].iter().enumerate() {
        match reply {
            ClientBoundPacket::ChunkData { x, z, data } => {
                assert_eq!((*x, *z), expected[k]);
                assert_eq!(data, &server.world.get_chunk(*x, *z).unwrap().encode());
                assert_eq!(data.len(), 1024 + 24 + 12290 + 1024);
            }
            other => panic!("unexpected {:?}", other),
        }
    }
    assert_eq!(server.world.chunks.len(), 25);
    assert_eq!(server.world.ecs.entities.len(), 1);
    let record = &server.world.ecs.entities[0];
    assert_eq!(record.player.as_ref().unwrap().username, "alice");
    assert_eq!(record.uuid.uuid, 0xabcdef);
    assert_eq!(f64::from_bits(record.position.x), 0.0);
    assert_eq!(f64::from_bits(record.position.y), 64.0);
    assert_eq!(f64::from_bits(record.position.z), 0.0);
    assert_eq!(f32::from_bits(record.health.current), 20.0);
    assert_eq!(server.sessions.len(), 1);
    let session = &server.sessions[&0xabcdef];
    assert_eq!(session.username, "alice");
    assert_eq!(session.world_id, "w");
    assert_eq!(session.uuid, 0xabcdef);
    assert_eq!(session.entity, Entity { index: 0 });
}

#[test]
fn login_with_a_uuid_allocates_exactly_one_entity() {
    let mut server = fresh_server("w");
    let mut conn = MinecraftConnection::new();
    let mut bytes = handshake(2);
    bytes.extend(login_start("bob", Some(42)));
    run(&mut server, &mut conn, &bytes, 7);
    let matching: Vec<_> = server
        .world
        .ecs
        .entities
        .iter()
        .filter(|e| e.uuid.uuid == 42)
        .collect();
    assert_eq!(matching.len(), 1);
    assert_eq!(matching[0].player.as_ref().unwrap().username, "bob");
    assert_eq!(server.world.ecs.entities.len(), 1);

    // a second login start on the same connection ends it and changes nothing
    let again = ServerBoundPacket::LoginStart { name: "bob".to_string(), uuid: Some(43) };
    let outcome = server.handle_packet(&mut conn, again, 8);
    assert!(!outcome.keep_open);
    assert!(outcome.replies.is_empty());
    assert_eq!(server.world.ecs.entities.len(), 1);
    assert_eq!(server.sessions.len(), 1);
}

#[test]
fn login_with_a_uuid_in_use_is_refused() {
    let mut server = fresh_server("w");
    let mut first = MinecraftConnection::new();
    let mut bytes = handshake(2);
    bytes.extend(login_start("bob", Some(42)));
    run(&mut server, &mut first, &bytes, 7);
    let mut second = MinecraftConnection::new();
    let outcomes = run(&mut server, &mut second, &bytes, 7);
    let last = outcomes.last().unwrap();
    assert!(!last.keep_open);
    assert_eq!(last.replies.len(), 1);
    assert!(matches!(last.replies[0], ClientBoundPacket::LoginDisconnect { .. }));
    assert_eq!(second.state(), ConnectionState::Login);
    assert_eq!(server.world.ecs.entities.len(), 1);
    assert_eq!(server.sessions.len(), 1);
}

fn joined() -> (MinecraftServer, MinecraftConnection) {
    let mut server = fresh_server("w");
    let mut conn = MinecraftConnection::new();
    let mut bytes = handshake(2);
    bytes.extend(login_start("alice", Some(1)));
    run(&mut server, &mut conn, &bytes, 0);
    (server, conn)
}

#[test]
fn scenario_block_write() {
    let (mut server, mut conn) = joined();
    let mut place = vec![0];
    write_u64(&mut place, pack_position(3, 64, 5));
    place.push(1);
    write_u32(&mut place, 0);
    write_u32(&mut place, 0);
    write_u32(&mut place, 0);
    place.push(0);
    let outcomes = run(&mut server, &mut conn, &frame(0x2E, place), 0);
    assert_eq!(outcomes.len(), 1);
    let location = match &outcomes[0].event {
        WorldEvent::BlockPlace { location, face, hand } => {
            assert_eq!((*face, *hand), (1, 0));
            *location
        }
        _ => panic!("no block place"),
    };
    assert_eq!(location, (3, 64, 5));
    server.apply_block_place(location, 4, false);
    assert_eq!(server.world.get_block(3, 64, 5), 4);
    assert!(server.world.get_chunk(0, 0).unwrap().heightmap[5 * 16 + 3] >= 64);
}

#[test]
fn cancelled_block_changes_are_not_applied() {
    let (mut server, _conn) = joined();
    server.apply_block_place((3, 64, 5), 4, true);
    assert_eq!(server.world.get_block(3, 64, 5), 0);
    server.apply_block_break((3, 0, 5), true);
    assert_eq!(server.world.get_block(3, 0, 5), 7);
    server.apply_block_break((3, 0, 5), false);
    assert_eq!(server.world.get_block(3, 0, 5), 0);
}

#[test]
fn chat_is_reported_and_broadcast_unless_cancelled() {
    let (mut server, mut conn) = joined();
    let mut chat = Vec::new();
    write_string(&mut chat, "hi");
    let outcomes = run(&mut server, &mut conn, &frame(0x05, chat), 0);
    assert_eq!(outcomes.len(), 1);
    assert!(outcomes[0].replies.is_empty());
    match &outcomes[0].event {
        WorldEvent::Chat { message } => assert_eq!(message, "hi"),
        _ => panic!("no chat"),
    }
    assert!(MinecraftServer::chat_broadcast("hi".to_string(), 1, true).is_none());
    match MinecraftServer::chat_broadcast("hi".to_string(), 1, false) {
        Some(ClientBoundPacket::ChatMessage { message, position, sender }) => {
            assert_eq!(message, "hi");
            assert_eq!(position, 0);
            assert_eq!(sender, 1);
        }
        other => panic!("unexpected {:?}", other),
    }
}

#[test]
fn play_packets_move_the_player_and_echo_keep_alive() {
    let (mut server, mut conn) = joined();
    let mut keep = Vec::new();
    write_u64(&mut keep, 99);
    let outcomes = run(&mut server, &mut conn, &frame(0x0F, keep), 0);
    assert!(matches!(outcomes[0].replies[0], ClientBoundPacket::KeepAlive { id: 99 }));

    let mut both = Vec::new();
    write_u64(&mut both, 1.0f64.to_bits());
    write_u64(&mut both, 70.0f64.to_bits());
    write_u64(&mut both, (-3.0f64).to_bits());
    write_u32(&mut both, 90.0f32.to_bits());
    write_u32(&mut both, 10.0f32.to_bits());
    both.push(1);
    run(&mut server, &mut conn, &frame(0x16, both), 0);
    let record = &server.world.ecs.entities[0];
    assert_eq!(f64::from_bits(record.position.y), 70.0);
    assert_eq!(f64::from_bits(record.position.z), -3.0);
    assert_eq!(f32::from_bits(record.rotation.yaw), 90.0);

    let mut dig = vec![0];
    write_u64(&mut dig, pack_position(1, 2, 3));
    dig.push(1);
    let outcomes = run(&mut server, &mut conn, &frame(0x1A, dig), 0);
    assert!(matches!(
        outcomes[0].event,
        WorldEvent::BlockBreak { location: (1, 2, 3), status: 0, face: 1 }
    ));
}

#[test]
fn packets_out_of_their_state_are_passed_over() {
    let mut server = fresh_server("w");
    let mut conn = MinecraftConnection::new();
    let outcome = server.handle_packet(&mut conn, ServerBoundPacket::StatusRequest, 0);
    assert!(outcome.keep_open && outcome.replies.is_empty());
    let outcome = server.handle_packet(&mut conn, ServerBoundPacket::KeepAlive { id: 1 }, 0);
    assert!(outcome.keep_open && outcome.replies.is_empty());
    let outcome = server.handle_packet(
        &mut conn,
        ServerBoundPacket::ChatMessage { message: "x".to_string() },
        0,
    );
    assert!(matches!(outcome.event, WorldEvent::Nothing));
    assert_eq!(conn.state(), ConnectionState::Handshaking);
    let outcome = server.handle_packet(
        &mut conn,
        ServerBoundPacket::Handshake {
            protocol_version: 1,
            server_address: String::new(),
            server_port: 0,
            next_state: 3,
        },
        0,
    );
    assert!(outcome.keep_open);
    assert_eq!(conn.state(), ConnectionState::Handshaking);
}

#[test]
fn unknown_frames_are_skipped_and_broken_ones_are_errors() {
    let mut conn = MinecraftConnection::new();
    let mut bytes = frame(0x55, vec![1, 2, 3]);
    bytes.extend(handshake(1));
    conn.receive(&bytes);
    assert!(matches!(conn.read_packet(), Ok(Some(ServerBoundPacket::Handshake { .. }))));
    assert!(matches!(conn.read_packet(), Ok(None)));
    assert!(!known_packet(ConnectionState::Handshaking, 0x55));
    assert!(known_packet(ConnectionState::Play, 0x2E));

    let mut broken = MinecraftConnection::new();
    broken.receive(&[0x80, 0x80, 0x80, 0x80, 0x80, 0x00]);
    assert!(matches!(broken.read_packet(), Err(ProtocolError::InvalidPacket)));
    assert!(broken.finish().is_err());

    let mut partial = MinecraftConnection::new();
    let whole = handshake(1);
    partial.receive(&whole[..3]);
    assert!(matches!(partial.read_packet(), Ok(None)));
    assert_eq!(partial.finish(), Err(ProtocolError::InvalidPacket));
    partial.receive(&whole[3..]);
    assert!(matches!(partial.read_packet(), Ok(Some(_))));
    assert_eq!(partial.finish(), Ok(()));

    let mut bad_payload = MinecraftConnection::new();
    bad_payload.receive(&frame(0, vec![0x80]));
    assert!(matches!(bad_payload.read_packet(), Err(ProtocolError::InvalidPacket)));
}

#[test]
fn connection_writes_frames_and_disconnects_by_state() {
    let mut conn = MinecraftConnection::new();
    let bytes = conn.write_packet(&ClientBoundPacket::StatusPong { payload: 1 }).unwrap();
    assert_eq!(bytes, vec![9, 1, 0, 0, 0, 0, 0, 0, 0, 1]);
    assert!(conn.disconnect("bye").is_none());
    conn.set_state(ConnectionState::Login);
    match conn.disconnect("bye") {
        Some(ClientBoundPacket::LoginDisconnect { reason }) => assert_eq!(reason, "bye"),
        other => panic!("unexpected {:?}", other),
    }
    conn.set_state(ConnectionState::Play);
    match conn.disconnect("bye") {
        Some(ClientBoundPacket::PlayDisconnect { reason }) => assert_eq!(reason, "bye"),
        other => panic!("unexpected {:?}", other),
    }
    assert_eq!(conn.compression(), None);
    conn.set_compression(256);
    assert_eq!(conn.compression(), Some(256));
    conn.set_entity(Entity { index: 3 });
    assert_eq!(conn.entity(), Some(Entity { index: 3 }));
}

#[test]
fn sessions_end_by_uuid() {
    let mut server = fresh_server("w");
    for (name, id) in [("a", 1u128), ("b", 2), ("c", 3)] {
        let mut conn = MinecraftConnection::new();
        let mut bytes = handshake(2);
        bytes.extend(login_start(name, Some(id)));
        run(&mut server, &mut conn, &bytes, 0);
    }
    assert_eq!(server.sessions.len(), 3);
    server.end_session(2);
    let mut left: Vec<&str> = server.sessions.values().map(|s| s.username.as_str()).collect();
    left.sort();
    assert_eq!(left, vec!["a", "c"]);
    assert!(server.sessions.contains_key(&1) && server.sessions.contains_key(&3));
    assert!(!server.sessions.contains_key(&2));
    server.end_session(9);
    assert_eq!(server.sessions.len(), 2);
}

#[test]
fn spawn_chunks_keep_what_the_world_holds() {
    let mut server = fresh_server("w");
    server.world.set_block(0, 100, 0, 9);
    let packets = server.send_spawn_chunks(0, 0);
    assert_eq!(packets.len(), 25);
    assert_eq!(server.world.get_block(0, 100, 0), 9);
    match &packets[12] {
        ClientBoundPacket::ChunkData { x, z, data } => {
            assert_eq!((*x, *z), (0, 0));
            assert_eq!(data.len(), 2048 + 24 + 2 * 12290);
        }
        other => panic!("unexpected {:?}", other),
    }
    assert!(matches!(packets[0], ClientBoundPacket::ChunkData { x: -2, z: -2, .. }));
    assert!(matches!(packets[1], ClientBoundPacket::ChunkData { x: -1, z: -2, .. }));
    assert!(matches!(packets[24], ClientBoundPacket::ChunkData { x: 2, z: 2, .. }));
    assert_eq!(server.world.chunks.len(), 25);
    for x in -3..=3 {
        for z in -3..=3 {
            let inside = (-2..=2).contains(&x) && (-2..=2).contains(&z);
            assert_eq!(server.world.get_chunk(x, z).is_some(), inside);
        }
    }
    let generated = server.world.get_chunk(1, -2).unwrap();
    assert_eq!(generated.heightmap[0], 4);
    assert_eq!(generated.get_block(0, 3, 0), 2);
    assert_eq!(generated.get_block(0, 4, 0), 0);
    assert_eq!(server.world.get_chunk(0, 0).unwrap().get_block(0, 100, 0), 9);
}

#[test]
fn spawn_chunks_around_another_center_leave_the_rest_alone() {
    let mut server = fresh_server("w");
    server.world.generate_chunk(50, 50);
    let packets = server.send_spawn_chunks(10, -10);
    assert!(matches!(packets[0], ClientBoundPacket::ChunkData { x: 8, z: -12, .. }));
    assert!(matches!(packets[24], ClientBoundPacket::ChunkData { x: 12, z: -8, .. }));
    assert_eq!(server.world.chunks.len(), 26);
    assert!(server.world.get_chunk(50, 50).is_some());
    assert!(server.world.get_chunk(13, -10).is_none());
    assert!(server.world.get_chunk(0, 0).is_none());
}
