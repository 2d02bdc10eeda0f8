use plunkit_server::world::chunk::{
    chunk_coordinate, filled, local_coordinate, Chunk, ChunkPosition, ChunkSection, CHUNK_HEIGHT,
    CHUNK_WIDTH, SECTIONS_PER_CHUNK, SECTION_HEIGHT, SECTION_PAYLOAD,
};
use plunkit_server::world::entity::{
    EntityId, EntityType, EntityUuid, GameMode, Health, OnGround, Player, Position, Rotation,
    Velocity, F32_TWENTY, F64_SIXTY_FOUR,
};
use plunkit_server::world::manager::{Entity, World, WorldManager};

fn column_top(chunk: &Chunk, x: usize, z: usize) -> i32 {
    let mut top = 0;
    for y in 0..CHUNK_HEIGHT {
        if chunk.get_block(x, y, z) != 0 {
            top = y as i32;
        }
    }
    top
}

fn heightmap_is_exact(chunk: &Chunk) -> bool {
    (0..16).all(|x| (0..16).all(|z| chunk.heightmap[z * 16 + x] == column_top(chunk, x, z)))
}

#[test]
fn constants() {
    assert_eq!(CHUNK_WIDTH, 16);
    assert_eq!(CHUNK_HEIGHT, 384);
    assert_eq!(SECTION_HEIGHT, 16);
    assert_eq!(SECTIONS_PER_CHUNK, 24);
    assert_eq!(SECTION_PAYLOAD, 2 + 4096 * 2 + 2048 + 2048);
    assert_eq!(F64_SIXTY_FOUR, 64.0f64.to_bits());
    assert_eq!(F32_TWENTY, 20.0f32.to_bits());
}

#[test]
fn chunk_position_from_block_rounds_down() {
    assert_eq!(ChunkPosition::from_block(0, 15), ChunkPosition::new(0, 0));
    assert_eq!(ChunkPosition::from_block(16, 31), ChunkPosition::new(1, 1));
    assert_eq!(ChunkPosition::from_block(-1, -16), ChunkPosition::new(-1, -1));
    assert_eq!(ChunkPosition::from_block(-17, 32), ChunkPosition::new(-2, 2));
    assert_eq!(chunk_coordinate(i32::MIN), i32::MIN >> 4);
    assert_eq!(chunk_coordinate(i32::MAX), i32::MAX >> 4);
    assert_eq!(local_coordinate(-1), 15);
    assert_eq!(local_coordinate(-16), 0);
    assert_eq!(local_coordinate(35), 3);
    assert_eq!(local_coordinate(i32::MIN), 0);
    assert_eq!(filled(7u8, 3), vec![7, 7, 7]);
}

#[test]
fn section_blocks_and_emptiness() {
    let mut section = ChunkSection::new();
    assert!(section.is_empty());
    assert_eq!(section.get_block(3, 4, 5), 0);
    section.set_block(3, 4, 5, 9);
    assert_eq!(section.get_block(3, 4, 5), 9);
    assert_eq!(section.get_block(5, 4, 3), 0);
    assert!(!section.is_empty());
    section.set_block(3, 4, 5, 0);
    assert!(section.is_empty());
}

#[test]
fn section_encode_layout() {
    let mut section = ChunkSection::new();
    section.set_block(1, 0, 0, 0x0102);
    section.set_block(15, 15, 15, 7);
    let bytes = section.encode();
    assert_eq!(bytes.len(), SECTION_PAYLOAD);
    assert_eq!(&bytes[..2], &[0, 2]);
    assert_eq!(&bytes[2..6], &[0, 0, 1, 2]);
    assert_eq!(&bytes[2 + 4095 * 2..2 + 4096 * 2], &[0, 7]);
    assert!(bytes[2 + 8192..2 + 8192 + 2048].iter().all(|&b| b == 0));
    assert!(bytes[2 + 8192 + 2048..].iter().all(|&b| b == 0xff));
}

#[test]
fn new_chunk_is_air() {
    let chunk = Chunk::new(ChunkPosition::new(3, -4));
    assert_eq!(chunk.position, ChunkPosition::new(3, -4));
    assert_eq!(chunk.sections.len(), 24);
    assert!(chunk.heightmap.iter().all(|&h| h == 0));
    assert!(chunk.biomes.iter().all(|&b| b == 1));
    assert_eq!(chunk.get_block(0, 0, 0), 0);
    assert_eq!(chunk.get_block(0, 384, 0), 0);
    assert_eq!(chunk.get_block(0, usize::MAX, 0), 0);
    assert!(heightmap_is_exact(&chunk));
}

#[test]
fn heightmap_follows_the_highest_block() {
    let mut chunk = Chunk::new(ChunkPosition::new(0, 0));
    chunk.set_block(1, 10, 2, 5);
    assert_eq!(chunk.heightmap[2 * 16 + 1], 10);
    chunk.set_block(1, 200, 2, 5);
    assert_eq!(chunk.heightmap[2 * 16 + 1], 200);
    assert_eq!(chunk.highest_block(1, 2), 200);
    chunk.set_block(1, 100, 2, 5);
    assert_eq!(chunk.heightmap[2 * 16 + 1], 200);
    chunk.set_block(1, 200, 2, 0);
    assert_eq!(chunk.heightmap[2 * 16 + 1], 100);
    chunk.set_block(1, 100, 2, 0);
    chunk.set_block(1, 10, 2, 0);
    assert_eq!(chunk.heightmap[2 * 16 + 1], 0);
    chunk.set_block(1, 383, 2, 1);
    assert_eq!(chunk.heightmap[2 * 16 + 1], 383);
    chunk.set_block(1, 384, 2, 1);
    assert_eq!(chunk.get_block(1, 384, 2), 0);
    assert_eq!(chunk.heightmap[2 * 16 + 1], 383);
    assert!(heightmap_is_exact(&chunk));
}

#[test]
fn heightmap_invariant_after_many_writes() {
    let mut chunk = Chunk::new(ChunkPosition::new(0, 0));
    let mut seed: u32 = 12345;
    for _ in 0..300 {
        seed = seed.wrapping_mul(1664525).wrapping_add(1013904223);
        let x = (seed >> 4) as usize % 4;
        let z = (seed >> 8) as usize % 4;
        let y = (seed >> 12) as usize % 40;
        let id = ((seed >> 20) % 3) as u16;
        chunk.set_block(x, y, z, id);
        assert_eq!(chunk.get_block(x, y, z), id);
    }
    assert!(heightmap_is_exact(&chunk));
}

#[test]
fn flat_generator_layers() {
    let chunk = Chunk::flat(ChunkPosition::new(0, 0), 4);
    for x in 0..16 {
        for z in 0..16 {
            assert_eq!(chunk.get_block(x, 0, z), 7);
            assert_eq!(chunk.get_block(x, 1, z), 3);
            assert_eq!(chunk.get_block(x, 2, z), 3);
            assert_eq!(chunk.get_block(x, 3, z), 2);
            assert_eq!(chunk.get_block(x, 4, z), 0);
            assert_eq!(chunk.heightmap[z * 16 + x], 4);
        }
    }
}

#[test]
fn flat_generator_small_and_tall() {
    let zero = Chunk::flat(ChunkPosition::new(0, 0), 0);
    assert_eq!(zero.get_block(5, 0, 5), 7);
    assert_eq!(zero.get_block(5, 1, 5), 0);
    assert_eq!(zero.heightmap[0], 0);
    let one = Chunk::flat(ChunkPosition::new(0, 0), 1);
    assert_eq!(one.get_block(5, 0, 5), 7);
    assert_eq!(one.get_block(5, 1, 5), 0);
    assert_eq!(one.heightmap[0], 1);
    let two = Chunk::flat(ChunkPosition::new(0, 0), 2);
    assert_eq!(two.get_block(5, 0, 5), 7);
    assert_eq!(two.get_block(5, 1, 5), 2);
    let tall = Chunk::flat(ChunkPosition::new(0, 0), 1000);
    assert_eq!(tall.get_block(5, 383, 5), 3);
    assert_eq!(tall.heightmap[17], 1000);
    let mut kept = Chunk::new(ChunkPosition::new(0, 0));
    kept.set_block(2, 50, 2, 9);
    kept.generate_flat(4);
    assert_eq!(kept.get_block(2, 50, 2), 9);
    assert_eq!(kept.heightmap[2 * 16 + 2], 4);
}

#[test]
fn chunk_encode_length_and_layout() {
    let empty = Chunk::new(ChunkPosition::new(0, 0));
    let bytes = empty.encode();
    assert_eq!(bytes.len(), 1024 + 24 + 1024);
    assert!(bytes[..1024 + 24].iter().all(|&b| b == 0));
    assert_eq!(&bytes[1024 + 24..1024 + 28], &[0, 0, 0, 1]);

    let flat = Chunk::flat(ChunkPosition::new(0, 0), 4);
    let bytes = flat.encode();
    assert_eq!(bytes.len(), 1024 + 24 + SECTION_PAYLOAD + 1024);
    assert_eq!(&bytes[..4], &[0, 0, 0, 4]);
    assert_eq!(bytes[1024], 1);
    assert_eq!(&bytes[1025..1027], &[0x04, 0x00]);
    assert_eq!(&bytes[1027..1029], &[0, 7]);
    assert_eq!(bytes[1025 + SECTION_PAYLOAD], 0);

    let mut two = Chunk::flat(ChunkPosition::new(0, 0), 4);
    two.set_block(0, 383, 0, 1);
    two.set_block(0, 100, 0, 1);
    assert_eq!(two.encode().len(), 2048 + 24 + 3 * SECTION_PAYLOAD);
}

#[test]
fn world_reads_air_where_nothing_is() {
    let world = World::new("w".to_string(), "World".to_string());
    assert_eq!(world.get_block(0, 0, 0), 0);
    assert_eq!(world.get_block(-100, 5, 900), 0);
    assert!(world.get_chunk(0, 0).is_none());
    assert!(world.find_chunk(0, 0).is_none());
}

#[test]
fn world_write_generates_the_chunk_first() {
    let mut world = World::new("w".to_string(), "World".to_string());
    world.set_block(3, 64, 5, 4);
    assert_eq!(world.get_block(3, 64, 5), 4);
    assert_eq!(world.get_block(3, 0, 5), 7);
    assert_eq!(world.get_block(4, 3, 5), 2);
    assert_eq!(world.get_block(16, 0, 5), 0);
    let chunk = world.get_chunk(0, 0).unwrap();
    assert_eq!(chunk.heightmap[5 * 16 + 3], 64);
    assert_eq!(chunk.heightmap[5 * 16 + 4], 4);
    assert_eq!(world.chunks.len(), 1);
}

#[test]
fn world_write_in_negative_coordinates() {
    let mut world = World::new("w".to_string(), "World".to_string());
    world.set_block(-1, 10, -17, 9);
    assert_eq!(world.get_block(-1, 10, -17), 9);
    let chunk = world.get_chunk(-1, -2).unwrap();
    assert_eq!(chunk.position, ChunkPosition::new(-1, -2));
    assert_eq!(chunk.get_block(15, 10, 15), 9);
    assert!(world.get_chunk(0, 0).is_none());
}

#[test]
fn world_write_outside_the_height_changes_no_block() {
    let mut world = World::new("w".to_string(), "World".to_string());
    world.set_block(0, -1, 0, 9);
    world.set_block(0, 384, 0, 9);
    assert_eq!(world.get_block(0, -1, 0), 0);
    assert_eq!(world.get_block(0, 384, 0), 0);
    assert_eq!(world.get_block(0, 3, 0), 2);
    assert_eq!(world.get_chunk(0, 0).unwrap().heightmap[0], 4);
}

#[test]
fn world_chunks_are_kept_apart() {
    let mut world = World::new("w".to_string(), "World".to_string());
    world.get_or_generate_chunk(0, 0);
    world.set_block(1, 1, 1, 50);
    world.get_or_generate_chunk(0, 0);
    assert_eq!(world.get_block(1, 1, 1), 50);
    world.generate_chunk(1, 0);
    assert_eq!(world.get_block(1, 1, 1), 50);
    assert_eq!(world.get_block(17, 1, 1), 3);
    world.set_chunk(Chunk::new(ChunkPosition::new(0, 0)));
    assert_eq!(world.get_block(1, 1, 1), 0);
    assert_eq!(world.get_block(17, 1, 1), 3);
    assert_eq!(world.chunks.len(), 2);
}

#[test]
fn nearby_chunks_column_by_column() {
    let world = World::new("w".to_string(), "World".to_string());
    let around = world.get_nearby_chunks(10, -10, 1);
    assert_eq!(
        around,
        vec![(9, -11), (9, -10), (9, -9), (10, -11), (10, -10), (10, -9), (11, -11), (11, -10), (11, -9)]
    );
    assert_eq!(world.get_nearby_chunks(0, 0, 0), vec![(0, 0)]);
    assert_eq!(world.get_nearby_chunks(0, 0, 2).len(), 25);
}

#[test]
fn spawn_player_gives_numbers_in_order() {
    let mut world = World::new("w".to_string(), "World".to_string());
    let a = world.spawn_player("alice".to_string(), 1).unwrap();
    let b = world.spawn_player("bob".to_string(), 2).unwrap();
    assert_eq!(a, Entity { index: 0 });
    assert_eq!(b, Entity { index: 1 });
    assert_eq!(world.ecs.entities[0].id, EntityId::new(1));
    assert_eq!(world.ecs.entities[1].id, EntityId::new(2));
    assert_eq!(world.entity_counter, 3);
    let record = &world.ecs.entities[0];
    assert_eq!(record.uuid, EntityUuid::from_uuid(1));
    assert_eq!(record.entity_type.tag, "player");
    let player = record.player.as_ref().unwrap();
    assert_eq!(player.username, "alice");
    assert_eq!(player.gamemode, GameMode::Survival);
    assert_eq!(f32::from_bits(player.health), 20.0);
    assert_eq!(player.food, 20);
    assert_eq!(record.position, Position::new(0, 64.0f64.to_bits(), 0));
    assert_eq!(record.rotation, Rotation::new(0, 0));
    assert_eq!(record.velocity, Velocity::zero());
    assert_eq!(record.on_ground, OnGround::new(false));
    assert_eq!(record.health, Health::new(20.0f32.to_bits()));
}

#[test]
fn spawn_player_refuses_a_known_uuid_and_a_spent_counter() {
    let mut world = World::new("w".to_string(), "World".to_string());
    assert!(world.spawn_player("alice".to_string(), 1).is_some());
    assert!(world.spawn_player("eve".to_string(), 1).is_none());
    assert_eq!(world.ecs.entities.len(), 1);
    assert_eq!(world.entity_counter, 2);
    assert!(world.has_uuid(1));
    assert!(!world.has_uuid(2));
    world.entity_counter = i32::MAX;
    assert!(world.spawn_player("bob".to_string(), 2).is_none());
    assert_eq!(world.ecs.entities.len(), 1);
}

#[test]
fn player_lookup_and_movement() {
    let mut world = World::new("w".to_string(), "World".to_string());
    let a = world.spawn_player("alice".to_string(), 11).unwrap();
    let b = world.spawn_player("bob".to_string(), 22).unwrap();
    assert_eq!(world.get_player_entity(22), Some(b));
    assert_eq!(world.get_player_entity(33), None);
    let to = Position::new(1.0f64.to_bits(), 2.0f64.to_bits(), 3.0f64.to_bits());
    world.set_player_position(a, to);
    assert_eq!(world.get_player_position(a), Some(to));
    assert_eq!(world.get_player_position(b), Some(Position::new(0, F64_SIXTY_FOUR, 0)));
    assert_eq!(world.get_player_position(Entity { index: 9 }), None);
    world.set_player_position(Entity { index: 9 }, to);
    world.update_player_rotation(b, Rotation::new(5, 6));
    assert_eq!(world.ecs.entities[1].rotation, Rotation::new(5, 6));
    assert_eq!(world.ecs.entities[0].rotation, Rotation::new(0, 0));
    let players = world.get_all_players();
    assert_eq!(players.len(), 2);
    assert_eq!(players[0], (a, "alice".to_string(), to));
    assert_eq!(players[1].1, "bob");
    world.tick();
    assert_eq!(world.get_all_players().len(), 2);
}

#[test]
fn entity_components() {
    assert_eq!(EntityType::player().tag, "player");
    assert_eq!(EntityType::item().tag, "item");
    assert_eq!(EntityType::new("cow".to_string()).tag, "cow");
    assert_eq!(GameMode::Survival.id(), 0);
    assert_eq!(GameMode::Creative.id(), 1);
    assert_eq!(GameMode::Adventure.id(), 2);
    assert_eq!(GameMode::Spectator.id(), 3);
    assert_eq!(Velocity::new(1, 2, 3), Velocity { x: 1, y: 2, z: 3 });
    let p = Player::new("n".to_string());
    assert_eq!(p.level, 0);
    assert_eq!(p.experience, 0);
}

#[test]
fn world_manager_registry() {
    let mut manager = WorldManager::new();
    assert!(manager.get_world("a").is_none());
    manager.create_world("a".to_string(), "Alpha".to_string());
    manager.create_world("b".to_string(), "Beta".to_string());
    assert_eq!(manager.list_worlds(), vec!["a".to_string(), "b".to_string()]);
    assert_eq!(manager.get_world("a").unwrap().name, "Alpha");
    assert_eq!(manager.find_world("b"), Some(1));
    assert_eq!(manager.tick_all(), 2);

    let mut a = manager.remove_world("a").unwrap();
    a.set_block(0, 10, 0, 5);
    manager.insert_world(a);
    assert_eq!(manager.get_world("a").unwrap().get_block(0, 10, 0), 5);
    assert_eq!(manager.list_worlds(), vec!["b".to_string(), "a".to_string()]);

    manager.create_world("a".to_string(), "Again".to_string());
    assert_eq!(manager.get_world("a").unwrap().name, "Again");
    assert_eq!(manager.get_world("a").unwrap().get_block(0, 10, 0), 0);
    assert_eq!(manager.list_worlds().len(), 2);

    assert!(manager.remove_world("missing").is_none());
    assert!(manager.remove_world("b").is_some());
    assert!(manager.get_world("b").is_none());
    assert_eq!(manager.list_worlds(), vec!["a".to_string()]);
}

fn same_chunk(a: &Chunk, b: &Chunk) -> bool {
    a.position == b.position
        && a.heightmap == b.heightmap
        && a.biomes == b.biomes
        && a.encode() == b.encode()
        && (0..16).all(|x| (0..16).all(|z| (0..CHUNK_HEIGHT).all(|y| a.get_block(x, y, z) == b.get_block(x, y, z))))
}

#[test]
fn chunk_read_back_as_written() {
    let mut chunk = Chunk::flat(ChunkPosition::new(2, -3), 4);
    chunk.set_block(1, 200, 2, 0x1234);
    chunk.set_block(15, 383, 15, 1);
    chunk.heightmap[7] = -5;
    chunk.biomes[9] = i32::MIN;
    let bytes = chunk.encode();
    let read = match Chunk::decode(ChunkPosition::new(2, -3), &bytes) {
        Ok(read) => read,
        Err(_) => panic!("an encoded chunk must be read"),
    };
    assert!(same_chunk(&chunk, &read));
    assert_eq!(read.get_block(1, 200, 2), 0x1234);
    assert_eq!(read.heightmap[7], -5);
    assert_eq!(read.biomes[9], i32::MIN);

    let air = Chunk::new(ChunkPosition::new(0, 0));
    let read = Chunk::decode(ChunkPosition::new(0, 0), &air.encode());
    assert!(matches!(&read, Ok(c) if same_chunk(c, &air)));
}

#[test]
fn chunk_bytes_that_are_no_chunk() {
    let at = ChunkPosition::new(0, 0);
    let good = Chunk::flat(at, 4).encode();
    assert!(Chunk::decode(at, &good).is_ok());
    assert!(Chunk::decode(at, &[]).is_err());
    assert!(Chunk::decode(at, &good[..good.len() - 1]).is_err());
    assert!(Chunk::decode(at, &good[..1500]).is_err());
    let mut longer = good.clone();
    longer.push(0);
    assert!(Chunk::decode(at, &longer).is_err());
    // a marker that is neither 0 nor 1
    let mut marker = good.clone();
    marker[1024] = 2;
    assert!(Chunk::decode(at, &marker).is_err());
    // a count that is not the number of blocks
    let mut count = good.clone();
    count[1026] = count[1026].wrapping_add(1);
    assert!(Chunk::decode(at, &count).is_err());
    // a block that the count does not know of
    let mut block = good.clone();
    let last_block = 1025 + 2 + 4095 * 2 + 1;
    assert_eq!(block[last_block], 0);
    block[last_block] = 9;
    assert!(Chunk::decode(at, &block).is_err());
    // a payload for a section of air
    let mut air = Chunk::new(at).encode();
    air[1024] = 1;
    air.splice(1025..1025, vec![0u8; 12290]);
    assert!(Chunk::decode(at, &air).is_err());
}

#[test]
fn section_read_back_as_written() {
    let mut section = ChunkSection::new();
    section.set_block(3, 4, 5, 77);
    let mut bytes = vec![0xaa; 3];
    bytes.extend(section.encode());
    let read = ChunkSection::decode(&bytes, 3).unwrap();
    assert_eq!(read.get_block(3, 4, 5), 77);
    assert_eq!(read.encode(), section.encode());
    assert!(ChunkSection::decode(&bytes, 4).is_none());
    assert!(ChunkSection::decode(&bytes, usize::MAX).is_none());
    assert!(ChunkSection::decode(&ChunkSection::new().encode(), 0).is_none());
}

#[test]
fn server_numbers() {
    let mut manager = WorldManager::new();
    assert_eq!(manager.stats().active_worlds, 0);
    assert_eq!(manager.stats().total_players, 0);
    let mut a = World::new("a".to_string(), "A".to_string());
    a.spawn_player("p".to_string(), 1);
    a.spawn_player("q".to_string(), 2);
    a.spawn_entity("cow".to_string(), 3, Position::new(0, 0, 0));
    assert_eq!(a.player_count(), 2);
    let mut b = World::new("b".to_string(), "B".to_string());
    b.spawn_player("r".to_string(), 1);
    manager.insert_world(a);
    manager.insert_world(b);
    manager.create_world("c".to_string(), "C".to_string());
    let stats = manager.stats();
    assert_eq!(stats.active_worlds, 3);
    assert_eq!(stats.total_players, 3);
}
