use crate::protocol::connection::MinecraftConnection;
use crate::protocol::packets::{Blob, ClientBoundPacket, ServerBoundPacket, ServerBoundPacketView};
use crate::protocol::types::ConnectionState;
use crate::world::entity::{Position, Rotation, F64_SIXTY_FOUR};
use crate::world::manager::{Entity, EntityRecord, World};
use std::collections::HashMap;
use vstd::prelude::*;
use vstd::string::StringExecFns;

verus! {

broadcast use vstd::std_specs::hash::group_hash_axioms;

/// The protocol revision that the server speaks.
pub const PROTOCOL_VERSION: i32 = 762;

/// The block that a placement puts down: the placement packet names none,
/// and what a player holds is not tracked.
pub const PLACED_BLOCK: u16 = 4;

/// How far around the spawn point chunks are sent at login, in chunks.
pub const SPAWN_VIEW_RADIUS: i32 = 2;

/// The JSON string literal for a text, quotes and escapes included, as
/// `serde_json` writes it.
pub uninterp spec fn json_string_text(text: Seq<char>) -> Seq<char>;

/// `serde_json::to_string` on a string: the JSON string literal for `text`.
/// The call always gives one: a string is written into a vector, which has
/// no way to fail.
#[verifier::external_body]
fn json_string(text: &str) -> (r: Option<String>)
    ensures
        r.is_some(),
        r matches Some(literal) ==> literal@ == json_string_text(text@),
{
    serde_json::to_string(text).ok()
}

/// The text that describes the server that runs the world `name`.
pub open spec fn spec_description(name: Seq<char>) -> Seq<char> {
    "Plunkit Server - "@ + name
}

/// The status of the server as JSON, around the JSON string literal of its
/// description: an object with the members `description`, `players` and
/// `version`, in that order.
pub open spec fn spec_status_json(description_literal: Seq<char>) -> Seq<char> {
    "{\"description\":{\"text\":"@ + description_literal
        + "},\"players\":{\"max\":20,\"online\":0,\"sample\":[]},\"version\":{\"name\":\"1.19.4\",\"protocol\":762}}"@
}

/// The status of the server as JSON, around the JSON string literal of its
/// description.
pub fn status_json_from(description_literal: &str) -> (r: String)
    ensures
        r@ == spec_status_json(description_literal@),
{
    let mut json = String::from_str("{\"description\":{\"text\":");
    json.append(description_literal);
    json.append(
        "},\"players\":{\"max\":20,\"online\":0,\"sample\":[]},\"version\":{\"name\":\"1.19.4\",\"protocol\":762}}",
    );
    json
}

/// The status of the server that runs the world `name`, as JSON: its
/// description is "Plunkit Server - " and the name.
pub fn status_json(name: &str) -> (r: String)
    ensures
        r@ == spec_status_json(json_string_text(spec_description(name@))),
{
    let mut description = String::from_str("Plunkit Server - ");
    description.append(name);
    let literal = json_string(description.as_str()).unwrap();
    status_json_from(literal.as_str())
}

/// What binds a connection to its player: identifier, name, world and
/// entity.
pub struct PlayerSession {
    pub uuid: u128,
    pub username: String,
    pub world_id: String,
    pub entity: Entity,
}

/// What the world's extensions are to be told after a packet. The caller
/// runs the hook and reports back what it decided.
#[allow(inconsistent_fields)]
pub enum WorldEvent {
    Nothing,
    PlayerJoined { entity_id: i32 },
    Chat { message: String },
    BlockBreak { location: (i32, i32, i32), status: i32, face: i8 },
    BlockPlace { location: (i32, i32, i32), face: i32, hand: i32 },
}

/// What a packet leads to: whether the connection stays open, the packets
/// to send in order, and the event to report.
pub struct PacketOutcome {
    pub keep_open: bool,
    pub replies: Vec<ClientBoundPacket>,
    pub event: WorldEvent,
}

/// A server for one world, with the sessions of the players in it, each
/// under the identifier of its player.
pub struct MinecraftServer {
    pub world: World,
    pub sessions: HashMap<u128, PlayerSession>,
}

/// Whether `packet` is a chunk-data packet for chunk (x, z) with the bytes
/// `data`.
pub open spec fn is_chunk_data(packet: ClientBoundPacket, x: int, z: int, data: Seq<u8>) -> bool {
    packet matches ClientBoundPacket::ChunkData { x: px, z: pz, data: bytes } && px == x && pz == z
        && bytes@ == data
}

/// Whether packet `k` of `sent` carries the chunk that is `k`-th around
/// (center_x, center_z), rows of five from low z to high z and within a row
/// from low x to high x, as `world` holds it.
pub open spec fn spawn_chunk_sent(
    world: World,
    sent: Seq<ClientBoundPacket>,
    center_x: int,
    center_z: int,
    k: int,
) -> bool {
    &&& world.spec_has_chunk(center_x - 2 + k % 5, center_z - 2 + k / 5)
    &&& is_chunk_data(
        sent[k],
        center_x - 2 + k % 5,
        center_z - 2 + k / 5,
        world.spec_chunk(center_x - 2 + k % 5, center_z - 2 + k / 5).spec_encode(),
    )
}

/// Whether chunk (a, c) lies in the square of 25 chunks around (center_x,
/// center_z).
pub open spec fn in_spawn_square(center_x: int, center_z: int, a: int, c: int) -> bool {
    center_x - 2 <= a <= center_x + 2 && center_z - 2 <= c <= center_z + 2
}

/// What sending the spawn chunks around (center_x, center_z) does to the
/// chunks of a world: afterwards the world holds the chunks that it held
/// and the chunks of the square, and no others; a chunk that it held is
/// what it was; a chunk of the square that it did not hold is the flat
/// chunk of height 4 under full sky.
pub open spec fn spec_spawn_chunks_loaded(
    before: World,
    after: World,
    center_x: int,
    center_z: int,
) -> bool {
    &&& forall|a: int, c: int|
        #[trigger] after.spec_has_chunk(a, c) == (before.spec_has_chunk(a, c) || in_spawn_square(
            center_x,
            center_z,
            a,
            c,
        ))
    &&& forall|a: int, c: int|
        before.spec_has_chunk(a, c) ==> #[trigger] after.spec_chunk(a, c) == before.spec_chunk(
            a,
            c,
        )
    &&& forall|a: int, c: int|
        !before.spec_has_chunk(a, c) && in_spawn_square(center_x, center_z, a, c) ==> {
            &&& (#[trigger] after.spec_chunk(a, c)).wf()
            &&& after.spec_chunk(a, c).spec_is_flat(4)
            &&& after.spec_chunk(a, c).spec_unlit()
        }
}

impl MinecraftServer {
    pub fn new(world: World) -> (r: Self)
        ensures
            r.world == world,
            r.sessions@ == Map::<u128, PlayerSession>::empty(),
    {
        Self { world, sessions: HashMap::new() }
    }

    /// The chunks around (center_x, center_z) as packets, row by row: the
    /// outer order is z, the inner order x. Chunks that the world does not
    /// hold are generated; the chunks it holds stay as they are.
    pub fn send_spawn_chunks(&mut self, center_x: i32, center_z: i32) -> (r: Vec<ClientBoundPacket>)
        requires
            old(self).world.wf(),
            i32::MIN + 2 <= center_x <= i32::MAX - 2,
            i32::MIN + 2 <= center_z <= i32::MAX - 2,
        ensures
            final(self).world.wf(),
            final(self).sessions == old(self).sessions,
            final(self).world.id == old(self).world.id,
            final(self).world.name == old(self).world.name,
            final(self).world.ecs == old(self).world.ecs,
            final(self).world.entity_counter == old(self).world.entity_counter,
            r@.len() == 25,
            forall|k: int|
                0 <= k < 25 ==> #[trigger] spawn_chunk_sent(
                    final(self).world,
                    r@,
                    center_x as int,
                    center_z as int,
                    k,
                ),
            forall|a: int, c: int|
                old(self).world.spec_has_chunk(a, c) ==> #[trigger] final(
                    self
                ).world.spec_has_chunk(a, c) && final(self).world.spec_chunk(a, c) == old(
                    self
                ).world.spec_chunk(a, c),
            spec_spawn_chunks_loaded(
                old(self).world,
                final(self).world,
                center_x as int,
                center_z as int,
            ),
    {
        let mut out: Vec<ClientBoundPacket> = Vec::new();
        let mut k: usize = 0;
        while k < 25
            invariant
                k <= 25,
                i32::MIN + 2 <= center_x <= i32::MAX - 2,
                i32::MIN + 2 <= center_z <= i32::MAX - 2,
                self.world.wf(),
                self.sessions == old(self).sessions,
                self.world.id == old(self).world.id,
                self.world.name == old(self).world.name,
                self.world.ecs == old(self).world.ecs,
                self.world.entity_counter == old(self).world.entity_counter,
                out@.len() == k,
                forall|i: int|
                    0 <= i < k ==> #[trigger] spawn_chunk_sent(
                        self.world,
                        out@,
                        center_x as int,
                        center_z as int,
                        i,
                    ),
                forall|a: int, c: int|
                    old(self).world.spec_has_chunk(a, c) ==> #[trigger] self.world.spec_has_chunk(
                        a,
                        c,
                    ) && self.world.spec_chunk(a, c) == old(self).world.spec_chunk(a, c),
                forall|a: int, c: int|
                    #[trigger] self.world.spec_has_chunk(a, c) ==> old(self).world.spec_has_chunk(
                        a,
                        c,
                    ) || in_spawn_square(center_x as int, center_z as int, a, c),
                forall|a: int, c: int|
                    !old(self).world.spec_has_chunk(a, c) && self.world.spec_has_chunk(a, c) ==> {
                        &&& (#[trigger] self.world.spec_chunk(a, c)).wf()
                        &&& self.world.spec_chunk(a, c).spec_is_flat(4)
                        &&& self.world.spec_chunk(a, c).spec_unlit()
                    },
            decreases 25 - k,
        {
            let x: i32 = center_x - SPAWN_VIEW_RADIUS + (k % 5) as i32;
            let z: i32 = center_z - SPAWN_VIEW_RADIUS + (k / 5) as i32;
            let ghost before = self.world;
            let ghost sent = out@;
            self.world.get_or_generate_chunk(x, z);
            let data = match self.world.get_chunk(x, z) {
                Some(chunk) => {
                    proof {
                        crate::world::manager::lemma_first_at(
                            self.world.chunks@,
                            x as int,
                            z as int,
                            0,
                        );
                    }
                    chunk.encode()
                },
                None => Vec::new(),
            };
            out.push(ClientBoundPacket::ChunkData { x, z, data });
            proof {
                assert forall|a: int, c: int| before.spec_has_chunk(a, c) implies #[trigger]
                    self.world.spec_has_chunk(a, c) && self.world.spec_chunk(a, c)
                    == before.spec_chunk(a, c) by {
                    if a == x && c == z {
                    }
                }
                assert(in_spawn_square(center_x as int, center_z as int, x as int, z as int));
                assert forall|a: int, c: int| #[trigger]
                    self.world.spec_has_chunk(a, c) implies old(self).world.spec_has_chunk(a, c)
                    || in_spawn_square(center_x as int, center_z as int, a, c) by {
                    if !(a == x && c == z) {
                        assert(self.world.spec_has_chunk(a, c) == before.spec_has_chunk(a, c));
                    }
                }
                assert forall|a: int, c: int|
                    !old(self).world.spec_has_chunk(a, c) && self.world.spec_has_chunk(
                        a,
                        c,
                    ) implies {
                    &&& (#[trigger] self.world.spec_chunk(a, c)).wf()
                    &&& self.world.spec_chunk(a, c).spec_is_flat(4)
                    &&& self.world.spec_chunk(a, c).spec_unlit()
                } by {
                    if !(a == x && c == z) {
                        assert(self.world.spec_has_chunk(a, c) == before.spec_has_chunk(a, c));
                        assert(self.world.spec_chunk(a, c) == before.spec_chunk(a, c));
                    } else if before.spec_has_chunk(a, c) {
                        assert(self.world.spec_chunk(a, c) == before.spec_chunk(a, c));
                    }
                }
                assert forall|i: int| 0 <= i < k + 1 implies #[trigger] spawn_chunk_sent(
                    self.world,
                    out@,
                    center_x as int,
                    center_z as int,
                    i,
                ) by {
                    if i < k {
                        assert(spawn_chunk_sent(before, sent, center_x as int, center_z as int, i));
                        assert(out@[i] == sent[i]);
                        assert(before.spec_has_chunk(center_x - 2 + i % 5, center_z - 2 + i / 5));
                    }
                }
            }
            k = k + 1;
        }
        proof {
            assert forall|a: int, c: int| #[trigger]
                self.world.spec_has_chunk(a, c) == (old(self).world.spec_has_chunk(a, c)
                    || in_spawn_square(center_x as int, center_z as int, a, c)) by {
                if in_spawn_square(center_x as int, center_z as int, a, c) {
                    let i = (c - center_z + 2) * 5 + (a - center_x + 2);
                    assert(0 <= i < 25);
                    assert(i % 5 == a - center_x + 2 && i / 5 == c - center_z + 2);
                    assert(spawn_chunk_sent(self.world, out@, center_x as int, center_z as int, i));
                }
            }
            assert forall|a: int, c: int| old(self).world.spec_has_chunk(a, c) implies #[trigger]
                self.world.spec_chunk(a, c) == old(self).world.spec_chunk(a, c) by {
                assert(self.world.spec_has_chunk(a, c));
            }
            assert forall|a: int, c: int|
                !old(self).world.spec_has_chunk(a, c) && in_spawn_square(
                    center_x as int,
                    center_z as int,
                    a,
                    c,
                ) implies {
                &&& (#[trigger] self.world.spec_chunk(a, c)).wf()
                &&& self.world.spec_chunk(a, c).spec_is_flat(4)
                &&& self.world.spec_chunk(a, c).spec_unlit()
            } by {
                assert(self.world.spec_has_chunk(a, c));
            }
        }
        out
    }
}

/// The outcome of a packet that asks for nothing: the connection stays
/// open, nothing is sent, nothing is reported.
pub open spec fn is_quiet(outcome: PacketOutcome) -> bool {
    outcome.keep_open && outcome.replies@.len() == 0 && outcome.event is Nothing
}

/// Neither the world nor the sessions differ between `before` and `after`.
pub open spec fn server_unchanged(before: MinecraftServer, after: MinecraftServer) -> bool {
    after.world == before.world && after.sessions == before.sessions
}

/// The state that a handshake asking for `next_state` leads to.
pub open spec fn spec_handshake_target(next_state: i32) -> ConnectionState {
    if next_state == 1 {
        ConnectionState::Status
    } else if next_state == 2 {
        ConnectionState::Login
    } else {
        ConnectionState::Handshaking
    }
}

/// Whether a login under the identifier `uuid` is refused: an entity of the
/// world has the identifier already, or the world has run out of numbers.
pub open spec fn spec_login_refused(world: World, uuid: u128) -> bool {
    world.spec_has_uuid(uuid) || world.entity_counter == i32::MAX
}

/// What an accepted login does: one player joins the world, with the name
/// and the identifier of the login; no other entity has that identifier and
/// the entities that were there stay; a session binds the connection to the
/// player; and the client gets login success, join game, its position at
/// the spawn point, and the 25 chunks around the spawn point, which the
/// world holds afterwards as `spec_spawn_chunks_loaded` says.
pub open spec fn spec_login_accepted(
    before: MinecraftServer,
    after: MinecraftServer,
    outcome: PacketOutcome,
    name: Seq<char>,
    uuid: u128,
) -> bool {
    let joined = before.world.spec_entities().len() as int;
    &&& outcome.keep_open
    &&& outcome.event matches WorldEvent::PlayerJoined { entity_id } && entity_id
        == before.world.entity_counter
    &&& after.world.spec_entities().len() == joined + 1
    &&& after.world.entity_counter == before.world.entity_counter + 1
    &&& World::spec_fresh_player(
        after.world.spec_entities()[joined],
        before.world.entity_counter,
        name,
        uuid,
    )
    &&& forall|i: int|
        0 <= i < joined ==> (#[trigger] after.world.spec_entities()[i])
            == before.world.spec_entities()[i] && after.world.spec_entities()[i].uuid.uuid != uuid
    &&& after.sessions@.contains_key(uuid)
    &&& after.sessions@ == before.sessions@.insert(uuid, after.sessions@[uuid])
    &&& after.sessions@[uuid].uuid == uuid
    &&& after.sessions@[uuid].username@ == name
    &&& after.sessions@[uuid].world_id@ == before.world.id@
    &&& after.sessions@[uuid].entity.index == joined
    &&& outcome.replies@.len() == 28
    &&& outcome.replies@[0] matches ClientBoundPacket::LoginSuccess { uuid: sent, username }
        && sent == uuid && username@ == name
    &&& outcome.replies@[1] matches ClientBoundPacket::JoinGame {
        entity_id,
        is_hardcore,
        gamemode,
        previous_gamemode,
        dimension_names,
        dimension_type,
        dimension_name,
        hashed_seed,
        max_players,
        view_distance,
        simulation_distance,
        reduced_debug_info,
        enable_respawn_screen,
        is_debug,
        is_flat,
        ..
    } && entity_id == 1 && !is_hardcore && gamemode == 1 && previous_gamemode == -1
        && dimension_names@.len() == 1 && dimension_names@[0]@ == "minecraft:overworld"@
        && dimension_type@ == "minecraft:overworld"@ && dimension_name@ == "minecraft:overworld"@
        && hashed_seed == 0 && max_players == 20 && view_distance == 10 && simulation_distance
        == 10 && !reduced_debug_info && enable_respawn_screen && !is_debug && is_flat
    &&& outcome.replies@[2] matches ClientBoundPacket::PlayerPositionAndLook {
        x,
        y,
        z,
        yaw,
        pitch,
        flags,
        teleport_id,
        dismount_vehicle,
    } && x == 0 && y == F64_SIXTY_FOUR && z == 0 && yaw == 0 && pitch == 0 && flags == 0
        && teleport_id == 0 && !dismount_vehicle
    &&& forall|k: int|
        0 <= k < 25 ==> #[trigger] spawn_chunk_sent(
            after.world,
            outcome.replies@.subrange(3, 28),
            0,
            0,
            k,
        )
    &&& spec_spawn_chunks_loaded(before.world, after.world, 0, 0)
    &&& after.world.id == before.world.id
    &&& after.world.name == before.world.name
}

/// What `handle_packet` does with `packet` on a connection in the state
/// `state` that plays `entity`: the state afterwards is `target`, the server
/// goes from `before` to `after`, and `outcome` is handed back. A packet
/// that the state does not permit is passed over, but a login start outside
/// the login state closes the connection. From the stream no login start
/// arrives outside the login state: the rule on unknown identifiers comes
/// first there, so that `read_packet` passes over a frame with the
/// identifier of a login start in a state that does not know it. The
/// closing rule is for a login start that is handed over all the same.
pub open spec fn spec_handled(
    state: ConnectionState,
    entity: Option<Entity>,
    before: MinecraftServer,
    packet: ServerBoundPacketView,
    fresh_uuid: u128,
    target: ConnectionState,
    bound: Option<Entity>,
    after: MinecraftServer,
    outcome: PacketOutcome,
) -> bool {
    match packet {
        ServerBoundPacketView::Handshake { next_state, .. } => {
            &&& is_quiet(outcome)
            &&& server_unchanged(before, after)
            &&& bound == entity
            &&& target == if state == ConnectionState::Handshaking {
                spec_handshake_target(next_state)
            } else {
                state
            }
        },
        ServerBoundPacketView::StatusRequest => {
            &&& server_unchanged(before, after)
            &&& target == state
            &&& bound == entity
            &&& if state == ConnectionState::Status {
                &&& outcome.keep_open
                &&& outcome.event is Nothing
                &&& outcome.replies@.len() == 1
                &&& outcome.replies@[0] matches ClientBoundPacket::StatusResponse { json }
                    && json@ == spec_status_json(
                    json_string_text(spec_description(before.world.name@)),
                )
            } else {
                is_quiet(outcome)
            }
        },
        ServerBoundPacketView::StatusPing { payload } => {
            &&& server_unchanged(before, after)
            &&& target == state
            &&& bound == entity
            &&& if state == ConnectionState::Status {
                &&& !outcome.keep_open
                &&& outcome.event is Nothing
                &&& outcome.replies@.len() == 1
                &&& outcome.replies@[0] matches ClientBoundPacket::StatusPong { payload: sent }
                    && sent == payload
            } else {
                is_quiet(outcome)
            }
        },
        ServerBoundPacketView::LoginStart { name, uuid } => {
            let player_uuid = match uuid {
                Some(given) => given,
                None => fresh_uuid,
            };
            if state != ConnectionState::Login {
                &&& !outcome.keep_open
                &&& outcome.replies@.len() == 0
                &&& outcome.event is Nothing
                &&& server_unchanged(before, after)
                &&& target == state
                &&& bound == entity
            } else if spec_login_refused(before.world, player_uuid) {
                &&& !outcome.keep_open
                &&& outcome.replies@.len() == 1
                &&& outcome.replies@[0] matches ClientBoundPacket::LoginDisconnect { reason }
                    && reason@ == "Login refused"@
                &&& outcome.event is Nothing
                &&& server_unchanged(before, after)
                &&& target == state
                &&& bound == entity
            } else {
                &&& target == ConnectionState::Play
                &&& bound == Some(Entity { index: before.world.spec_entities().len() as usize })
                &&& spec_login_accepted(before, after, outcome, name, player_uuid)
            }
        },
        ServerBoundPacketView::KeepAlive { id } => {
            &&& server_unchanged(before, after)
            &&& target == state
            &&& bound == entity
            &&& if state == ConnectionState::Play {
                &&& outcome.keep_open
                &&& outcome.event is Nothing
                &&& outcome.replies@.len() == 1
                &&& outcome.replies@[0] matches ClientBoundPacket::KeepAlive { id: sent } && sent
                    == id
            } else {
                is_quiet(outcome)
            }
        },
        ServerBoundPacketView::PlayerPosition { x, y, z, .. } => {
            &&& is_quiet(outcome)
            &&& target == state
            &&& bound == entity
            &&& after.sessions == before.sessions
            &&& spec_moved(state, entity, before.world, after.world, Some(Position { x, y, z }), None)
        },
        ServerBoundPacketView::PlayerRotation { yaw, pitch, .. } => {
            &&& is_quiet(outcome)
            &&& target == state
            &&& bound == entity
            &&& after.sessions == before.sessions
            &&& spec_moved(
                state,
                entity,
                before.world,
                after.world,
                None,
                Some(Rotation { yaw, pitch }),
            )
        },
        ServerBoundPacketView::PlayerPositionAndRotation { x, y, z, yaw, pitch, .. } => {
            &&& is_quiet(outcome)
            &&& target == state
            &&& bound == entity
            &&& after.sessions == before.sessions
            &&& spec_moved(
                state,
                entity,
                before.world,
                after.world,
                Some(Position { x, y, z }),
                Some(Rotation { yaw, pitch }),
            )
        },
        ServerBoundPacketView::ChatMessage { message } => {
            &&& server_unchanged(before, after)
            &&& target == state
            &&& bound == entity
            &&& outcome.keep_open
            &&& outcome.replies@.len() == 0
            &&& if state == ConnectionState::Play {
                outcome.event matches WorldEvent::Chat { message: told } && told@ == message
            } else {
                outcome.event is Nothing
            }
        },
        ServerBoundPacketView::PlayerDigging { status, location, face } => {
            &&& server_unchanged(before, after)
            &&& target == state
            &&& bound == entity
            &&& outcome.keep_open
            &&& outcome.replies@.len() == 0
            &&& if state == ConnectionState::Play {
                outcome.event == (WorldEvent::BlockBreak { location, status, face })
            } else {
                outcome.event is Nothing
            }
        },
        ServerBoundPacketView::PlayerBlockPlacement { location, face, hand, .. } => {
            &&& server_unchanged(before, after)
            &&& target == state
            &&& bound == entity
            &&& outcome.keep_open
            &&& outcome.replies@.len() == 0
            &&& if state == ConnectionState::Play {
                outcome.event == (WorldEvent::BlockPlace { location, face, hand })
            } else {
                outcome.event is Nothing
            }
        },
        _ => {
            &&& is_quiet(outcome)
            &&& server_unchanged(before, after)
            &&& target == state
            &&& bound == entity
        },
    }
}

/// What a movement packet does to the world: in the play state, the entity
/// that the connection plays takes the position and the rotation that the
/// packet gives; in every other case the world stays as it was.
pub open spec fn spec_moved(
    state: ConnectionState,
    entity: Option<Entity>,
    before: World,
    after: World,
    position: Option<Position>,
    rotation: Option<Rotation>,
) -> bool {
    match entity {
        Some(handle) => if state == ConnectionState::Play && handle.index
            < before.spec_entities().len() {
            let was = before.spec_entities()[handle.index as int];
            &&& after.id == before.id
            &&& after.name == before.name
            &&& after.chunks == before.chunks
            &&& after.entity_counter == before.entity_counter
            &&& after.spec_entities() == before.spec_entities().update(
                handle.index as int,
                (EntityRecord {
                    position: match position {
                        Some(p) => p,
                        None => was.position,
                    },
                    rotation: match rotation {
                        Some(r) => r,
                        None => was.rotation,
                    },
                    ..was
                }),
            )
        } else {
            after == before
        },
        None => after == before,
    }
}

/// An outcome that keeps the connection open and sends and reports nothing.
fn quiet_outcome() -> (r: PacketOutcome)
    ensures
        is_quiet(r),
{
    PacketOutcome { keep_open: true, replies: Vec::new(), event: WorldEvent::Nothing }
}

/// An outcome that sends one packet and reports nothing.
fn reply_outcome(keep_open: bool, reply: ClientBoundPacket) -> (r: PacketOutcome)
    ensures
        r.keep_open == keep_open,
        r.replies@.len() == 1,
        r.replies@[0] == reply,
        r.event is Nothing,
{
    let mut replies: Vec<ClientBoundPacket> = Vec::new();
    replies.push(reply);
    PacketOutcome { keep_open, replies, event: WorldEvent::Nothing }
}

/// An outcome that keeps the connection open, sends nothing and reports
/// `event` where `report` is set.
fn event_outcome(report: bool, event: WorldEvent) -> (r: PacketOutcome)
    ensures
        r.keep_open,
        r.replies@.len() == 0,
        report ==> r.event == event,
        !report ==> r.event is Nothing,
{
    PacketOutcome {
        keep_open: true,
        replies: Vec::new(),
        event: if report {
            event
        } else {
            WorldEvent::Nothing
        },
    }
}

fn in_state(conn: &MinecraftConnection, state: ConnectionState) -> (r: bool)
    ensures
        r == (conn.spec_state() == state),
{
    conn.state() == state
}

impl MinecraftServer {
    /// Moves and turns the entity that the connection plays.
    fn handle_movement(
        &mut self,
        conn: &MinecraftConnection,
        position: Option<Position>,
        rotation: Option<Rotation>,
    )
        requires
            old(self).world.wf(),
        ensures
            final(self).world.wf(),
            final(self).sessions == old(self).sessions,
            spec_moved(
                conn.spec_state(),
                conn.spec_entity(),
                old(self).world,
                final(self).world,
                position,
                rotation,
            ),
    {
        if !in_state(conn, ConnectionState::Play) {
            return;
        }
        let entity = match conn.entity() {
            Some(entity) => entity,
            None => { return; },
        };
        let ghost before = self.world.spec_entities();
        match position {
            Some(p) => { self.world.set_player_position(entity, p); },
            None => {},
        }
        match rotation {
            Some(r) => { self.world.update_player_rotation(entity, r); },
            None => {},
        }
        proof {
            if entity.index < before.len() {
                let was = before[entity.index as int];
                assert(self.world.spec_entities() =~= before.update(
                    entity.index as int,
                    (EntityRecord {
                        position: match position {
                            Some(p) => p,
                            None => was.position,
                        },
                        rotation: match rotation {
                            Some(r) => r,
                            None => was.rotation,
                        },
                        ..was
                    }),
                ));
            }
        }
    }

    /// Lets a player in: see `spec_login_accepted` and `spec_login_refused`.
    fn handle_login_start(
        &mut self,
        conn: &mut MinecraftConnection,
        name: String,
        uuid: Option<u128>,
        fresh_uuid: u128,
    ) -> (r: PacketOutcome)
        requires
            old(self).world.wf(),
            old(conn).spec_state() == ConnectionState::Login,
        ensures
            final(self).world.wf(),
            final(conn).spec_buffer() == old(conn).spec_buffer(),
            final(conn).spec_compression() == old(conn).spec_compression(),
            spec_handled(
                old(conn).spec_state(),
                old(conn).spec_entity(),
                *old(self),
                (ServerBoundPacketView::LoginStart { name: name@, uuid }),
                fresh_uuid,
                final(conn).spec_state(),
                final(conn).spec_entity(),
                *final(self),
                r,
            ),
    {
        let player_uuid: u128 = match uuid {
            Some(given) => given,
            None => fresh_uuid,
        };
        let ghost before = *self;
        let username = name.clone();
        let entity_id = self.world.entity_counter;
        let entity = match self.world.spawn_player(name, player_uuid) {
            Some(entity) => entity,
            None => {
                return reply_outcome(
                    false,
                    ClientBoundPacket::LoginDisconnect { reason: "Login refused".to_owned() },
                );
            },
        };
        conn.set_state(ConnectionState::Play);
        conn.set_entity(entity);
        self.sessions.insert(
            player_uuid,
            PlayerSession {
                uuid: player_uuid,
                username: username.clone(),
                world_id: self.world.id.clone(),
                entity,
            },
        );
        let mut replies: Vec<ClientBoundPacket> = Vec::new();
        replies.push(ClientBoundPacket::LoginSuccess { uuid: player_uuid, username });
        let mut dimension_names: Vec<String> = Vec::new();
        dimension_names.push("minecraft:overworld".to_owned());
        replies.push(
            ClientBoundPacket::JoinGame {
                entity_id: 1,
                is_hardcore: false,
                gamemode: 1,
                previous_gamemode: -1,
                dimension_names,
                registry_codec: Blob,
                dimension_type: "minecraft:overworld".to_owned(),
                dimension_name: "minecraft:overworld".to_owned(),
                hashed_seed: 0,
                max_players: 20,
                view_distance: 10,
                simulation_distance: 10,
                reduced_debug_info: false,
                enable_respawn_screen: true,
                is_debug: false,
                is_flat: true,
            },
        );
        replies.push(
            ClientBoundPacket::PlayerPositionAndLook {
                x: 0,
                y: F64_SIXTY_FOUR,
                z: 0,
                yaw: 0,
                pitch: 0,
                flags: 0,
                teleport_id: 0,
                dismount_vehicle: false,
            },
        );
        let ghost spawned = *self;
        let mut chunks = self.send_spawn_chunks(0, 0);
        let ghost sent = chunks@;
        replies.append(&mut chunks);
        let outcome = PacketOutcome {
            keep_open: true,
            replies,
            event: WorldEvent::PlayerJoined { entity_id },
        };
        proof {
            assert(outcome.replies@.subrange(3, 28) =~= sent);
            assert(self.world.spec_entities() == spawned.world.spec_entities());
            assert(spawned.world.chunks@ == before.world.chunks@);
            assert forall|a: int, c: int|
                spawned.world.spec_has_chunk(a, c) == before.world.spec_has_chunk(a, c)
                    && spawned.world.spec_chunk(a, c) == before.world.spec_chunk(a, c) by {}
            assert(spec_spawn_chunks_loaded(before.world, self.world, 0, 0));
            assert(spec_login_accepted(before, *self, outcome, name@, player_uuid));
        }
        outcome
    }

    /// Takes one packet from a connection: moves the connection to its next
    /// state, changes the world as the packet asks, and says what to send
    /// back, whether to keep the connection open, and what to report to the
    /// world's extensions. `fresh_uuid` is the identifier for a player who
    /// logs in without one.
    pub fn handle_packet(
        &mut self,
        conn: &mut MinecraftConnection,
        packet: ServerBoundPacket,
        fresh_uuid: u128,
    ) -> (r: PacketOutcome)
        requires
            old(self).world.wf(),
        ensures
            final(self).world.wf(),
            final(conn).spec_buffer() == old(conn).spec_buffer(),
            final(conn).spec_compression() == old(conn).spec_compression(),
            spec_handled(
                old(conn).spec_state(),
                old(conn).spec_entity(),
                *old(self),
                packet@,
                fresh_uuid,
                final(conn).spec_state(),
                final(conn).spec_entity(),
                *final(self),
                r,
            ),
    {
        match packet {
            ServerBoundPacket::Handshake { next_state, .. } => {
                if in_state(conn, ConnectionState::Handshaking) {
                    if next_state == 1 {
                        conn.set_state(ConnectionState::Status);
                    } else if next_state == 2 {
                        conn.set_state(ConnectionState::Login);
                    }
                }
                quiet_outcome()
            },
            ServerBoundPacket::StatusRequest => {
                if in_state(conn, ConnectionState::Status) {
                    let json = status_json(self.world.name.as_str());
                    reply_outcome(true, ClientBoundPacket::StatusResponse { json })
                } else {
                    quiet_outcome()
                }
            },
            ServerBoundPacket::StatusPing { payload } => {
                if in_state(conn, ConnectionState::Status) {
                    reply_outcome(false, ClientBoundPacket::StatusPong { payload })
                } else {
                    quiet_outcome()
                }
            },
            ServerBoundPacket::LoginStart { name, uuid } => {
                if in_state(conn, ConnectionState::Login) {
                    self.handle_login_start(conn, name, uuid, fresh_uuid)
                } else {
                    PacketOutcome {
                        keep_open: false,
                        replies: Vec::new(),
                        event: WorldEvent::Nothing,
                    }
                }
            },
            ServerBoundPacket::KeepAlive { id } => {
                if in_state(conn, ConnectionState::Play) {
                    reply_outcome(true, ClientBoundPacket::KeepAlive { id })
                } else {
                    quiet_outcome()
                }
            },
            ServerBoundPacket::PlayerPosition { x, y, z, .. } => {
                self.handle_movement(conn, Some(Position::new(x, y, z)), None);
                quiet_outcome()
            },
            ServerBoundPacket::PlayerRotation { yaw, pitch, .. } => {
                self.handle_movement(conn, None, Some(Rotation::new(yaw, pitch)));
                quiet_outcome()
            },
            ServerBoundPacket::PlayerPositionAndRotation { x, y, z, yaw, pitch, .. } => {
                self.handle_movement(
                    conn,
                    Some(Position::new(x, y, z)),
                    Some(Rotation::new(yaw, pitch)),
                );
                quiet_outcome()
            },
            ServerBoundPacket::ChatMessage { message } => {
                event_outcome(in_state(conn, ConnectionState::Play), WorldEvent::Chat { message })
            },
            ServerBoundPacket::PlayerDigging { status, location, face } => {
                event_outcome(
                    in_state(conn, ConnectionState::Play),
                    WorldEvent::BlockBreak { location, status, face },
                )
            },
            ServerBoundPacket::PlayerBlockPlacement { location, face, hand, .. } => {
                event_outcome(
                    in_state(conn, ConnectionState::Play),
                    WorldEvent::BlockPlace { location, face, hand },
                )
            },
            _ => quiet_outcome(),
        }
    }

    /// Carries out a block placement once the extensions have had their
    /// say: where none cancelled it, the block is written; where one did,
    /// the world stays as it was.
    pub fn apply_block_place(&mut self, location: (i32, i32, i32), block_id: u16, cancelled: bool)
        requires
            old(self).world.wf(),
        ensures
            final(self).world.wf(),
            final(self).sessions == old(self).sessions,
            cancelled ==> final(self).world == old(self).world,
            !cancelled ==> final(self).world.spec_block_written(
                &old(self).world,
                location.0 as int,
                location.1 as int,
                location.2 as int,
                block_id,
            ),
    {
        if !cancelled {
            self.world.set_block(location.0, location.1, location.2, block_id);
        }
    }

    /// Carries out a block break once the extensions have had their say:
    /// where none cancelled it, the block becomes air; where one did, the
    /// world stays as it was.
    pub fn apply_block_break(&mut self, location: (i32, i32, i32), cancelled: bool)
        requires
            old(self).world.wf(),
        ensures
            final(self).world.wf(),
            final(self).sessions == old(self).sessions,
            cancelled ==> final(self).world == old(self).world,
            !cancelled ==> final(self).world.spec_block_written(
                &old(self).world,
                location.0 as int,
                location.1 as int,
                location.2 as int,
                0,
            ),
    {
        self.apply_block_place(location, 0, cancelled);
    }

    /// The packet that carries a chat message to the players once the
    /// extensions have had their say: none where one of them cancelled it.
    pub fn chat_broadcast(message: String, sender: u128, cancelled: bool) -> (r: Option<
        ClientBoundPacket,
    >)
        ensures
            cancelled ==> r.is_none(),
            !cancelled ==> r == Some(ClientBoundPacket::ChatMessage { message, position: 0, sender }),
    {
        if cancelled {
            None
        } else {
            Some(ClientBoundPacket::ChatMessage { message, position: 0, sender })
        }
    }

    /// Drops the session of the player with the identifier `uuid`, as when
    /// its connection closes. Every other session stays.
    pub fn end_session(&mut self, uuid: u128)
        ensures
            final(self).world == old(self).world,
            final(self).sessions@ == old(self).sessions@.remove(uuid),
    {
        self.sessions.remove(&uuid);
    }
}

/// A status exchange: on a connection that starts in the handshaking state,
/// a handshake that asks for the status state, a status request and a
/// status ping with the payload `n` lead, in this order, to nothing sent,
/// then exactly one status response, then exactly one status pong with the
/// payload `n` and the end of the connection; server and world are what
/// they were.
pub proof fn lemma_status_exchange(
    start: MinecraftServer,
    handshake: ServerBoundPacketView,
    n: i64,
    fresh: u128,
    state1: ConnectionState,
    bound1: Option<Entity>,
    server1: MinecraftServer,
    outcome1: PacketOutcome,
    state2: ConnectionState,
    bound2: Option<Entity>,
    server2: MinecraftServer,
    outcome2: PacketOutcome,
    state3: ConnectionState,
    bound3: Option<Entity>,
    server3: MinecraftServer,
    outcome3: PacketOutcome,
)
    requires
        handshake matches ServerBoundPacketView::Handshake { next_state, .. } && next_state == 1,
        spec_handled(
            ConnectionState::Handshaking,
            None,
            start,
            handshake,
            fresh,
            state1,
            bound1,
            server1,
            outcome1,
        ),
        spec_handled(
            state1,
            bound1,
            server1,
            ServerBoundPacketView::StatusRequest,
            fresh,
            state2,
            bound2,
            server2,
            outcome2,
        ),
        spec_handled(
            state2,
            bound2,
            server2,
            (ServerBoundPacketView::StatusPing { payload: n }),
            fresh,
            state3,
            bound3,
            server3,
            outcome3,
        ),
    ensures
        outcome1.keep_open && outcome1.replies@.len() == 0,
        outcome2.keep_open && outcome2.replies@.len() == 1 && outcome2.replies@[0]
            is StatusResponse,
        !outcome3.keep_open && outcome3.replies@.len() == 1 && (
        outcome3.replies@[0] matches ClientBoundPacket::StatusPong { payload } && payload == n),
        server3.world == start.world,
        server3.sessions == start.sessions,
{
}

/// A login allocates exactly one entity: after an accepted login under the
/// name `name` and the identifier `uuid`, one entity of the world has that
/// identifier, it is a player of that name, and no other entity has the
/// identifier. A second login start on the same connection, which is then
/// in the play state, ends the connection and changes nothing.
pub proof fn lemma_login_allocates_one(
    before: MinecraftServer,
    entity: Option<Entity>,
    name: Seq<char>,
    uuid: u128,
    fresh: u128,
    state1: ConnectionState,
    bound1: Option<Entity>,
    after: MinecraftServer,
    outcome: PacketOutcome,
    again: ServerBoundPacketView,
    state2: ConnectionState,
    bound2: Option<Entity>,
    later: MinecraftServer,
    second: PacketOutcome,
)
    requires
        !spec_login_refused(before.world, uuid),
        spec_handled(
            ConnectionState::Login,
            entity,
            before,
            (ServerBoundPacketView::LoginStart { name, uuid: Some(uuid) }),
            fresh,
            state1,
            bound1,
            after,
            outcome,
        ),
        again is LoginStart,
        spec_handled(state1, bound1, after, again, fresh, state2, bound2, later, second),
    ensures
        after.world.spec_entities().len() == before.world.spec_entities().len() + 1,
        forall|i: int|
            0 <= i < after.world.spec_entities().len() ==> ((
            #[trigger] after.world.spec_entities()[i]).uuid.uuid == uuid <==> i
                == before.world.spec_entities().len()),
        after.world.spec_entities()[before.world.spec_entities().len() as int].player matches Some(
            player,
        ) && player.username@ == name,
        !second.keep_open,
        later.world == after.world,
        later.sessions == after.sessions,
{
}

/// A block placed after a join: where a player has joined a world that did
/// not hold the chunk of a place within the spawn square, and a block that
/// is not air is then written at that place, within the world's height, the
/// block reads back and its column is recorded at least as high as the
/// block.
pub proof fn lemma_block_placed_after_join(
    before: MinecraftServer,
    joined: MinecraftServer,
    outcome: PacketOutcome,
    name: Seq<char>,
    uuid: u128,
    placed: World,
    x: int,
    y: int,
    z: int,
    block_id: u16,
)
    requires
        spec_login_accepted(before, joined, outcome, name, uuid),
        !before.world.spec_has_chunk(x / 16, z / 16),
        in_spawn_square(0, 0, x / 16, z / 16),
        placed.spec_block_written(&joined.world, x, y, z, block_id),
        0 <= y < 384,
        block_id != 0,
    ensures
        placed.spec_block(x, y, z) == block_id,
        placed.spec_chunk(x / 16, z / 16).spec_height(x % 16, z % 16) >= y,
{
    let chunk = joined.world.spec_chunk(x / 16, z / 16);
    assert(joined.world.spec_has_chunk(x / 16, z / 16));
    assert(chunk.spec_is_flat(4));
    chunk.lemma_flat_covers(4);
    placed.lemma_written_block_height(&joined.world, x, y, z, block_id);
}

} // verus!
