use crate::registry::same_text;
use crate::world::chunk::{chunk_coordinate, local_coordinate, Chunk, ChunkPosition, CHUNK_HEIGHT};
use crate::world::entity::{
    EntityId, EntityType, EntityUuid, Health, OnGround, Player, Position, Rotation, Velocity,
    F32_TWENTY, F64_SIXTY_FOUR,
};
use vstd::prelude::*;

verus! {

/// The height of the flat world that is generated where a chunk is missing.
pub const FLAT_HEIGHT: usize = 4;

/// A handle to an entity of a world: stable for as long as the world lives.
#[derive(Clone, Copy, Debug, PartialEq, Eq, Structural)]
pub struct Entity {
    pub index: usize,
}

/// The components of one entity. `player` is there exactly for players.
pub struct EntityRecord {
    pub id: EntityId,
    pub uuid: EntityUuid,
    pub entity_type: EntityType,
    pub player: Option<Player>,
    pub position: Position,
    pub rotation: Rotation,
    pub velocity: Velocity,
    pub on_ground: OnGround,
    pub health: Health,
}

/// The entities of a world, each found by its handle.
pub struct EcsWorld {
    pub entities: Vec<EntityRecord>,
}

impl EcsWorld {
    pub fn new() -> (r: Self)
        ensures
            r.entities@.len() == 0,
    {
        Self { entities: Vec::new() }
    }
}

/// The index from `from` on of the first chunk at position (x, z), or the
/// number of chunks where there is none.
pub open spec fn first_at(chunks: Seq<Chunk>, x: int, z: int, from: int) -> int
    decreases chunks.len() - from,
{
    if from < 0 || from >= chunks.len() {
        chunks.len() as int
    } else if chunks[from].position.x == x && chunks[from].position.z == z {
        from
    } else {
        first_at(chunks, x, z, from + 1)
    }
}

/// `first_at` finds a chunk at (x, z) if there is one from `from` on.
pub proof fn lemma_first_at(chunks: Seq<Chunk>, x: int, z: int, from: int)
    requires
        0 <= from,
    ensures
        first_at(chunks, x, z, from) <= chunks.len(),
        first_at(chunks, x, z, from) < chunks.len() ==> from <= first_at(chunks, x, z, from)
            && chunks[first_at(chunks, x, z, from)].position.x == x && chunks[first_at(
            chunks,
            x,
            z,
            from,
        )].position.z == z,
        first_at(chunks, x, z, from) == chunks.len() ==> forall|i: int|
            from <= i < chunks.len() ==> !(chunks[i].position.x == x && chunks[i].position.z == z),
        forall|i: int|
            from <= i < first_at(chunks, x, z, from) ==> !(chunks[i].position.x == x
                && chunks[i].position.z == z),
    decreases chunks.len() - from,
{
    if from < chunks.len() && !(chunks[from].position.x == x && chunks[from].position.z == z) {
        lemma_first_at(chunks, x, z, from + 1);
    }
}

/// Where two sequences of chunks hold the same positions, `first_at` finds
/// the same index in both.
pub proof fn lemma_first_at_same_positions(
    a: Seq<Chunk>,
    b: Seq<Chunk>,
    x: int,
    z: int,
    from: int,
)
    requires
        0 <= from,
        a.len() == b.len(),
        forall|i: int| 0 <= i < a.len() ==> a[i].position == b[i].position,
    ensures
        first_at(a, x, z, from) == first_at(b, x, z, from),
    decreases a.len() - from,
{
    if from < a.len() {
        lemma_first_at_same_positions(a, b, x, z, from + 1);
    }
}

/// What `first_at` finds after one more chunk joins at the end.
pub proof fn lemma_first_at_push(chunks: Seq<Chunk>, added: Chunk, x: int, z: int, from: int)
    requires
        0 <= from <= chunks.len(),
    ensures
        first_at(chunks.push(added), x, z, from) == if first_at(chunks, x, z, from)
            < chunks.len() {
            first_at(chunks, x, z, from)
        } else if added.position.x == x && added.position.z == z {
            chunks.len() as int
        } else {
            chunks.len() as int + 1
        },
    decreases chunks.len() - from,
{
    let longer = chunks.push(added);
    if from < chunks.len() {
        assert(longer[from] == chunks[from]);
        lemma_first_at_push(chunks, added, x, z, from + 1);
    } else {
        assert(longer[from] == added);
        assert(first_at(longer, x, z, from + 1) == longer.len());
    }
}

/// A world: its chunks, its entities, and the number that the next entity
/// will get.
pub struct World {
    pub id: String,
    pub name: String,
    pub ecs: EcsWorld,
    pub chunks: Vec<Chunk>,
    pub entity_counter: i32,
}

impl World {
    /// Whether the world holds a chunk at (x, z).
    pub open spec fn spec_has_chunk(&self, x: int, z: int) -> bool {
        first_at(self.chunks@, x, z, 0) < self.chunks@.len()
    }

    /// The chunk that the world holds at (x, z).
    pub open spec fn spec_chunk(&self, x: int, z: int) -> Chunk {
        self.chunks@[first_at(self.chunks@, x, z, 0)]
    }

    /// The block at (x, y, z): air outside the world's height and where no
    /// chunk is loaded.
    pub open spec fn spec_block(&self, x: int, y: int, z: int) -> u16 {
        if 0 <= y < 384 && self.spec_has_chunk(x / 16, z / 16) {
            self.spec_chunk(x / 16, z / 16).spec_block(x % 16, y, z % 16)
        } else {
            0
        }
    }

    /// The entities, as the sequence that their handles index.
    pub open spec fn spec_entities(&self) -> Seq<EntityRecord> {
        self.ecs.entities@
    }

    /// Every chunk is well-formed and no two share a position.
    pub open spec fn chunks_wf(&self) -> bool {
        &&& forall|i: int| 0 <= i < self.chunks@.len() ==> (#[trigger] self.chunks@[i]).wf()
        &&& forall|i: int, j: int|
            #![trigger self.chunks@[i], self.chunks@[j]]
            0 <= i < j < self.chunks@.len() ==> self.chunks@[i].position
                != self.chunks@[j].position
    }

    /// Every entity has a number of its own, given out before the counter
    /// reached its present value, and an identifier of its own.
    pub open spec fn entities_wf(&self) -> bool {
        &&& self.entity_counter >= 1
        &&& forall|i: int|
            0 <= i < self.spec_entities().len() ==> 1 <= (#[trigger] self.spec_entities()[i]).id.id
                < self.entity_counter
        &&& forall|i: int, j: int|
            #![trigger self.spec_entities()[i], self.spec_entities()[j]]
            0 <= i < j < self.spec_entities().len() ==> self.spec_entities()[i].id.id
                != self.spec_entities()[j].id.id && self.spec_entities()[i].uuid.uuid
                != self.spec_entities()[j].uuid.uuid
    }

    pub open spec fn wf(&self) -> bool {
        self.chunks_wf() && self.entities_wf()
    }

    /// A world without chunks and without entities.
    pub fn new(id: String, name: String) -> (r: Self)
        ensures
            r.wf(),
            r.id == id,
            r.name == name,
            r.chunks@.len() == 0,
            r.spec_entities().len() == 0,
            r.entity_counter == 1,
    {
        Self { id, name, ecs: EcsWorld::new(), chunks: Vec::new(), entity_counter: 1 }
    }

    /// The index of the chunk at (x, z), where the world holds one.
    pub fn find_chunk(&self, x: i32, z: i32) -> (r: Option<usize>)
        ensures
            match r {
                Some(i) => i == first_at(self.chunks@, x as int, z as int, 0) && i
                    < self.chunks@.len(),
                None => !self.spec_has_chunk(x as int, z as int),
            },
    {
        let mut i: usize = 0;
        while i < self.chunks.len()
            invariant
                i <= self.chunks@.len(),
                first_at(self.chunks@, x as int, z as int, 0) == first_at(
                    self.chunks@,
                    x as int,
                    z as int,
                    i as int,
                ),
            decreases self.chunks@.len() - i,
        {
            if self.chunks[i].position.x == x && self.chunks[i].position.z == z {
                return Some(i);
            }
            i = i + 1;
        }
        None
    }

    /// The chunk at (x, z), where the world holds one.
    pub fn get_chunk(&self, x: i32, z: i32) -> (r: Option<&Chunk>)
        ensures
            r.is_some() == self.spec_has_chunk(x as int, z as int),
            r matches Some(chunk) ==> *chunk == self.spec_chunk(x as int, z as int),
    {
        match self.find_chunk(x, z) {
            Some(i) => Some(&self.chunks[i]),
            None => None,
        }
    }

    /// Puts `chunk` at its position, in place of the chunk that was there if
    /// there was one. Every other chunk stays.
    pub fn set_chunk(&mut self, chunk: Chunk)
        requires
            old(self).wf(),
            chunk.wf(),
        ensures
            final(self).wf(),
            final(self).id == old(self).id,
            final(self).name == old(self).name,
            final(self).ecs == old(self).ecs,
            final(self).entity_counter == old(self).entity_counter,
            final(self).spec_has_chunk(chunk.position.x as int, chunk.position.z as int),
            final(self).spec_chunk(chunk.position.x as int, chunk.position.z as int) == chunk,
            forall|a: int, c: int|
                !(a == chunk.position.x && c == chunk.position.z) ==> (#[trigger] final(
                    self
                ).spec_has_chunk(a, c)) == old(self).spec_has_chunk(a, c),
            forall|a: int, c: int|
                !(a == chunk.position.x && c == chunk.position.z) && old(self).spec_has_chunk(a, c)
                    ==> (#[trigger] final(self).spec_chunk(a, c)) == old(self).spec_chunk(a, c),
    {
        let ghost prev = self.chunks@;
        let ghost x = chunk.position.x as int;
        let ghost z = chunk.position.z as int;
        match self.find_chunk(chunk.position.x, chunk.position.z) {
            Some(i) => {
                proof {
                    lemma_first_at(prev, x, z, 0);
                }
                self.chunks.set(i, chunk);
                proof {
                    assert forall|a: int, c: int| first_at(self.chunks@, a, c, 0) == first_at(
                        prev,
                        a,
                        c,
                        0,
                    ) by {
                        lemma_first_at_same_positions(self.chunks@, prev, a, c, 0);
                    }
                    assert forall|a: int, c: int|
                        !(a == x && c == z) && first_at(prev, a, c, 0)
                            < prev.len() implies self.chunks@[first_at(prev, a, c, 0)]
                        == prev[first_at(prev, a, c, 0)] by {
                        lemma_first_at(prev, a, c, 0);
                    }
                    assert forall|k: int, j: int|
                        #![trigger self.chunks@[k], self.chunks@[j]]
                        0 <= k < j < self.chunks@.len() implies self.chunks@[k].position
                        != self.chunks@[j].position by {
                        assert(prev[k].position != prev[j].position);
                    }
                }
            },
            None => {
                self.chunks.push(chunk);
                proof {
                    lemma_first_at(prev, x, z, 0);
                    assert forall|a: int, c: int| first_at(self.chunks@, a, c, 0) == if first_at(
                        prev,
                        a,
                        c,
                        0,
                    ) < prev.len() {
                        first_at(prev, a, c, 0)
                    } else if a == x && c == z {
                        prev.len() as int
                    } else {
                        prev.len() as int + 1
                    } by {
                        lemma_first_at_push(prev, chunk, a, c, 0);
                    }
                    assert forall|a: int, c: int|
                        !(a == x && c == z) && first_at(prev, a, c, 0)
                            < prev.len() implies self.chunks@[first_at(prev, a, c, 0)]
                        == prev[first_at(prev, a, c, 0)] by {
                        lemma_first_at(prev, a, c, 0);
                    }
                    assert forall|k: int, j: int|
                        #![trigger self.chunks@[k], self.chunks@[j]]
                        0 <= k < j < self.chunks@.len() implies self.chunks@[k].position
                        != self.chunks@[j].position by {
                        if j < prev.len() {
                            assert(prev[k].position != prev[j].position);
                        }
                    }
                }
            },
        }
    }

    /// Generates the flat chunk at (x, z) and puts it into the world.
    pub fn generate_chunk(&mut self, x: i32, z: i32)
        requires
            old(self).wf(),
        ensures
            final(self).wf(),
            final(self).id == old(self).id,
            final(self).name == old(self).name,
            final(self).ecs == old(self).ecs,
            final(self).entity_counter == old(self).entity_counter,
            final(self).spec_has_chunk(x as int, z as int),
            final(self).spec_chunk(x as int, z as int).wf(),
            final(self).spec_chunk(x as int, z as int).position == (ChunkPosition { x, z }),
            final(self).spec_chunk(x as int, z as int).spec_is_flat(4),
            final(self).spec_chunk(x as int, z as int).spec_unlit(),
            forall|a: int, c: int|
                !(a == x && c == z) ==> (#[trigger] final(self).spec_has_chunk(a, c)) == old(
                    self
                ).spec_has_chunk(a, c),
            forall|a: int, c: int|
                !(a == x && c == z) && old(self).spec_has_chunk(a, c) ==> (#[trigger] final(
                    self
                ).spec_chunk(a, c)) == old(self).spec_chunk(a, c),
    {
        let chunk = Chunk::flat(ChunkPosition::new(x, z), FLAT_HEIGHT);
        self.set_chunk(chunk);
    }

    /// Makes sure that the world holds a chunk at (x, z): where it holds
    /// none, the flat chunk is generated; where it holds one, nothing
    /// changes.
    pub fn get_or_generate_chunk(&mut self, x: i32, z: i32)
        requires
            old(self).wf(),
        ensures
            final(self).wf(),
            final(self).id == old(self).id,
            final(self).name == old(self).name,
            final(self).ecs == old(self).ecs,
            final(self).entity_counter == old(self).entity_counter,
            final(self).spec_has_chunk(x as int, z as int),
            old(self).spec_has_chunk(x as int, z as int) ==> *final(self) == *old(self),
            !old(self).spec_has_chunk(x as int, z as int) ==> {
                &&& final(self).spec_chunk(x as int, z as int).wf()
                &&& final(self).spec_chunk(x as int, z as int).position == (ChunkPosition { x, z })
                &&& final(self).spec_chunk(x as int, z as int).spec_is_flat(4)
                &&& final(self).spec_chunk(x as int, z as int).spec_unlit()
            },
            forall|a: int, c: int|
                !(a == x && c == z) ==> (#[trigger] final(self).spec_has_chunk(a, c)) == old(
                    self
                ).spec_has_chunk(a, c),
            forall|a: int, c: int|
                !(a == x && c == z) && old(self).spec_has_chunk(a, c) ==> (#[trigger] final(
                    self
                ).spec_chunk(a, c)) == old(self).spec_chunk(a, c),
    {
        if self.find_chunk(x, z).is_none() {
            self.generate_chunk(x, z);
        }
    }

    /// The block at (x, y, z): air outside the world's height and where no
    /// chunk is loaded.
    pub fn get_block(&self, x: i32, y: i32, z: i32) -> (id: u16)
        requires
            self.wf(),
        ensures
            id == self.spec_block(x as int, y as int, z as int),
    {
        let chunk_x = chunk_coordinate(x);
        let chunk_z = chunk_coordinate(z);
        match self.get_chunk(chunk_x, chunk_z) {
            Some(chunk) => {
                proof {
                    lemma_first_at(self.chunks@, chunk_x as int, chunk_z as int, 0);
                }
                if y >= 0 && y < CHUNK_HEIGHT as i32 {
                    chunk.get_block(local_coordinate(x), y as usize, local_coordinate(z))
                } else {
                    0
                }
            },
            None => 0,
        }
    }
}

impl World {
    /// `self` is `before` after one write of `block_id` at (x, y, z): the
    /// world holds the chunk of that place, which is the chunk that it held,
    /// or the flat chunk where it held none, after the write; every other
    /// chunk, and every entity, is what it was.
    pub open spec fn spec_block_written(
        &self,
        before: &World,
        x: int,
        y: int,
        z: int,
        block_id: u16,
    ) -> bool {
        &&& self.wf()
        &&& self.id == before.id
        &&& self.name == before.name
        &&& self.ecs == before.ecs
        &&& self.entity_counter == before.entity_counter
        &&& self.spec_has_chunk(x / 16, z / 16)
        &&& before.spec_has_chunk(x / 16, z / 16) ==> self.spec_chunk(x / 16, z / 16).spec_written(
            &before.spec_chunk(x / 16, z / 16),
            x % 16,
            y,
            z % 16,
            block_id,
        )
        &&& !before.spec_has_chunk(x / 16, z / 16) ==> exists|base: Chunk|
            {
                &&& base.wf()
                &&& base.spec_is_flat(4)
                &&& base.spec_unlit()
                &&& #[trigger] self.spec_chunk(x / 16, z / 16).spec_written(
                    &base,
                    x % 16,
                    y,
                    z % 16,
                    block_id,
                )
            }
        &&& 0 <= y < 384 ==> self.spec_block(x, y, z) == block_id
        &&& forall|a: int, c: int|
            !(a == x / 16 && c == z / 16) ==> (#[trigger] self.spec_has_chunk(a, c))
                == before.spec_has_chunk(a, c)
        &&& forall|a: int, c: int|
            !(a == x / 16 && c == z / 16) && before.spec_has_chunk(a, c) ==> (
            #[trigger] self.spec_chunk(a, c)) == before.spec_chunk(a, c)
    }

    /// A block that is not air is recorded in the heightmap: after a write
    /// of such a block within the world's height, the block reads back, and
    /// its column is recorded at least as high as the block, where the chunk
    /// was generated for the write, or its heightmap covered it before.
    pub proof fn lemma_written_block_height(
        &self,
        before: &World,
        x: int,
        y: int,
        z: int,
        block_id: u16,
    )
        requires
            self.spec_block_written(before, x, y, z, block_id),
            0 <= y < 384,
            block_id != 0,
            before.spec_has_chunk(x / 16, z / 16) ==> before.spec_chunk(
                x / 16,
                z / 16,
            ).heightmap_covers(),
        ensures
            self.spec_block(x, y, z) == block_id,
            self.spec_chunk(x / 16, z / 16).spec_height(x % 16, z % 16) >= y,
            self.spec_chunk(x / 16, z / 16).heightmap_covers(),
    {
        let chunk = self.spec_chunk(x / 16, z / 16);
        if before.spec_has_chunk(x / 16, z / 16) {
            let base = before.spec_chunk(x / 16, z / 16);
            chunk.lemma_written_height(&base, x % 16, y, z % 16, block_id);
        } else {
            let base = choose|base: Chunk|
                {
                    &&& base.wf()
                    &&& base.spec_is_flat(4)
                    &&& base.spec_unlit()
                    &&& #[trigger] self.spec_chunk(x / 16, z / 16).spec_written(
                        &base,
                        x % 16,
                        y,
                        z % 16,
                        block_id,
                    )
                };
            base.lemma_flat_covers(4);
            chunk.lemma_written_height(&base, x % 16, y, z % 16, block_id);
        }
    }

    /// Writes the block at (x, y, z). Where the world holds no chunk there,
    /// the flat chunk is generated first. The write goes into that chunk as
    /// `Chunk::set_block` describes; a write outside the world's height
    /// changes no block. Every other chunk stays as it was.
    pub fn set_block(&mut self, x: i32, y: i32, z: i32, block_id: u16)
        requires
            old(self).wf(),
        ensures
            final(self).spec_block_written(old(self), x as int, y as int, z as int, block_id),
    {
        let chunk_x = chunk_coordinate(x);
        let chunk_z = chunk_coordinate(z);
        let local_x = local_coordinate(x);
        let local_z = local_coordinate(z);
        self.get_or_generate_chunk(chunk_x, chunk_z);
        let ghost loaded = *self;
        let index = match self.find_chunk(chunk_x, chunk_z) {
            Some(i) => i,
            None => { return; },
        };
        proof {
            lemma_first_at(loaded.chunks@, chunk_x as int, chunk_z as int, 0);
        }
        let mut chunk = self.chunks.remove(index);
        let ghost base = chunk;
        if y >= 0 {
            chunk.set_block(local_x, y as usize, local_z, block_id);
        }
        self.chunks.insert(index, chunk);
        proof {
            assert(chunk.spec_written(&base, local_x as int, y as int, local_z as int, block_id));
            assert forall|a: int, c: int| first_at(self.chunks@, a, c, 0) == first_at(
                loaded.chunks@,
                a,
                c,
                0,
            ) by {
                lemma_first_at_same_positions(self.chunks@, loaded.chunks@, a, c, 0);
            }
            assert forall|a: int, c: int|
                !(a == chunk_x && c == chunk_z) && loaded.spec_has_chunk(a, c) implies (
            #[trigger] self.spec_chunk(a, c)) == loaded.spec_chunk(a, c) by {
                lemma_first_at(loaded.chunks@, a, c, 0);
            }
            assert forall|i: int| 0 <= i < self.chunks@.len() implies (
            #[trigger] self.chunks@[i]).wf() by {
                if i != index {
                    assert(self.chunks@[i] == loaded.chunks@[i]);
                }
            }
            assert forall|k: int, j: int|
                #![trigger self.chunks@[k], self.chunks@[j]]
                0 <= k < j < self.chunks@.len() implies self.chunks@[k].position
                != self.chunks@[j].position by {
                assert(loaded.chunks@[k].position != loaded.chunks@[j].position);
            }
            assert(self.spec_chunk(chunk_x as int, chunk_z as int) == chunk);
            assert forall|a: int, c: int| !(a == chunk_x && c == chunk_z) implies (
            #[trigger] self.spec_has_chunk(a, c)) == old(self).spec_has_chunk(a, c) by {
                assert(self.spec_has_chunk(a, c) == loaded.spec_has_chunk(a, c));
            }
            assert forall|a: int, c: int|
                !(a == chunk_x && c == chunk_z) && old(self).spec_has_chunk(a, c) implies (
            #[trigger] self.spec_chunk(a, c)) == old(self).spec_chunk(a, c) by {
                assert(loaded.spec_has_chunk(a, c));
                assert(self.spec_chunk(a, c) == loaded.spec_chunk(a, c));
                assert(loaded.spec_chunk(a, c) == old(self).spec_chunk(a, c));
            }
        }
    }

    /// Whether an entity of the world has the identifier `uuid`.
    pub open spec fn spec_has_uuid(&self, uuid: u128) -> bool {
        exists|i: int|
            0 <= i < self.spec_entities().len() && (#[trigger] self.spec_entities()[i]).uuid.uuid
                == uuid
    }

    /// Whether `record` is a player as `spawn_player` makes one: the number
    /// `id`, the given identifier and name, at the spawn point (0, 64, 0),
    /// at rest, off the ground, with full health of 20.
    pub open spec fn spec_fresh_player(
        record: EntityRecord,
        id: i32,
        username: Seq<char>,
        uuid: u128,
    ) -> bool {
        &&& record.id.id == id
        &&& record.uuid.uuid == uuid
        &&& record.entity_type.tag@ == "player"@
        &&& record.player matches Some(player) && player.username@ == username && player.health
            == F32_TWENTY && player.food == 20 && player.level == 0 && player.experience == 0
        &&& record.position == (Position { x: 0, y: F64_SIXTY_FOUR, z: 0 })
        &&& record.rotation == (Rotation { yaw: 0, pitch: 0 })
        &&& record.velocity == (Velocity { x: 0, y: 0, z: 0 })
        &&& record.on_ground.on_ground == false
        &&& record.health == (Health { current: F32_TWENTY, max: F32_TWENTY })
    }

    /// Whether an entity of the world has the identifier `uuid`.
    pub fn has_uuid(&self, uuid: u128) -> (r: bool)
        ensures
            r == self.spec_has_uuid(uuid),
    {
        let mut i: usize = 0;
        while i < self.ecs.entities.len()
            invariant
                i <= self.ecs.entities@.len(),
                forall|k: int| 0 <= k < i ==> (#[trigger] self.spec_entities()[k]).uuid.uuid != uuid,
            decreases self.ecs.entities@.len() - i,
        {
            if self.ecs.entities[i].uuid.uuid == uuid {
                return true;
            }
            i = i + 1;
        }
        false
    }

    /// Adds a player to the world: the entity gets the next number, and the
    /// counter moves on. Nothing is added, and nothing changes, where an
    /// entity of the world has the identifier already, or where the numbers
    /// have run out.
    pub fn spawn_player(&mut self, username: String, uuid: u128) -> (r: Option<Entity>)
        requires
            old(self).wf(),
        ensures
            final(self).wf(),
            final(self).id == old(self).id,
            final(self).name == old(self).name,
            final(self).chunks == old(self).chunks,
            r.is_none() == (old(self).spec_has_uuid(uuid) || old(self).entity_counter
                == i32::MAX),
            r.is_none() ==> *final(self) == *old(self),
            r matches Some(entity) ==> {
                &&& entity.index == old(self).spec_entities().len()
                &&& final(self).spec_entities().len() == old(self).spec_entities().len() + 1
                &&& final(self).entity_counter == old(self).entity_counter + 1
                &&& forall|i: int|
                    0 <= i < old(self).spec_entities().len() ==> final(self).spec_entities()[i]
                        == old(self).spec_entities()[i]
                &&& Self::spec_fresh_player(
                    final(self).spec_entities()[entity.index as int],
                    old(self).entity_counter,
                    username@,
                    uuid,
                )
                &&& forall|i: int|
                    0 <= i < final(self).spec_entities().len() && i != entity.index ==> (
                    #[trigger] final(self).spec_entities()[i]).uuid.uuid != uuid
            },
    {
        if self.entity_counter == i32::MAX || self.has_uuid(uuid) {
            return None;
        }
        let ghost prev = self.ecs.entities@;
        let entity_id = self.entity_counter;
        self.entity_counter = self.entity_counter + 1;
        let index = self.ecs.entities.len();
        self.ecs.entities.push(
            EntityRecord {
                id: EntityId::new(entity_id),
                uuid: EntityUuid::from_uuid(uuid),
                entity_type: EntityType::player(),
                player: Some(Player::new(username)),
                position: Position::new(0, F64_SIXTY_FOUR, 0),
                rotation: Rotation::new(0, 0),
                velocity: Velocity::zero(),
                on_ground: OnGround::new(false),
                health: Health::new(F32_TWENTY),
            },
        );
        proof {
            assert forall|i: int| 0 <= i < prev.len() implies self.spec_entities()[i]
                == prev[i] by {}
            assert forall|i: int, j: int|
                #![trigger self.spec_entities()[i], self.spec_entities()[j]]
                0 <= i < j < self.spec_entities().len() implies self.spec_entities()[i].id.id
                != self.spec_entities()[j].id.id && self.spec_entities()[i].uuid.uuid
                != self.spec_entities()[j].uuid.uuid by {
                assert(self.spec_entities()[i] == prev[i]);
                if j < prev.len() {
                    assert(self.spec_entities()[j] == prev[j]);
                }
            }
        }
        Some(Entity { index })
    }

    /// Whether `record` is an entity as `spawn_entity` makes one: not a
    /// player, with the number `id`, the given kind, identifier and position,
    /// at rest, off the ground, with full health of 20.
    pub open spec fn spec_fresh_entity(
        record: EntityRecord,
        id: i32,
        tag: Seq<char>,
        uuid: u128,
        position: Position,
    ) -> bool {
        &&& record.id.id == id
        &&& record.uuid.uuid == uuid
        &&& record.entity_type.tag@ == tag
        &&& record.player.is_none()
        &&& record.position == position
        &&& record.rotation == (Rotation { yaw: 0, pitch: 0 })
        &&& record.velocity == (Velocity { x: 0, y: 0, z: 0 })
        &&& record.on_ground.on_ground == false
        &&& record.health == (Health { current: F32_TWENTY, max: F32_TWENTY })
    }

    /// Adds an entity that is no player to the world, at `position`: the
    /// entity gets the next number, and the counter moves on. Nothing is
    /// added, and nothing changes, where an entity of the world has the
    /// identifier already, or where the numbers have run out.
    pub fn spawn_entity(&mut self, tag: String, uuid: u128, position: Position) -> (r: Option<
        Entity,
    >)
        requires
            old(self).wf(),
        ensures
            final(self).wf(),
            final(self).id == old(self).id,
            final(self).name == old(self).name,
            final(self).chunks == old(self).chunks,
            r.is_none() == (old(self).spec_has_uuid(uuid) || old(self).entity_counter
                == i32::MAX),
            r.is_none() ==> *final(self) == *old(self),
            r matches Some(entity) ==> {
                &&& entity.index == old(self).spec_entities().len()
                &&& final(self).spec_entities().len() == old(self).spec_entities().len() + 1
                &&& final(self).entity_counter == old(self).entity_counter + 1
                &&& forall|i: int|
                    0 <= i < old(self).spec_entities().len() ==> final(self).spec_entities()[i]
                        == old(self).spec_entities()[i]
                &&& Self::spec_fresh_entity(
                    final(self).spec_entities()[entity.index as int],
                    old(self).entity_counter,
                    tag@,
                    uuid,
                    position,
                )
            },
    {
        if self.entity_counter == i32::MAX || self.has_uuid(uuid) {
            return None;
        }
        let ghost prev = self.ecs.entities@;
        let entity_id = self.entity_counter;
        self.entity_counter = self.entity_counter + 1;
        let index = self.ecs.entities.len();
        self.ecs.entities.push(
            EntityRecord {
                id: EntityId::new(entity_id),
                uuid: EntityUuid::from_uuid(uuid),
                entity_type: EntityType::new(tag),
                player: None,
                position,
                rotation: Rotation::new(0, 0),
                velocity: Velocity::zero(),
                on_ground: OnGround::new(false),
                health: Health::new(F32_TWENTY),
            },
        );
        proof {
            assert forall|i: int| 0 <= i < prev.len() implies self.spec_entities()[i]
                == prev[i] by {}
            assert forall|i: int, j: int|
                #![trigger self.spec_entities()[i], self.spec_entities()[j]]
                0 <= i < j < self.spec_entities().len() implies self.spec_entities()[i].id.id
                != self.spec_entities()[j].id.id && self.spec_entities()[i].uuid.uuid
                != self.spec_entities()[j].uuid.uuid by {
                assert(self.spec_entities()[i] == prev[i]);
                if j < prev.len() {
                    assert(self.spec_entities()[j] == prev[j]);
                }
            }
        }
        Some(Entity { index })
    }

    /// The number that the server gave `entity`, where the world holds it.
    pub fn entity_id(&self, entity: Entity) -> (r: Option<i32>)
        ensures
            r == if entity.index < self.spec_entities().len() {
                Some(self.spec_entities()[entity.index as int].id.id)
            } else {
                None
            },
    {
        if entity.index < self.ecs.entities.len() {
            Some(self.ecs.entities[entity.index].id.id)
        } else {
            None
        }
    }

    /// The player with the identifier `uuid`, where the world holds one.
    pub fn get_player_entity(&self, uuid: u128) -> (r: Option<Entity>)
        ensures
            match r {
                Some(entity) => entity.index < self.spec_entities().len() && self.spec_entities()[entity.index as int].uuid.uuid
                    == uuid && self.spec_entities()[entity.index as int].player.is_some(),
                None => forall|i: int|
                    0 <= i < self.spec_entities().len() ==> !((
                    #[trigger] self.spec_entities()[i]).uuid.uuid == uuid
                        && self.spec_entities()[i].player.is_some()),
            },
    {
        let mut i: usize = 0;
        while i < self.ecs.entities.len()
            invariant
                i <= self.ecs.entities@.len(),
                forall|k: int|
                    0 <= k < i ==> !((#[trigger] self.spec_entities()[k]).uuid.uuid == uuid
                        && self.spec_entities()[k].player.is_some()),
            decreases self.ecs.entities@.len() - i,
        {
            if self.ecs.entities[i].uuid.uuid == uuid && self.ecs.entities[i].player.is_some() {
                return Some(Entity { index: i });
            }
            i = i + 1;
        }
        None
    }

    /// The position of `entity`, where the world holds it.
    pub fn get_player_position(&self, entity: Entity) -> (r: Option<Position>)
        ensures
            r == if entity.index < self.spec_entities().len() {
                Some(self.spec_entities()[entity.index as int].position)
            } else {
                None
            },
    {
        if entity.index < self.ecs.entities.len() {
            Some(self.ecs.entities[entity.index].position)
        } else {
            None
        }
    }

    /// Moves `entity` to `position`. Nothing changes where the world does
    /// not hold the entity.
    pub fn set_player_position(&mut self, entity: Entity, position: Position)
        requires
            old(self).wf(),
        ensures
            final(self).wf(),
            final(self).id == old(self).id,
            final(self).name == old(self).name,
            final(self).chunks == old(self).chunks,
            final(self).entity_counter == old(self).entity_counter,
            entity.index >= old(self).spec_entities().len() ==> *final(self) == *old(self),
            entity.index < old(self).spec_entities().len() ==> final(self).spec_entities()
                == old(self).spec_entities().update(
                entity.index as int,
                (EntityRecord { position, ..old(self).spec_entities()[entity.index as int] }),
            ),
    {
        if entity.index < self.ecs.entities.len() {
            let ghost prev = self.ecs.entities@;
            let mut record = self.ecs.entities.remove(entity.index);
            record.position = position;
            self.ecs.entities.insert(entity.index, record);
            proof {
                assert(self.spec_entities() =~= prev.update(
                    entity.index as int,
                    (EntityRecord { position, ..prev[entity.index as int] }),
                ));
                assert forall|i: int, j: int|
                    #![trigger self.spec_entities()[i], self.spec_entities()[j]]
                    0 <= i < j < self.spec_entities().len() implies self.spec_entities()[i].id.id
                    != self.spec_entities()[j].id.id && self.spec_entities()[i].uuid.uuid
                    != self.spec_entities()[j].uuid.uuid by {
                    assert(prev[i].id.id != prev[j].id.id && prev[i].uuid.uuid
                        != prev[j].uuid.uuid);
                }
                assert forall|i: int| 0 <= i < self.spec_entities().len() implies 1 <= (
                #[trigger] self.spec_entities()[i]).id.id < self.entity_counter by {
                    assert(1 <= prev[i].id.id < self.entity_counter);
                }
            }
        }
    }

    /// Turns `entity` to `rotation`. Nothing changes where the world does
    /// not hold the entity.
    pub fn update_player_rotation(&mut self, entity: Entity, rotation: Rotation)
        requires
            old(self).wf(),
        ensures
            final(self).wf(),
            final(self).id == old(self).id,
            final(self).name == old(self).name,
            final(self).chunks == old(self).chunks,
            final(self).entity_counter == old(self).entity_counter,
            entity.index >= old(self).spec_entities().len() ==> *final(self) == *old(self),
            entity.index < old(self).spec_entities().len() ==> final(self).spec_entities()
                == old(self).spec_entities().update(
                entity.index as int,
                (EntityRecord { rotation, ..old(self).spec_entities()[entity.index as int] }),
            ),
    {
        if entity.index < self.ecs.entities.len() {
            let ghost prev = self.ecs.entities@;
            let mut record = self.ecs.entities.remove(entity.index);
            record.rotation = rotation;
            self.ecs.entities.insert(entity.index, record);
            proof {
                assert(self.spec_entities() =~= prev.update(
                    entity.index as int,
                    (EntityRecord { rotation, ..prev[entity.index as int] }),
                ));
                assert forall|i: int, j: int|
                    #![trigger self.spec_entities()[i], self.spec_entities()[j]]
                    0 <= i < j < self.spec_entities().len() implies self.spec_entities()[i].id.id
                    != self.spec_entities()[j].id.id && self.spec_entities()[i].uuid.uuid
                    != self.spec_entities()[j].uuid.uuid by {
                    assert(prev[i].id.id != prev[j].id.id && prev[i].uuid.uuid
                        != prev[j].uuid.uuid);
                }
                assert forall|i: int| 0 <= i < self.spec_entities().len() implies 1 <= (
                #[trigger] self.spec_entities()[i]).id.id < self.entity_counter by {
                    assert(1 <= prev[i].id.id < self.entity_counter);
                }
            }
        }
    }

    /// The positions of the chunks within `distance` of (center_x,
    /// center_z): a square of side 2 * distance + 1, column by column, each
    /// column from low z to high z.
    pub fn get_nearby_chunks(&self, center_x: i32, center_z: i32, distance: i32) -> (r: Vec<
        (i32, i32),
    >)
        requires
            0 <= distance <= 0x3fff_ffff,
            i32::MIN + distance <= center_x <= i32::MAX - distance,
            i32::MIN + distance <= center_z <= i32::MAX - distance,
        ensures
            r@.len() == (2 * distance + 1) * (2 * distance + 1),
            forall|i: int, j: int|
                0 <= i <= 2 * distance && 0 <= j <= 2 * distance ==> #[trigger] r@[i * (2
                    * distance + 1) + j] == (
                    (center_x - distance + i) as i32,
                    (center_z - distance + j) as i32,
                ),
    {
        let side: i32 = 2 * distance + 1;
        let mut out: Vec<(i32, i32)> = Vec::new();
        let mut i: i32 = 0;
        while i < side
            invariant
                0 <= i <= side == 2 * distance + 1,
                0 <= distance <= 0x3fff_ffff,
                i32::MIN + distance <= center_x <= i32::MAX - distance,
                i32::MIN + distance <= center_z <= i32::MAX - distance,
                out@.len() == i * side,
                forall|a: int, b: int|
                    0 <= a < i && 0 <= b < side ==> #[trigger] out@[a * side + b] == (
                        (center_x - distance + a) as i32,
                        (center_z - distance + b) as i32,
                    ),
            decreases side - i,
        {
            let mut j: i32 = 0;
            while j < side
                invariant
                    0 <= i < side == 2 * distance + 1,
                    0 <= j <= side,
                    0 <= distance <= 0x3fff_ffff,
                    i32::MIN + distance <= center_x <= i32::MAX - distance,
                    i32::MIN + distance <= center_z <= i32::MAX - distance,
                    out@.len() == i * side + j,
                    forall|a: int, b: int|
                        0 <= a < side && 0 <= b < side && (a < i || (a == i && b < j))
                            ==> #[trigger] out@[a * side + b] == (
                            (center_x - distance + a) as i32,
                            (center_z - distance + b) as i32,
                        ),
                decreases side - j,
            {
                let ghost before = out@;
                out.push((center_x - distance + i, center_z - distance + j));
                proof {
                    assert forall|a: int, b: int|
                        0 <= a < side && 0 <= b < side && (a < i || (a == i && b < j + 1)) implies #[trigger]
                        out@[a * side + b] == (
                        (center_x - distance + a) as i32,
                        (center_z - distance + b) as i32,
                    ) by {
                        if a < i {
                            assert(a * side + b < i * side) by (nonlinear_arith)
                                requires
                                    0 <= a < i,
                                    0 <= b < side,
                            ;
                            assert(out@[a * side + b] == before[a * side + b]);
                        } else if b < j {
                            assert(out@[a * side + b] == before[a * side + b]);
                        }
                    }
                }
                j = j + 1;
            }
            proof {
                assert((i + 1) * side == i * side + side) by (nonlinear_arith);
            }
            i = i + 1;
        }
        out
    }

    /// Every player of the world: its handle, its name and its position, in
    /// the order of the handles.
    pub fn get_all_players(&self) -> (r: Vec<(Entity, String, Position)>)
        ensures
            forall|k: int|
                0 <= k < r@.len() ==> {
                    let entry = #[trigger] r@[k];
                    &&& entry.0.index < self.spec_entities().len()
                    &&& self.spec_entities()[entry.0.index as int].player matches Some(player)
                        && player.username@ == entry.1@
                    &&& self.spec_entities()[entry.0.index as int].position == entry.2
                },
            forall|k: int, l: int|
                0 <= k < l < r@.len() ==> (#[trigger] r@[k]).0.index < (#[trigger] r@[l]).0.index,
            forall|i: int|
                0 <= i < self.spec_entities().len() && (
                #[trigger] self.spec_entities()[i]).player.is_some() ==> exists|k: int|
                    0 <= k < r@.len() && (#[trigger] r@[k]).0.index == i,
    {
        let mut out: Vec<(Entity, String, Position)> = Vec::new();
        let mut i: usize = 0;
        while i < self.ecs.entities.len()
            invariant
                i <= self.ecs.entities@.len(),
                forall|k: int|
                    0 <= k < out@.len() ==> {
                        let entry = #[trigger] out@[k];
                        &&& entry.0.index < i
                        &&& self.spec_entities()[entry.0.index as int].player matches Some(player)
                            && player.username@ == entry.1@
                        &&& self.spec_entities()[entry.0.index as int].position == entry.2
                    },
                forall|k: int, l: int|
                    0 <= k < l < out@.len() ==> (#[trigger] out@[k]).0.index < (
                    #[trigger] out@[l]).0.index,
                forall|a: int|
                    0 <= a < i && (#[trigger] self.spec_entities()[a]).player.is_some()
                        ==> exists|k: int|
                        0 <= k < out@.len() && (#[trigger] out@[k]).0.index == a,
            decreases self.ecs.entities@.len() - i,
        {
            let ghost before = out@;
            match &self.ecs.entities[i].player {
                Some(player) => {
                    out.push(
                        (Entity { index: i }, player.username.clone(), self.ecs.entities[i].position),
                    );
                    proof {
                        let last = before.len() as int;
                        assert(out@[last].0.index == i);
                        assert forall|a: int|
                            0 <= a < i + 1 && (
                            #[trigger] self.spec_entities()[a]).player.is_some() implies exists|
                            k: int,
                        |
                            0 <= k < out@.len() && (#[trigger] out@[k]).0.index == a by {
                            if a < i {
                                let k = choose|k: int|
                                    0 <= k < before.len() && (#[trigger] before[k]).0.index == a;
                                assert(out@[k] == before[k]);
                            }
                        }
                    }
                },
                None => {},
            }
            i = i + 1;
        }
        out
    }

    /// One step of the world. The world itself does nothing in a step: the
    /// step is the point at which scripted hooks may run.
    pub fn tick(&self) {
    }
}

/// How many of the entities are players.
pub open spec fn count_players(entities: Seq<EntityRecord>) -> nat
    decreases entities.len(),
{
    if entities.len() == 0 {
        0
    } else {
        count_players(entities.drop_last()) + if entities.last().player.is_some() {
            1nat
        } else {
            0nat
        }
    }
}

/// How many players the worlds hold together.
pub open spec fn total_players(worlds: Seq<World>) -> nat
    decreases worlds.len(),
{
    if worlds.len() == 0 {
        0
    } else {
        total_players(worlds.drop_last()) + count_players(worlds.last().spec_entities())
    }
}

impl World {
    /// How many players the world holds.
    pub fn player_count(&self) -> (r: usize)
        ensures
            r == count_players(self.spec_entities()),
    {
        let mut count: usize = 0;
        let mut i: usize = 0;
        while i < self.ecs.entities.len()
            invariant
                i <= self.ecs.entities@.len(),
                count <= i,
                count == count_players(self.spec_entities().take(i as int)),
            decreases self.ecs.entities@.len() - i,
        {
            assert(self.spec_entities().take(i + 1).drop_last() =~= self.spec_entities().take(
                i as int,
            ));
            if self.ecs.entities[i].player.is_some() {
                count = count + 1;
            }
            i = i + 1;
        }
        assert(self.spec_entities().take(i as int) =~= self.spec_entities());
        count
    }
}

/// What a server can say of itself in numbers: how many worlds it runs, and
/// how many players they hold together.
#[derive(Clone, Copy, Debug, PartialEq, Eq, Structural)]
pub struct ServerStats {
    pub active_worlds: usize,
    pub total_players: usize,
}

/// The worlds of a server, each under its identifier.
pub struct WorldManager {
    worlds: Vec<World>,
}

impl WorldManager {
    /// The worlds, in the order in which their identifiers first came.
    pub closed spec fn spec_worlds(&self) -> Seq<World> {
        self.worlds@
    }

    /// Whether the manager holds a world under `id`.
    pub open spec fn spec_has_world(&self, id: Seq<char>) -> bool {
        exists|i: int|
            0 <= i < self.spec_worlds().len() && (#[trigger] self.spec_worlds()[i]).id@ == id
    }

    /// Every world is well-formed and no two share an identifier.
    pub open spec fn wf(&self) -> bool {
        &&& forall|i: int|
            0 <= i < self.spec_worlds().len() ==> (#[trigger] self.spec_worlds()[i]).wf()
        &&& forall|i: int, j: int|
            #![trigger self.spec_worlds()[i], self.spec_worlds()[j]]
            0 <= i < j < self.spec_worlds().len() ==> self.spec_worlds()[i].id@
                != self.spec_worlds()[j].id@
    }

    /// A manager without worlds.
    pub fn new() -> (r: Self)
        ensures
            r.wf(),
            r.spec_worlds().len() == 0,
    {
        Self { worlds: Vec::new() }
    }

    /// The place of the world under `id`, where the manager holds one.
    pub fn find_world(&self, id: &str) -> (r: Option<usize>)
        ensures
            match r {
                Some(i) => i < self.spec_worlds().len() && self.spec_worlds()[i as int].id@
                    == id@,
                None => !self.spec_has_world(id@),
            },
    {
        let mut i: usize = 0;
        while i < self.worlds.len()
            invariant
                i <= self.worlds@.len(),
                forall|k: int| 0 <= k < i ==> (#[trigger] self.spec_worlds()[k]).id@ != id@,
            decreases self.worlds@.len() - i,
        {
            if same_text(self.worlds[i].id.as_str(), id) {
                return Some(i);
            }
            i = i + 1;
        }
        None
    }

    /// Puts `world` under its identifier, in place of the world that was
    /// there if there was one. Every other world stays, in its place.
    pub fn insert_world(&mut self, world: World)
        requires
            old(self).wf(),
            world.wf(),
        ensures
            final(self).wf(),
            final(self).spec_has_world(world.id@),
            forall|i: int|
                0 <= i < final(self).spec_worlds().len() && (
                #[trigger] final(self).spec_worlds()[i]).id@ == world.id@ ==> final(
                    self
                ).spec_worlds()[i] == world,
            forall|i: int|
                0 <= i < old(self).spec_worlds().len() && (
                #[trigger] old(self).spec_worlds()[i]).id@ != world.id@ ==> final(
                    self
                ).spec_worlds()[i] == old(self).spec_worlds()[i],
            final(self).spec_worlds().len() == if old(self).spec_has_world(world.id@) {
                old(self).spec_worlds().len()
            } else {
                old(self).spec_worlds().len() + 1
            },
    {
        let ghost prev = self.worlds@;
        let ghost id = world.id@;
        match self.find_world(world.id.as_str()) {
            Some(i) => {
                self.worlds.set(i, world);
                proof {
                    assert(self.spec_worlds()[i as int].id@ == id);
                    assert forall|k: int, j: int|
                        #![trigger self.spec_worlds()[k], self.spec_worlds()[j]]
                        0 <= k < j < self.spec_worlds().len() implies self.spec_worlds()[k].id@
                        != self.spec_worlds()[j].id@ by {
                        assert(prev[k].id@ != prev[j].id@);
                    }
                    assert forall|k: int|
                        0 <= k < self.spec_worlds().len() && (
                        #[trigger] self.spec_worlds()[k]).id@ == id implies self.spec_worlds()[k]
                        == world by {
                        if k != i {
                            assert(prev[k].id@ != prev[i as int].id@);
                        }
                    }
                    assert(prev[i as int].id@ == id);
                }
            },
            None => {
                self.worlds.push(world);
                proof {
                    let last = prev.len() as int;
                    assert(self.spec_worlds()[last].id@ == id);
                    assert forall|k: int, j: int|
                        #![trigger self.spec_worlds()[k], self.spec_worlds()[j]]
                        0 <= k < j < self.spec_worlds().len() implies self.spec_worlds()[k].id@
                        != self.spec_worlds()[j].id@ by {
                        assert(self.spec_worlds()[k] == prev[k]);
                        if j < last {
                            assert(prev[k].id@ != prev[j].id@);
                        }
                    }
                    assert forall|k: int|
                        0 <= k < self.spec_worlds().len() && (
                        #[trigger] self.spec_worlds()[k]).id@ == id implies self.spec_worlds()[k]
                        == world by {
                        if k < last {
                            assert(prev[k].id@ != id);
                        }
                    }
                }
            },
        }
    }

    /// Makes a world without chunks and entities and puts it under `id`, in
    /// place of the world that was there if there was one.
    pub fn create_world(&mut self, id: String, name: String)
        requires
            old(self).wf(),
        ensures
            final(self).wf(),
            final(self).spec_has_world(id@),
            forall|i: int|
                0 <= i < final(self).spec_worlds().len() && (
                #[trigger] final(self).spec_worlds()[i]).id@ == id@ ==> {
                    &&& final(self).spec_worlds()[i].name == name
                    &&& final(self).spec_worlds()[i].chunks@.len() == 0
                    &&& final(self).spec_worlds()[i].spec_entities().len() == 0
                    &&& final(self).spec_worlds()[i].entity_counter == 1
                },
            forall|i: int|
                0 <= i < old(self).spec_worlds().len() && (
                #[trigger] old(self).spec_worlds()[i]).id@ != id@ ==> final(
                    self
                ).spec_worlds()[i] == old(self).spec_worlds()[i],
            final(self).spec_worlds().len() == if old(self).spec_has_world(id@) {
                old(self).spec_worlds().len()
            } else {
                old(self).spec_worlds().len() + 1
            },
    {
        let world = World::new(id, name);
        self.insert_world(world);
    }

    /// The world under `id`, where the manager holds one.
    pub fn get_world(&self, id: &str) -> (r: Option<&World>)
        ensures
            r.is_some() == self.spec_has_world(id@),
            r matches Some(world) ==> world.id@ == id@ && exists|i: int|
                0 <= i < self.spec_worlds().len() && #[trigger] self.spec_worlds()[i] == *world,
    {
        match self.find_world(id) {
            Some(i) => Some(&self.worlds[i]),
            None => None,
        }
    }

    /// Takes the world under `id` out of the manager and hands it over;
    /// nothing happens where there is none. Every other world stays.
    pub fn remove_world(&mut self, id: &str) -> (r: Option<World>)
        requires
            old(self).wf(),
        ensures
            final(self).wf(),
            !final(self).spec_has_world(id@),
            r.is_some() == old(self).spec_has_world(id@),
            r.is_none() ==> final(self).spec_worlds() == old(self).spec_worlds(),
            r matches Some(world) ==> world.id@ == id@ && world.wf() && exists|i: int|
                {
                    &&& 0 <= i < old(self).spec_worlds().len()
                    &&& #[trigger] old(self).spec_worlds()[i] == world
                    &&& final(self).spec_worlds() == old(self).spec_worlds().remove(i)
                },
    {
        let ghost prev = self.worlds@;
        match self.find_world(id) {
            Some(i) => {
                let world = self.worlds.remove(i);
                proof {
                    assert forall|k: int|
                        0 <= k < self.spec_worlds().len() implies (
                    #[trigger] self.spec_worlds()[k]).id@ != id@ by {
                        if k < i {
                            assert(prev[k].id@ != prev[i as int].id@);
                        } else {
                            assert(self.spec_worlds()[k] == prev[k + 1]);
                            assert(prev[i as int].id@ != prev[k + 1].id@);
                        }
                    }
                    assert forall|k: int, j: int|
                        #![trigger self.spec_worlds()[k], self.spec_worlds()[j]]
                        0 <= k < j < self.spec_worlds().len() implies self.spec_worlds()[k].id@
                        != self.spec_worlds()[j].id@ by {
                        let a = if k < i { k } else { k + 1 };
                        let b = if j < i { j } else { j + 1 };
                        assert(prev[a].id@ != prev[b].id@);
                    }
                    assert forall|k: int| 0 <= k < self.spec_worlds().len() implies (
                    #[trigger] self.spec_worlds()[k]).wf() by {
                        let a = if k < i { k } else { k + 1 };
                        assert(prev[a].wf());
                    }
                    assert(prev[i as int] == world);
                }
                Some(world)
            },
            None => None,
        }
    }

    /// The identifiers of the worlds.
    pub fn list_worlds(&self) -> (r: Vec<String>)
        ensures
            r@.len() == self.spec_worlds().len(),
            forall|i: int| 0 <= i < r@.len() ==> (#[trigger] r@[i])@ == self.spec_worlds()[i].id@,
    {
        let mut out: Vec<String> = Vec::new();
        let mut i: usize = 0;
        while i < self.worlds.len()
            invariant
                i <= self.worlds@.len(),
                out@.len() == i,
                forall|k: int| 0 <= k < i ==> (#[trigger] out@[k])@ == self.spec_worlds()[k].id@,
            decreases self.worlds@.len() - i,
        {
            out.push(self.worlds[i].id.clone());
            i = i + 1;
        }
        out
    }

    /// The numbers of the server. The count of players stops at the largest
    /// number there is.
    pub fn stats(&self) -> (r: ServerStats)
        ensures
            r.active_worlds == self.spec_worlds().len(),
            r.total_players == if total_players(self.spec_worlds()) <= usize::MAX {
                total_players(self.spec_worlds())
            } else {
                usize::MAX as nat
            },
    {
        let mut total: usize = 0;
        let mut i: usize = 0;
        while i < self.worlds.len()
            invariant
                i <= self.worlds@.len(),
                total == if total_players(self.spec_worlds().take(i as int)) <= usize::MAX {
                    total_players(self.spec_worlds().take(i as int))
                } else {
                    usize::MAX as nat
                },
            decreases self.worlds@.len() - i,
        {
            assert(self.spec_worlds().take(i + 1).drop_last() =~= self.spec_worlds().take(
                i as int,
            ));
            let players = self.worlds[i].player_count();
            total = if players > usize::MAX - total {
                usize::MAX
            } else {
                total + players
            };
            i = i + 1;
        }
        assert(self.spec_worlds().take(i as int) =~= self.spec_worlds());
        ServerStats { active_worlds: self.worlds.len(), total_players: total }
    }

    /// One step of every world; returns how many worlds took it.
    pub fn tick_all(&self) -> (ticked: usize)
        ensures
            ticked == self.spec_worlds().len(),
    {
        let mut i: usize = 0;
        while i < self.worlds.len()
            invariant
                i <= self.worlds@.len(),
            decreases self.worlds@.len() - i,
        {
            self.worlds[i].tick();
            i = i + 1;
        }
        i
    }
}

} // verus!
