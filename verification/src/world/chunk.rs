use crate::protocol::types::{
    be16, be16_bytes, be32, be32_bytes, copy_range, read_u16, read_u32, signed32, to_signed32,
    unsigned32, write_bytes, write_i32, write_u16, ProtocolError, ProtocolResult,
};
use vstd::prelude::*;

verus! {

pub const CHUNK_WIDTH: usize = 16;

pub const CHUNK_HEIGHT: usize = 384;

pub const SECTION_HEIGHT: usize = 16;

pub const SECTIONS_PER_CHUNK: usize = CHUNK_HEIGHT / SECTION_HEIGHT;

/// Number of cells in one section.
pub const SECTION_BLOCKS: usize = 4096;

/// Number of bytes that one encoded section takes: the non-air count, the
/// block identifiers, and the two arrays of light values.
pub const SECTION_PAYLOAD: usize = 12290;

/// The place of a chunk in the grid of chunks.
#[derive(Clone, Copy, Debug, PartialEq, Eq, Structural)]
pub struct ChunkPosition {
    pub x: i32,
    pub z: i32,
}

impl ChunkPosition {
    pub fn new(x: i32, z: i32) -> (r: Self)
        ensures
            r.x == x,
            r.z == z,
    {
        Self { x, z }
    }

    /// The chunk that holds the block column (x, z): each coordinate divided
    /// by 16, rounded down.
    pub fn from_block(x: i32, z: i32) -> (r: Self)
        ensures
            r.x == x as int / 16,
            r.z == z as int / 16,
    {
        Self { x: chunk_coordinate(x), z: chunk_coordinate(z) }
    }
}

/// The chunk coordinate of a block coordinate: it divided by 16, rounded
/// down.
pub fn chunk_coordinate(block: i32) -> (r: i32)
    ensures
        r == block as int / 16,
{
    ((block as i64 + 0x8000_0000) / 16 - 0x800_0000) as i32
}

/// The coordinate of a block within its chunk: the block coordinate modulo
/// 16, from 0 to 15.
pub fn local_coordinate(block: i32) -> (r: usize)
    ensures
        r == block as int % 16,
        r < 16,
{
    ((block as i64 + 0x8000_0000) % 16) as usize
}

/// A vector of `n` copies of `value`.
pub fn filled<T: Copy>(value: T, n: usize) -> (v: Vec<T>)
    ensures
        v@.len() == n,
        forall|i: int| 0 <= i < n ==> v@[i] == value,
{
    let mut v: Vec<T> = Vec::new();
    let mut i: usize = 0;
    while i < n
        invariant
            i <= n,
            v@.len() == i,
            forall|k: int| 0 <= k < i ==> v@[k] == value,
        decreases n - i,
    {
        v.push(value);
        i = i + 1;
    }
    v
}

/// How many of the block identifiers are not air.
pub open spec fn count_non_air(blocks: Seq<u16>) -> nat
    decreases blocks.len(),
{
    if blocks.len() == 0 {
        0
    } else {
        count_non_air(blocks.drop_last()) + if blocks.last() != 0 {
            1nat
        } else {
            0nat
        }
    }
}

/// The block identifiers as bytes, two for each, most significant first.
pub open spec fn blocks_bytes(blocks: Seq<u16>) -> Seq<u8>
    decreases blocks.len(),
{
    if blocks.len() == 0 {
        Seq::empty()
    } else {
        blocks_bytes(blocks.drop_last()) + be16_bytes(blocks.last() as nat)
    }
}

/// The count of cells that are not air is at most the number of cells, and
/// it is 0 exactly where every cell is air: a section is empty exactly where
/// the count that it writes is 0.
pub proof fn lemma_count_non_air_bound(blocks: Seq<u16>)
    ensures
        count_non_air(blocks) <= blocks.len(),
        count_non_air(blocks) == 0 <==> forall|i: int| 0 <= i < blocks.len() ==> blocks[i] == 0,
    decreases blocks.len(),
{
    if blocks.len() > 0 {
        lemma_count_non_air_bound(blocks.drop_last());
        if count_non_air(blocks) == 0 {
            assert forall|i: int| 0 <= i < blocks.len() implies blocks[i] == 0 by {
                if i < blocks.len() - 1 {
                    assert(blocks.drop_last()[i] == blocks[i]);
                }
            }
        } else if blocks.last() == 0 {
            let i = choose|i: int| 0 <= i < blocks.len() - 1 && blocks.drop_last()[i] != 0;
            assert(blocks[i] != 0);
        }
    }
}

/// Every block identifier takes two bytes.
pub proof fn lemma_blocks_bytes_len(blocks: Seq<u16>)
    ensures
        blocks_bytes(blocks).len() == 2 * blocks.len(),
    decreases blocks.len(),
{
    if blocks.len() > 0 {
        lemma_blocks_bytes_len(blocks.drop_last());
    }
}

/// A volume of 16 by 16 by 16 cells: for each cell a block identifier, and
/// block light and sky light packed two cells to a byte.
pub struct ChunkSection {
    blocks: Vec<u16>,
    block_light: Vec<u8>,
    sky_light: Vec<u8>,
}

impl ChunkSection {
    /// The block identifiers, in (y, z, x) order.
    pub closed spec fn spec_blocks(&self) -> Seq<u16> {
        self.blocks@
    }

    pub closed spec fn spec_block_light(&self) -> Seq<u8> {
        self.block_light@
    }

    pub closed spec fn spec_sky_light(&self) -> Seq<u8> {
        self.sky_light@
    }

    /// Every array has the length that the volume asks for.
    pub open spec fn wf(&self) -> bool {
        &&& self.spec_blocks().len() == 4096
        &&& self.spec_block_light().len() == 2048
        &&& self.spec_sky_light().len() == 2048
    }

    /// The block identifier of cell (x, y, z).
    pub open spec fn spec_get(&self, x: int, y: int, z: int) -> u16 {
        self.spec_blocks()[y * 256 + z * 16 + x]
    }

    /// A section is empty where every cell holds air.
    pub open spec fn spec_is_empty(&self) -> bool {
        forall|i: int| 0 <= i < self.spec_blocks().len() ==> self.spec_blocks()[i] == 0
    }

    /// The bytes of a section: the count of cells that are not air in two
    /// bytes, every block identifier in two bytes, the block light, the sky
    /// light.
    pub open spec fn spec_encode(&self) -> Seq<u8> {
        be16_bytes(count_non_air(self.spec_blocks())) + blocks_bytes(self.spec_blocks())
            + self.spec_block_light() + self.spec_sky_light()
    }

    /// No block gives light and the sky lights every cell: every byte of
    /// block light is 0 and every byte of sky light 0xFF.
    pub open spec fn spec_unlit(&self) -> bool {
        &&& forall|i: int| 0 <= i < 2048 ==> self.spec_block_light()[i] == 0
        &&& forall|i: int| 0 <= i < 2048 ==> self.spec_sky_light()[i] == 0xFF
    }

    /// A section of air, without block light and with full sky light.
    pub fn new() -> (r: Self)
        ensures
            r.wf(),
            r.spec_is_empty(),
            r.spec_unlit(),
    {
        Self {
            blocks: filled(0u16, SECTION_BLOCKS),
            block_light: filled(0u8, SECTION_BLOCKS / 2),
            sky_light: filled(0xFFu8, SECTION_BLOCKS / 2),
        }
    }

    pub fn get_block(&self, x: usize, y: usize, z: usize) -> (id: u16)
        requires
            self.wf(),
            x < 16,
            y < 16,
            z < 16,
        ensures
            id == self.spec_get(x as int, y as int, z as int),
    {
        let index = (y * CHUNK_WIDTH * CHUNK_WIDTH) + (z * CHUNK_WIDTH) + x;
        self.blocks[index]
    }

    pub fn set_block(&mut self, x: usize, y: usize, z: usize, block_id: u16)
        requires
            old(self).wf(),
            x < 16,
            y < 16,
            z < 16,
        ensures
            final(self).wf(),
            final(self).spec_blocks() == old(self).spec_blocks().update(
                y * 256 + z * 16 + x,
                block_id,
            ),
            final(self).spec_block_light() == old(self).spec_block_light(),
            final(self).spec_sky_light() == old(self).spec_sky_light(),
    {
        let index = (y * CHUNK_WIDTH * CHUNK_WIDTH) + (z * CHUNK_WIDTH) + x;
        self.blocks.set(index, block_id);
    }

    pub fn is_empty(&self) -> (r: bool)
        ensures
            r == self.spec_is_empty(),
    {
        let mut i: usize = 0;
        while i < self.blocks.len()
            invariant
                i <= self.blocks@.len(),
                forall|k: int| 0 <= k < i ==> self.blocks@[k] == 0,
            decreases self.blocks@.len() - i,
        {
            if self.blocks[i] != 0 {
                assert(self.spec_blocks()[i as int] != 0);
                return false;
            }
            i = i + 1;
        }
        true
    }

    pub fn encode(&self) -> (bytes: Vec<u8>)
        requires
            self.wf(),
        ensures
            bytes@ == self.spec_encode(),
            bytes@.len() == SECTION_PAYLOAD,
    {
        let mut count: u16 = 0;
        let mut body: Vec<u8> = Vec::new();
        let mut i: usize = 0;
        while i < self.blocks.len()
            invariant
                i <= self.blocks@.len() == 4096,
                count == count_non_air(self.blocks@.take(i as int)),
                count <= i,
                body@ == blocks_bytes(self.blocks@.take(i as int)),
            decreases self.blocks@.len() - i,
        {
            let block = self.blocks[i];
            assert(self.blocks@.take(i + 1).drop_last() =~= self.blocks@.take(i as int));
            if block != 0 {
                count = count + 1;
            }
            write_u16(&mut body, block);
            i = i + 1;
        }
        assert(self.blocks@.take(i as int) =~= self.blocks@);
        let mut buf: Vec<u8> = Vec::new();
        write_u16(&mut buf, count);
        write_bytes(&mut buf, body.as_slice());
        write_bytes(&mut buf, self.block_light.as_slice());
        write_bytes(&mut buf, self.sky_light.as_slice());
        proof {
            lemma_blocks_bytes_len(self.blocks@);
            assert(buf@ =~= self.spec_encode());
        }
        buf
    }
}

/// A column of blocks 16 wide, 16 deep and `CHUNK_HEIGHT` tall: its sections
/// from the bottom up, the height of every column, and the biome of every
/// column.
pub struct Chunk {
    pub position: ChunkPosition,
    pub sections: Vec<ChunkSection>,
    pub heightmap: Vec<i32>,
    pub biomes: Vec<i32>,
}

/// The 32-bit numbers as bytes, four for each, most significant first.
pub open spec fn ints_bytes(values: Seq<i32>) -> Seq<u8>
    decreases values.len(),
{
    if values.len() == 0 {
        Seq::empty()
    } else {
        ints_bytes(values.drop_last()) + be32_bytes(unsigned32(values.last()))
    }
}

/// The sections as bytes: for each a marker byte, 0 for an empty section and
/// 1 for any other, and behind a 1 the bytes of the section.
pub open spec fn sections_bytes(sections: Seq<ChunkSection>) -> Seq<u8>
    decreases sections.len(),
{
    if sections.len() == 0 {
        Seq::empty()
    } else if sections.last().spec_is_empty() {
        sections_bytes(sections.drop_last()) + seq![0u8]
    } else {
        sections_bytes(sections.drop_last()) + seq![1u8] + sections.last().spec_encode()
    }
}

/// How many of the sections are not empty.
pub open spec fn count_present(sections: Seq<ChunkSection>) -> nat
    decreases sections.len(),
{
    if sections.len() == 0 {
        0
    } else {
        count_present(sections.drop_last()) + if sections.last().spec_is_empty() {
            0nat
        } else {
            1nat
        }
    }
}

/// Every 32-bit number takes four bytes.
pub proof fn lemma_ints_bytes_len(values: Seq<i32>)
    ensures
        ints_bytes(values).len() == 4 * values.len(),
    decreases values.len(),
{
    if values.len() > 0 {
        lemma_ints_bytes_len(values.drop_last());
    }
}

/// The sections take one byte each, and every section that is not empty
/// takes its payload besides.
pub proof fn lemma_sections_bytes_len(sections: Seq<ChunkSection>)
    requires
        forall|i: int| 0 <= i < sections.len() ==> (#[trigger] sections[i]).wf(),
    ensures
        sections_bytes(sections).len() == sections.len() + 12290 * count_present(sections),
        count_present(sections) <= sections.len(),
    decreases sections.len(),
{
    if sections.len() > 0 {
        let front = sections.drop_last();
        assert forall|i: int| 0 <= i < front.len() implies (#[trigger] front[i]).wf() by {
            assert(front[i] == sections[i]);
        }
        lemma_sections_bytes_len(front);
        lemma_blocks_bytes_len(sections.last().spec_blocks());
    }
}

impl Chunk {
    /// Every array has the length that the chunk asks for, and so has every
    /// section.
    pub open spec fn wf(&self) -> bool {
        &&& self.sections@.len() == 24
        &&& self.heightmap@.len() == 256
        &&& self.biomes@.len() == 256
        &&& forall|i: int| 0 <= i < 24 ==> (#[trigger] self.sections@[i]).wf()
    }

    /// The block at (x, y, z) within the chunk; air above and below it.
    pub open spec fn spec_block(&self, x: int, y: int, z: int) -> u16 {
        if 0 <= y < 384 {
            self.sections@[y / 16].spec_get(x, y % 16, z)
        } else {
            0
        }
    }

    /// The largest y below `limit` at which column (x, z) holds a block that
    /// is not air, or 0 where it holds none.
    pub open spec fn top_below(&self, x: int, z: int, limit: nat) -> nat
        decreases limit,
    {
        if limit == 0 {
            0
        } else if self.spec_block(x, limit - 1, z) != 0 {
            (limit - 1) as nat
        } else {
            self.top_below(x, z, (limit - 1) as nat)
        }
    }

    /// The largest y at which column (x, z) holds a block that is not air,
    /// or 0 where the column is empty.
    pub open spec fn column_top(&self, x: int, z: int) -> nat {
        self.top_below(x, z, 384)
    }

    /// The height recorded for column (x, z).
    pub open spec fn spec_height(&self, x: int, z: int) -> i32 {
        self.heightmap@[z * 16 + x]
    }

    /// The heightmap records of every column its highest block.
    pub open spec fn heightmap_exact(&self) -> bool {
        forall|x: int, z: int|
            0 <= x < 16 && 0 <= z < 16 ==> #[trigger] self.spec_height(x, z) == self.column_top(
                x,
                z,
            )
    }

    /// No block gives light and the sky lights every cell, in every section.
    pub open spec fn spec_unlit(&self) -> bool {
        forall|i: int| 0 <= i < 24 ==> (#[trigger] self.sections@[i]).spec_unlit()
    }

    /// The bytes of a chunk: the heightmap, the sections, the biomes.
    pub open spec fn spec_encode(&self) -> Seq<u8> {
        ints_bytes(self.heightmap@) + sections_bytes(self.sections@) + ints_bytes(self.biomes@)
    }

    /// `top_below` is what its name says: no block above it and below the
    /// limit is other than air, and either it holds such a block, or it is 0
    /// and there is none at all below the limit.
    pub proof fn lemma_top_below_is_max(&self, x: int, z: int, limit: nat)
        ensures
            self.top_below(x, z, limit) < limit || limit == 0,
            forall|y: int|
                self.top_below(x, z, limit) < y < limit ==> self.spec_block(x, y, z) == 0,
            self.spec_block(x, self.top_below(x, z, limit) as int, z) != 0 || (self.top_below(
                x,
                z,
                limit,
            ) == 0 && forall|y: int| 0 <= y < limit ==> self.spec_block(x, y, z) == 0),
        decreases limit,
    {
        if limit > 0 && self.spec_block(x, limit - 1, z) == 0 {
            self.lemma_top_below_is_max(x, z, (limit - 1) as nat);
        }
    }

    /// Two chunks that agree on a column below the limit agree on its top.
    pub proof fn lemma_top_below_same(&self, other: &Chunk, x: int, z: int, limit: nat)
        requires
            forall|y: int| 0 <= y < limit ==> self.spec_block(x, y, z) == other.spec_block(x, y, z),
        ensures
            self.top_below(x, z, limit) == other.top_below(x, z, limit),
        decreases limit,
    {
        if limit > 0 {
            self.lemma_top_below_same(other, x, z, (limit - 1) as nat);
        }
    }

    /// A chunk of air at `position`: every height 0, every biome 1.
    pub fn new(position: ChunkPosition) -> (r: Self)
        ensures
            r.wf(),
            r.position == position,
            forall|x: int, y: int, z: int|
                0 <= x < 16 && 0 <= z < 16 ==> r.spec_block(x, y, z) == 0,
            forall|i: int| 0 <= i < 256 ==> r.heightmap@[i] == 0,
            forall|i: int| 0 <= i < 256 ==> r.biomes@[i] == 1,
            forall|i: int| 0 <= i < 24 ==> (#[trigger] r.sections@[i]).spec_is_empty(),
            r.spec_unlit(),
            r.heightmap_exact(),
    {
        let mut sections: Vec<ChunkSection> = Vec::new();
        let mut i: usize = 0;
        while i < SECTIONS_PER_CHUNK
            invariant
                i <= 24,
                sections@.len() == i,
                forall|k: int| 0 <= k < i ==> (#[trigger] sections@[k]).wf(),
                forall|k: int| 0 <= k < i ==> (#[trigger] sections@[k]).spec_is_empty(),
                forall|k: int| 0 <= k < i ==> (#[trigger] sections@[k]).spec_unlit(),
            decreases 24 - i,
        {
            sections.push(ChunkSection::new());
            i = i + 1;
        }
        let r = Self {
            position,
            sections,
            heightmap: filled(0i32, CHUNK_WIDTH * CHUNK_WIDTH),
            biomes: filled(1i32, CHUNK_WIDTH * CHUNK_WIDTH),
        };
        proof {
            assert forall|x: int, y: int, z: int| 0 <= x < 16 && 0 <= z < 16 implies r.spec_block(
                x,
                y,
                z,
            ) == 0 by {
                if 0 <= y < 384 {
                    assert(r.sections@[y / 16].spec_is_empty());
                    assert(r.sections@[y / 16].wf());
                }
            }
            assert forall|x: int, z: int| 0 <= x < 16 && 0 <= z < 16 implies #[trigger] r.spec_height(
                x,
                z,
            ) == r.column_top(x, z) by {
                r.lemma_top_below_is_max(x, z, 384);
            }
        }
        r
    }

    /// The block at (x, y, z); air where y is at or above the chunk's height.
    pub fn get_block(&self, x: usize, y: usize, z: usize) -> (id: u16)
        requires
            self.wf(),
            x < 16,
            z < 16,
        ensures
            id == self.spec_block(x as int, y as int, z as int),
    {
        let section_index = y / SECTION_HEIGHT;
        let section_y = y % SECTION_HEIGHT;
        if section_index >= self.sections.len() {
            return 0;
        }
        self.sections[section_index].get_block(x, section_y, z)
    }

    /// The highest block of column (x, z), found by looking from the top
    /// down.
    pub fn highest_block(&self, x: usize, z: usize) -> (top: usize)
        requires
            self.wf(),
            x < 16,
            z < 16,
        ensures
            top == self.column_top(x as int, z as int),
            top < 384,
    {
        let mut limit: usize = CHUNK_HEIGHT;
        while limit > 0
            invariant
                self.wf(),
                x < 16,
                z < 16,
                limit <= 384,
                self.column_top(x as int, z as int) == self.top_below(
                    x as int,
                    z as int,
                    limit as nat,
                ),
            decreases limit,
        {
            if self.get_block(x, limit - 1, z) != 0 {
                return limit - 1;
            }
            limit = limit - 1;
        }
        0
    }
}

/// The block that the flat generator leaves at height `y` of a column that
/// held `prev` there: bedrock (7) at the bottom, grass (2) on the layer below
/// `height`, dirt (3) between them, and above that what was there before.
pub open spec fn flat_block(prev: u16, y: int, height: int) -> u16 {
    if y == 0 {
        7
    } else if height > 1 && y == height - 1 {
        2
    } else if y < height - 1 {
        3
    } else {
        prev
    }
}

impl Chunk {
    /// The light in `self` is what it is in `other`, section by section.
    pub open spec fn lights_same(&self, other: &Chunk) -> bool {
        forall|i: int|
            0 <= i < 24 ==> (#[trigger] self.sections@[i]).spec_block_light()
                == other.sections@[i].spec_block_light() && self.sections@[i].spec_sky_light()
                == other.sections@[i].spec_sky_light()
    }

    /// Column (x, z) of `self` holds what the flat generator makes of that
    /// column of `prev`, and its recorded height is `height`.
    pub open spec fn column_flat(&self, prev: &Chunk, x: int, z: int, height: int) -> bool {
        &&& forall|y: int|
            0 <= y < 384 ==> self.spec_block(x, y, z) == flat_block(
                prev.spec_block(x, y, z),
                y,
                height,
            )
        &&& self.spec_height(x, z) == height
    }

    /// Column (x, z) of `self` is as it is in `prev`.
    pub open spec fn column_same(&self, prev: &Chunk, x: int, z: int) -> bool {
        &&& forall|y: int| self.spec_block(x, y, z) == prev.spec_block(x, y, z)
        &&& self.spec_height(x, z) == prev.spec_height(x, z)
    }

    /// Light that is the same in two steps is the same over both.
    pub proof fn lemma_lights_chain(&self, middle: &Chunk, first: &Chunk)
        requires
            self.lights_same(middle),
            middle.lights_same(first),
        ensures
            self.lights_same(first),
    {
        assert forall|i: int| 0 <= i < 24 implies (
        #[trigger] self.sections@[i]).spec_block_light() == first.sections@[i].spec_block_light()
            && self.sections@[i].spec_sky_light() == first.sections@[i].spec_sky_light() by {
            assert(middle.sections@[i].spec_block_light() == first.sections@[i].spec_block_light());
        }
    }

    /// Writes one block and leaves the heightmap alone.
    fn put_block(&mut self, x: usize, y: usize, z: usize, block_id: u16)
        requires
            old(self).wf(),
            x < 16,
            y < 384,
            z < 16,
        ensures
            final(self).wf(),
            final(self).position == old(self).position,
            final(self).heightmap == old(self).heightmap,
            final(self).biomes == old(self).biomes,
            final(self).lights_same(old(self)),
            forall|a: int, b: int, c: int|
                0 <= a < 16 && 0 <= c < 16 ==> #[trigger] final(self).spec_block(a, b, c) == if a
                    == x && b == y && c == z {
                    block_id
                } else {
                    old(self).spec_block(a, b, c)
                },
    {
        let ghost prev = *self;
        let index = y / SECTION_HEIGHT;
        let mut section = self.sections.remove(index);
        section.set_block(x, y % SECTION_HEIGHT, z, block_id);
        self.sections.insert(index, section);
        proof {
            assert forall|i: int| 0 <= i < 24 implies (#[trigger] self.sections@[i]).wf() by {
                if i != index {
                    assert(self.sections@[i] == prev.sections@[i]);
                }
            }
            assert forall|i: int| 0 <= i < 24 implies (
            #[trigger] self.sections@[i]).spec_block_light()
                == prev.sections@[i].spec_block_light() && self.sections@[i].spec_sky_light()
                == prev.sections@[i].spec_sky_light() by {
                if i != index {
                    assert(self.sections@[i] == prev.sections@[i]);
                }
            }
            assert forall|a: int, b: int, c: int| 0 <= a < 16 && 0 <= c < 16 implies #[trigger]
                self.spec_block(a, b, c) == if a == x && b == y && c == z {
                block_id
            } else {
                prev.spec_block(a, b, c)
            } by {
                if 0 <= b < 384 {
                    if b / 16 != index {
                        assert(self.sections@[b / 16] == prev.sections@[b / 16]);
                    } else {
                        assert(prev.sections@[b / 16].wf());
                    }
                }
            }
        }
    }

    /// Writes one block and brings the height of its column up to date: where
    /// the write moves the highest block of the column, the heightmap records
    /// the new one. A write at or above the chunk's height changes nothing.
    pub fn set_block(&mut self, x: usize, y: usize, z: usize, block_id: u16)
        requires
            old(self).wf(),
            x < 16,
            z < 16,
        ensures
            final(self).spec_written(old(self), x as int, y as int, z as int, block_id),
    {
        if y >= CHUNK_HEIGHT {
            return;
        }
        let ghost prev = *self;
        let before = self.highest_block(x, z);
        self.put_block(x, y, z, block_id);
        let after = self.highest_block(x, z);
        let ghost mid = *self;
        if after != before {
            self.heightmap.set(z * CHUNK_WIDTH + x, after as i32);
        }
        proof {
            assert forall|a: int, b: int, c: int| 0 <= a < 16 && 0 <= c < 16 implies #[trigger]
                self.spec_block(a, b, c) == if a == x && b == y && c == z {
                block_id
            } else {
                prev.spec_block(a, b, c)
            } by {
                assert(self.spec_block(a, b, c) == mid.spec_block(a, b, c));
            }
            assert forall|a: int, c: int| 0 <= a < 16 && 0 <= c < 16 implies self.column_top(a, c)
                == mid.column_top(a, c) by {
                self.lemma_top_below_same(&mid, a, c, 384);
            }
            assert forall|i: int| 0 <= i < 24 implies (
            #[trigger] self.sections@[i]).spec_block_light()
                == prev.sections@[i].spec_block_light() && self.sections@[i].spec_sky_light()
                == prev.sections@[i].spec_sky_light() by {
                assert(self.sections@[i] == mid.sections@[i]);
            }
            if prev.heightmap_exact() {
                assert forall|a: int, c: int| 0 <= a < 16 && 0 <= c < 16 implies #[trigger]
                    self.spec_height(a, c) == self.column_top(a, c) by {
                    if !(a == x && c == z) {
                        assert(self.spec_height(a, c) == prev.spec_height(a, c));
                        assert forall|b: int| 0 <= b < 384 implies self.spec_block(a, b, c)
                            == prev.spec_block(a, b, c) by {}
                        self.lemma_top_below_same(&prev, a, c, 384);
                    } else {
                        assert(prev.spec_height(a, c) == prev.column_top(a, c));
                    }
                }
            }
        }
    }

    /// Fills one column as the flat generator does.
    fn fill_column(&mut self, x: usize, z: usize, height: usize)
        requires
            old(self).wf(),
            x < 16,
            z < 16,
            height <= i32::MAX,
        ensures
            final(self).wf(),
            final(self).position == old(self).position,
            final(self).biomes == old(self).biomes,
            final(self).lights_same(old(self)),
            final(self).column_flat(old(self), x as int, z as int, height as int),
            forall|a: int, c: int|
                0 <= a < 16 && 0 <= c < 16 && !(a == x && c == z) ==> #[trigger] final(self).column_same(old(self), a, c),
    {
        let ghost prev = *self;
        self.put_block(x, 0, z, 7);
        let upper: usize = if height > 1 {
            if height - 1 < CHUNK_HEIGHT {
                height - 1
            } else {
                CHUNK_HEIGHT
            }
        } else {
            0
        };
        let mut y: usize = 1;
        while y < upper
            invariant
                1 <= y,
                y == 1 || y <= upper,
                upper <= 384,
                x < 16,
                z < 16,
                self.wf(),
                self.position == prev.position,
                self.biomes == prev.biomes,
                self.heightmap == prev.heightmap,
                self.lights_same(&prev),
                forall|a: int, b: int, c: int|
                    0 <= a < 16 && 0 <= c < 16 ==> #[trigger] self.spec_block(a, b, c) == if a == x
                        && c == z && 0 <= b < y {
                        if b == 0 {
                            7u16
                        } else {
                            3u16
                        }
                    } else {
                        prev.spec_block(a, b, c)
                    },
            decreases upper - y,
        {
            let ghost step = *self;
            self.put_block(x, y, z, 3);
            proof {
                self.lemma_lights_chain(&step, &prev);
            }
            y = y + 1;
        }
        let ghost filled = *self;
        if height > 1 && height - 1 < CHUNK_HEIGHT {
            self.put_block(x, height - 1, z, 2);
        }
        proof {
            if height > 1 && height - 1 < CHUNK_HEIGHT {
                self.lemma_lights_chain(&filled, &prev);
            }
        }
        let ghost mid = *self;
        self.heightmap.set(z * CHUNK_WIDTH + x, height as i32);
        proof {
            assert forall|a: int, b: int, c: int| 0 <= a < 16 && 0 <= c < 16 implies self.spec_block(
                a,
                b,
                c,
            ) == if a == x && c == z && 0 <= b < 384 {
                flat_block(prev.spec_block(a, b, c), b, height as int)
            } else {
                prev.spec_block(a, b, c)
            } by {
                assert(self.spec_block(a, b, c) == mid.spec_block(a, b, c));
            }
            assert forall|i: int| 0 <= i < 24 implies (
            #[trigger] self.sections@[i]).spec_block_light()
                == prev.sections@[i].spec_block_light() && self.sections@[i].spec_sky_light()
                == prev.sections@[i].spec_sky_light() by {
                assert(self.sections@[i] == mid.sections@[i]);
            }
            assert forall|a: int, c: int|
                0 <= a < 16 && 0 <= c < 16 && !(a == x && c == z) implies #[trigger] self.column_same(
                &prev,
                a,
                c,
            ) by {
                assert(c * 16 + a != z * 16 + x);
                assert forall|b: int| self.spec_block(a, b, c) == prev.spec_block(a, b, c) by {
                    assert(self.spec_block(a, b, c) == mid.spec_block(a, b, c));
                }
            }
        }
    }

    /// Fills the chunk as the flat generator does: in every column bedrock at
    /// the bottom, dirt above it, grass on the layer below `height`; and
    /// records `height` as the height of every column.
    pub fn generate_flat(&mut self, height: usize)
        requires
            old(self).wf(),
            height <= i32::MAX,
        ensures
            final(self).wf(),
            final(self).position == old(self).position,
            final(self).biomes == old(self).biomes,
            final(self).lights_same(old(self)),
            forall|x: int, z: int|
                0 <= x < 16 && 0 <= z < 16 ==> #[trigger] final(self).column_flat(
                    old(self),
                    x,
                    z,
                    height as int,
                ),
    {
        let ghost prev = *self;
        let mut x: usize = 0;
        while x < CHUNK_WIDTH
            invariant
                x <= 16,
                height <= i32::MAX,
                self.wf(),
                self.position == prev.position,
                self.biomes == prev.biomes,
                self.lights_same(&prev),
                forall|a: int, c: int|
                    0 <= a < x && 0 <= c < 16 ==> #[trigger] self.column_flat(
                        &prev,
                        a,
                        c,
                        height as int,
                    ),
                forall|a: int, c: int|
                    x <= a < 16 && 0 <= c < 16 ==> #[trigger] self.column_same(&prev, a, c),
            decreases 16 - x,
        {
            let mut z: usize = 0;
            while z < CHUNK_WIDTH
                invariant
                    x < 16,
                    z <= 16,
                    height <= i32::MAX,
                    self.wf(),
                    self.position == prev.position,
                    self.biomes == prev.biomes,
                    self.lights_same(&prev),
                    forall|a: int, c: int|
                        0 <= a < 16 && 0 <= c < 16 && (a < x || (a == x && c < z))
                            ==> #[trigger] self.column_flat(&prev, a, c, height as int),
                    forall|a: int, c: int|
                        0 <= a < 16 && 0 <= c < 16 && !(a < x || (a == x && c < z))
                            ==> #[trigger] self.column_same(&prev, a, c),
                decreases 16 - z,
            {
                let ghost mid = *self;
                self.fill_column(x, z, height);
                proof {
                    self.lemma_lights_chain(&mid, &prev);
                    assert forall|a: int, c: int|
                        0 <= a < 16 && 0 <= c < 16 && (a < x || (a == x && c < z + 1)) implies #[trigger]
                        self.column_flat(&prev, a, c, height as int) by {
                        if a == x && c == z {
                            assert(mid.column_same(&prev, a, c));
                        } else {
                            assert(self.column_same(&mid, a, c));
                            assert(mid.column_flat(&prev, a, c, height as int));
                        }
                    }
                    assert forall|a: int, c: int|
                        0 <= a < 16 && 0 <= c < 16 && !(a < x || (a == x && c < z + 1)) implies #[trigger]
                        self.column_same(&prev, a, c) by {
                        assert(self.column_same(&mid, a, c));
                        assert(mid.column_same(&prev, a, c));
                    }
                }
                z = z + 1;
            }
            x = x + 1;
        }
    }

    /// The chunk as bytes. Their number is that of the two maps of 256
    /// numbers of four bytes each, one marker byte for each section, and one
    /// section payload for each section that is not empty.
    pub fn encode(&self) -> (bytes: Vec<u8>)
        requires
            self.wf(),
        ensures
            bytes@ == self.spec_encode(),
            bytes@.len() == 1024 + 24 + 12290 * count_present(self.sections@) + 1024,
    {
        let mut buf: Vec<u8> = Vec::new();
        let mut i: usize = 0;
        while i < self.heightmap.len()
            invariant
                i <= self.heightmap@.len(),
                buf@ == ints_bytes(self.heightmap@.take(i as int)),
            decreases self.heightmap@.len() - i,
        {
            assert(self.heightmap@.take(i + 1).drop_last() =~= self.heightmap@.take(i as int));
            write_i32(&mut buf, self.heightmap[i]);
            i = i + 1;
        }
        assert(self.heightmap@.take(i as int) =~= self.heightmap@);
        let ghost heights = buf@;
        let mut k: usize = 0;
        while k < self.sections.len()
            invariant
                self.wf(),
                k <= self.sections@.len(),
                buf@ == heights + sections_bytes(self.sections@.take(k as int)),
            decreases self.sections@.len() - k,
        {
            let ghost before = buf@;
            let ghost done = sections_bytes(self.sections@.take(k as int));
            assert(self.sections@.take(k + 1).drop_last() =~= self.sections@.take(k as int));
            assert(self.sections@.take(k + 1).last() == self.sections@[k as int]);
            if self.sections[k].is_empty() {
                buf.push(0);
                assert(buf@ =~= heights + (done + seq![0u8]));
            } else {
                buf.push(1);
                let payload = self.sections[k].encode();
                write_bytes(&mut buf, payload.as_slice());
                assert(buf@ =~= heights + (done + seq![1u8] + self.sections@[k as int].spec_encode()));
            }
            k = k + 1;
        }
        assert(self.sections@.take(k as int) =~= self.sections@);
        let ghost body = buf@;
        let mut j: usize = 0;
        while j < self.biomes.len()
            invariant
                j <= self.biomes@.len(),
                buf@ == body + ints_bytes(self.biomes@.take(j as int)),
            decreases self.biomes@.len() - j,
        {
            let ghost before = buf@;
            let ghost done = ints_bytes(self.biomes@.take(j as int));
            assert(self.biomes@.take(j + 1).drop_last() =~= self.biomes@.take(j as int));
            write_i32(&mut buf, self.biomes[j]);
            assert(buf@ =~= body + (done + be32_bytes(unsigned32(self.biomes@[j as int]))));
            j = j + 1;
        }
        proof {
            assert(self.biomes@.take(j as int) =~= self.biomes@);
            lemma_ints_bytes_len(self.heightmap@);
            lemma_ints_bytes_len(self.biomes@);
            lemma_sections_bytes_len(self.sections@);
        }
        buf
    }
}

impl Chunk {
    /// The chunk is what the flat generator makes of a chunk of air: in
    /// every column the flat layers and the recorded height `height`.
    pub open spec fn spec_is_flat(&self, height: int) -> bool {
        forall|x: int, z: int|
            0 <= x < 16 && 0 <= z < 16 ==> {
                &&& #[trigger] self.spec_height(x, z) == height
                &&& forall|y: int|
                    0 <= y < 384 ==> self.spec_block(x, y, z) == flat_block(0, y, height)
            }
    }

    /// `self` is `base` after one write of `block_id` at (x, y, z): that cell
    /// holds `block_id`, every other cell what it held; the height of column
    /// (x, z) is the new highest block where the write moved it, and every
    /// other height is what it was. A write outside the chunk's height
    /// leaves the chunk as it was.
    pub open spec fn spec_written(&self, base: &Chunk, x: int, y: int, z: int, block_id: u16)
        -> bool {
        &&& self.wf()
        &&& self.position == base.position
        &&& self.biomes == base.biomes
        &&& self.lights_same(base)
        &&& !(0 <= y < 384) ==> *self == *base
        &&& 0 <= y < 384 ==> forall|a: int, b: int, c: int|
            0 <= a < 16 && 0 <= c < 16 ==> #[trigger] self.spec_block(a, b, c) == if a == x && b
                == y && c == z {
                block_id
            } else {
                base.spec_block(a, b, c)
            }
        &&& forall|a: int, c: int|
            0 <= a < 16 && 0 <= c < 16 && !(a == x && c == z) ==> #[trigger] self.spec_height(a, c)
                == base.spec_height(a, c)
        &&& self.spec_height(x, z) == if self.column_top(x, z) != base.column_top(x, z) {
            self.column_top(x, z) as i32
        } else {
            base.spec_height(x, z)
        }
        &&& base.heightmap_exact() ==> self.heightmap_exact()
    }

    /// The heightmap after a write: where the heightmap recorded of every
    /// column its highest block before a write, it does so after it. The
    /// height of every column is then the largest y at which the column
    /// holds a block that is not air, or 0 where the column is empty. A
    /// chunk of air starts out so, and hence every chunk that is made from
    /// one by writes alone is so.
    pub proof fn lemma_heightmap_invariant(
        &self,
        before: &Chunk,
        x: int,
        y: int,
        z: int,
        block_id: u16,
    )
        requires
            before.heightmap_exact(),
            self.spec_written(before, x, y, z, block_id),
        ensures
            self.heightmap_exact(),
            forall|a: int, c: int|
                0 <= a < 16 && 0 <= c < 16 ==> {
                    let top = #[trigger] self.spec_height(a, c);
                    &&& 0 <= top < 384
                    &&& forall|b: int| top < b < 384 ==> self.spec_block(a, b, c) == 0
                    &&& self.spec_block(a, top as int, c) != 0 || (top == 0 && forall|b: int|
                        0 <= b < 384 ==> self.spec_block(a, b, c) == 0)
                },
    {
        assert forall|a: int, c: int| 0 <= a < 16 && 0 <= c < 16 implies {
            let top = #[trigger] self.spec_height(a, c);
            &&& 0 <= top < 384
            &&& forall|b: int| top < b < 384 ==> self.spec_block(a, b, c) == 0
            &&& self.spec_block(a, top as int, c) != 0 || (top == 0 && forall|b: int|
                0 <= b < 384 ==> self.spec_block(a, b, c) == 0)
        } by {
            self.lemma_top_below_is_max(a, c, 384);
            assert(self.spec_height(a, c) == self.column_top(a, c));
        }
    }

    /// The heightmap records of every column a height at or above its
    /// highest block. That is so of a chunk of air, of a flat chunk, and
    /// after every write to a chunk of which it was so.
    pub open spec fn heightmap_covers(&self) -> bool {
        forall|x: int, z: int|
            0 <= x < 16 && 0 <= z < 16 ==> #[trigger] self.spec_height(x, z) >= self.column_top(
                x,
                z,
            )
    }

    /// The highest block of a column is the block above which the column is
    /// air.
    pub proof fn lemma_column_top_is(&self, x: int, z: int, y: int)
        requires
            0 <= y < 384,
            self.spec_block(x, y, z) != 0,
            forall|b: int| y < b < 384 ==> self.spec_block(x, b, z) == 0,
        ensures
            self.column_top(x, z) == y,
    {
        self.lemma_top_below_is_max(x, z, 384);
    }

    /// A flat chunk records of every column a height at or above its
    /// highest block: the highest block lies one below the recorded height,
    /// or at the bottom.
    pub proof fn lemma_flat_covers(&self, height: int)
        requires
            0 <= height,
            self.spec_is_flat(height),
        ensures
            self.heightmap_covers(),
            forall|x: int, z: int|
                0 <= x < 16 && 0 <= z < 16 && 1 <= height <= 384 ==> #[trigger] self.column_top(
                    x,
                    z,
                ) == height - 1,
    {
        assert forall|x: int, z: int| 0 <= x < 16 && 0 <= z < 16 implies #[trigger]
            self.spec_height(x, z) >= self.column_top(x, z) by {
            self.lemma_top_below_is_max(x, z, 384);
            let top = self.column_top(x, z) as int;
            assert(self.spec_height(x, z) == height);
            if top > 0 {
                assert(self.spec_block(x, top, z) == flat_block(0, top, height));
            }
        }
        assert forall|x: int, z: int|
            0 <= x < 16 && 0 <= z < 16 && 1 <= height <= 384 implies #[trigger] self.column_top(
            x,
            z,
        ) == height - 1 by {
            assert(self.spec_height(x, z) == height);
            assert(self.spec_block(x, height - 1, z) == flat_block(0, height - 1, height));
            assert forall|b: int| height - 1 < b < 384 implies self.spec_block(x, b, z) == 0 by {
                assert(self.spec_block(x, b, z) == flat_block(0, b, height));
            }
            self.lemma_column_top_is(x, z, height - 1);
        }
    }

    /// The height of a column after a block that is not air was written
    /// into it: where the heightmap covered the chunk before, it covers it
    /// afterwards, and the column is recorded at least as high as the block.
    pub proof fn lemma_written_height(
        &self,
        base: &Chunk,
        x: int,
        y: int,
        z: int,
        block_id: u16,
    )
        requires
            self.spec_written(base, x, y, z, block_id),
            base.heightmap_covers(),
            0 <= x < 16,
            0 <= z < 16,
        ensures
            self.heightmap_covers(),
            0 <= y < 384 && block_id != 0 ==> self.spec_height(x, z) >= y,
    {
        assert forall|a: int, c: int| 0 <= a < 16 && 0 <= c < 16 implies #[trigger]
            self.spec_height(a, c) >= self.column_top(a, c) by {
            assert(base.spec_height(a, c) >= base.column_top(a, c));
            self.lemma_top_below_is_max(a, c, 384);
            if 0 <= y < 384 {
                if !(a == x && c == z) {
                    assert forall|b: int| 0 <= b < 384 implies self.spec_block(a, b, c)
                        == base.spec_block(a, b, c) by {}
                    self.lemma_top_below_same(base, a, c, 384);
                    assert(self.spec_height(a, c) == base.spec_height(a, c));
                }
            } else {
                assert(*self == *base);
            }
        }
        if 0 <= y < 384 && block_id != 0 {
            self.lemma_top_below_is_max(x, z, 384);
            assert(self.spec_block(x, y, z) == block_id);
            assert(self.spec_height(x, z) >= self.column_top(x, z));
        }
    }

    /// A chunk at `position` as the flat generator makes it.
    pub fn flat(position: ChunkPosition, height: usize) -> (r: Self)
        requires
            height <= i32::MAX,
        ensures
            r.wf(),
            r.position == position,
            r.spec_is_flat(height as int),
            r.spec_unlit(),
            forall|i: int| 0 <= i < 256 ==> r.biomes@[i] == 1,
    {
        let mut chunk = Chunk::new(position);
        let ghost fresh = chunk;
        chunk.generate_flat(height);
        proof {
            assert forall|i: int| 0 <= i < 24 implies (#[trigger] chunk.sections@[i]).spec_unlit() by {
                assert(fresh.sections@[i].spec_unlit());
                assert(chunk.sections@[i].spec_block_light()
                    == fresh.sections@[i].spec_block_light());
            }
            assert forall|x: int, z: int| 0 <= x < 16 && 0 <= z < 16 implies {
                &&& #[trigger] chunk.spec_height(x, z) == height
                &&& forall|y: int|
                    0 <= y < 384 ==> chunk.spec_block(x, y, z) == flat_block(0, y, height as int)
            } by {
                assert(chunk.column_flat(&fresh, x, z, height as int));
            }
        }
        chunk
    }
}

// ---------------------------------------------------------------------------
// Reading chunks
// ---------------------------------------------------------------------------

/// Two bytes that were written for a 16-bit number spell that number.
pub proof fn lemma_be16_reads_back(bytes: Seq<u8>, pos: int, v: u16)
    requires
        0 <= pos,
        pos + 2 <= bytes.len(),
        bytes.subrange(pos, pos + 2) == be16_bytes(v as nat),
    ensures
        be16(bytes, pos) == v,
{
    assert(bytes[pos] == bytes.subrange(pos, pos + 2)[0]);
    assert(bytes[pos + 1] == bytes.subrange(pos, pos + 2)[1]);
}

/// Four bytes that were written for a 32-bit number spell that number.
pub proof fn lemma_be32_reads_back(bytes: Seq<u8>, pos: int, v: i32)
    requires
        0 <= pos,
        pos + 4 <= bytes.len(),
        bytes.subrange(pos, pos + 4) == be32_bytes(unsigned32(v)),
    ensures
        signed32(be32(bytes, pos)) == v,
{
    let u = unsigned32(v);
    let high = (u / 0x1_0000) as u16;
    let low = (u % 0x1_0000) as u16;
    let written = be32_bytes(u);
    assert(written == be16_bytes(high as nat) + be16_bytes(low as nat));
    assert(bytes.subrange(pos, pos + 2) =~= be16_bytes(high as nat)) by {
        assert(bytes.subrange(pos, pos + 4)[0] == bytes[pos]);
        assert(bytes.subrange(pos, pos + 4)[1] == bytes[pos + 1]);
    }
    assert(bytes.subrange(pos + 2, pos + 4) =~= be16_bytes(low as nat)) by {
        assert(bytes.subrange(pos, pos + 4)[2] == bytes[pos + 2]);
        assert(bytes.subrange(pos, pos + 4)[3] == bytes[pos + 3]);
    }
    lemma_be16_reads_back(bytes, pos, high);
    lemma_be16_reads_back(bytes, pos + 2, low);
    assert(be32(bytes, pos) == high * 0x1_0000 + low);
    assert(be32(bytes, pos) == u);
}

/// The bytes of block `i` within the bytes of all blocks.
pub proof fn lemma_blocks_bytes_at(blocks: Seq<u16>, i: int)
    requires
        0 <= i < blocks.len(),
    ensures
        blocks_bytes(blocks).len() == 2 * blocks.len(),
        blocks_bytes(blocks).subrange(2 * i, 2 * i + 2) == be16_bytes(blocks[i] as nat),
    decreases blocks.len(),
{
    lemma_blocks_bytes_len(blocks);
    lemma_blocks_bytes_len(blocks.drop_last());
    if i < blocks.len() - 1 {
        lemma_blocks_bytes_at(blocks.drop_last(), i);
        assert(blocks_bytes(blocks).subrange(2 * i, 2 * i + 2) =~= blocks_bytes(
            blocks.drop_last(),
        ).subrange(2 * i, 2 * i + 2));
    } else {
        assert(blocks_bytes(blocks).subrange(2 * i, 2 * i + 2) =~= be16_bytes(
            blocks.last() as nat,
        ));
    }
}

/// The bytes of number `i` within the bytes of all numbers.
pub proof fn lemma_ints_bytes_at(values: Seq<i32>, i: int)
    requires
        0 <= i < values.len(),
    ensures
        ints_bytes(values).len() == 4 * values.len(),
        ints_bytes(values).subrange(4 * i, 4 * i + 4) == be32_bytes(unsigned32(values[i])),
    decreases values.len(),
{
    lemma_ints_bytes_len(values);
    lemma_ints_bytes_len(values.drop_last());
    if i < values.len() - 1 {
        lemma_ints_bytes_at(values.drop_last(), i);
        assert(ints_bytes(values).subrange(4 * i, 4 * i + 4) =~= ints_bytes(
            values.drop_last(),
        ).subrange(4 * i, 4 * i + 4));
    } else {
        assert(ints_bytes(values).subrange(4 * i, 4 * i + 4) =~= be32_bytes(
            unsigned32(values.last()),
        ));
    }
}

/// The block identifiers that a section payload at `pos` holds.
pub open spec fn spec_section_blocks(bytes: Seq<u8>, pos: int) -> Seq<u16> {
    Seq::new(4096, |i: int| be16(bytes, pos + 2 + 2 * i) as u16)
}

/// Whether a section payload lies at `pos`: there are bytes enough, and the
/// count in front is the number of blocks behind it that are not air, and
/// not 0, as an empty section is written without payload.
pub open spec fn spec_section_ok(bytes: Seq<u8>, pos: int) -> bool {
    &&& 0 <= pos
    &&& pos + 12290 <= bytes.len()
    &&& be16(bytes, pos) == count_non_air(spec_section_blocks(bytes, pos))
    &&& be16(bytes, pos) > 0
}

impl ChunkSection {
    /// Reads a section payload at `pos`. There is a section exactly where a
    /// payload lies there; it holds the blocks and the light of the payload.
    pub fn decode(bytes: &[u8], pos: usize) -> (r: Option<Self>)
        ensures
            r.is_some() == spec_section_ok(bytes@, pos as int),
            r matches Some(section) ==> {
                &&& section.wf()
                &&& section.spec_blocks() == spec_section_blocks(bytes@, pos as int)
                &&& section.spec_block_light() == bytes@.subrange(pos + 8194, pos + 10242)
                &&& section.spec_sky_light() == bytes@.subrange(pos + 10242, pos + 12290)
                &&& !section.spec_is_empty()
            },
    {
        let len = bytes.len();
        if len < SECTION_PAYLOAD || pos > len - SECTION_PAYLOAD {
            return None;
        }
        let announced: u16 = match read_u16(bytes, pos) {
            Ok((v, _)) => v,
            Err(_) => { return None; },
        };
        let mut blocks: Vec<u16> = Vec::new();
        let mut count: u16 = 0;
        let mut i: usize = 0;
        while i < SECTION_BLOCKS
            invariant
                i <= 4096,
                pos + 12290 <= len == bytes@.len(),
                blocks@.len() == i,
                forall|k: int| 0 <= k < i ==> blocks@[k] == be16(bytes@, pos + 2 + 2 * k) as u16,
                count == count_non_air(blocks@),
                count <= i,
            decreases 4096 - i,
        {
            let block: u16 = match read_u16(bytes, pos + 2 + 2 * i) {
                Ok((v, _)) => v,
                Err(_) => { return None; },
            };
            let ghost before = blocks@;
            blocks.push(block);
            assert(blocks@.drop_last() =~= before);
            if block != 0 {
                count = count + 1;
            }
            i = i + 1;
        }
        assert(blocks@ =~= spec_section_blocks(bytes@, pos as int));
        if announced != count || count == 0 {
            return None;
        }
        proof {
            lemma_count_non_air_bound(blocks@);
        }
        Some(
            Self {
                blocks,
                block_light: copy_range(bytes, pos + 8194, pos + 10242),
                sky_light: copy_range(bytes, pos + 10242, pos + 12290),
            },
        )
    }

    /// A section that is not empty is read back from its bytes as it is:
    /// where the bytes of the section lie at `pos`, a section payload lies
    /// there, and it holds the blocks and the light of the section.
    pub proof fn lemma_round_trip(&self, bytes: Seq<u8>, pos: int)
        requires
            self.wf(),
            !self.spec_is_empty(),
            0 <= pos,
            pos + 12290 <= bytes.len(),
            bytes.subrange(pos, pos + 12290) == self.spec_encode(),
        ensures
            spec_section_ok(bytes, pos),
            spec_section_blocks(bytes, pos) == self.spec_blocks(),
            bytes.subrange(pos + 8194, pos + 10242) == self.spec_block_light(),
            bytes.subrange(pos + 10242, pos + 12290) == self.spec_sky_light(),
    {
        let blocks = self.spec_blocks();
        let payload = self.spec_encode();
        lemma_blocks_bytes_len(blocks);
        lemma_count_non_air_bound(blocks);
        assert(payload.len() == 12290);
        assert forall|k: int| 0 <= k < payload.len() implies bytes[pos + k] == payload[k] by {
            assert(bytes.subrange(pos, pos + 12290)[k] == bytes[pos + k]);
        }
        let front = be16_bytes(count_non_air(blocks));
        let middle = blocks_bytes(blocks);
        assert(front.len() == 2);
        assert(middle.len() == 8192);
        assert(payload == ((front + middle) + self.spec_block_light()) + self.spec_sky_light());
        assert forall|k: int| 0 <= k < 2 implies payload[k] == front[k] by {}
        assert forall|k: int| 0 <= k < 8192 implies payload[2 + k] == middle[k] by {}
        assert forall|k: int| 0 <= k < 2048 implies payload[8194 + k]
            == self.spec_block_light()[k] by {}
        assert forall|k: int| 0 <= k < 2048 implies payload[10242 + k]
            == self.spec_sky_light()[k] by {}
        assert(bytes.subrange(pos, pos + 2) =~= be16_bytes(count_non_air(blocks)));
        lemma_be16_reads_back(bytes, pos, count_non_air(blocks) as u16);
        assert forall|i: int| 0 <= i < 4096 implies spec_section_blocks(bytes, pos)[i]
            == blocks[i] by {
            lemma_blocks_bytes_at(blocks, i);
            assert(bytes[pos + 2 + 2 * i] == middle[2 * i]);
            assert(bytes[pos + 2 + 2 * i + 1] == middle[2 * i + 1]);
            assert(bytes.subrange(pos + 2 + 2 * i, pos + 2 + 2 * i + 2) =~= middle.subrange(
                2 * i,
                2 * i + 2,
            ));
            lemma_be16_reads_back(bytes, pos + 2 + 2 * i, blocks[i]);
        }
        assert(spec_section_blocks(bytes, pos) =~= blocks);
        assert(bytes.subrange(pos + 8194, pos + 10242) =~= self.spec_block_light());
        assert(bytes.subrange(pos + 10242, pos + 12290) =~= self.spec_sky_light());
    }
}

/// Where section `k` of an encoded chunk starts: behind the heightmap and
/// the `k` sections before it, each of which is one marker byte 0, or one
/// marker byte 1 and a section payload. There is no such place where one of
/// those sections is cut short or malformed.
pub open spec fn spec_scan_sections(bytes: Seq<u8>, k: nat) -> Option<int>
    decreases k,
{
    if k == 0 {
        Some(1024)
    } else {
        match spec_scan_sections(bytes, (k - 1) as nat) {
            None => None,
            Some(p) => {
                if p >= bytes.len() {
                    None
                } else if bytes[p] == 0 {
                    Some(p + 1)
                } else if bytes[p] == 1 && spec_section_ok(bytes, p + 1) {
                    Some(p + 12291)
                } else {
                    None
                }
            },
        }
    }
}

/// Whether `bytes` are an encoded chunk: a heightmap, 24 sections, and a
/// biome map, and nothing else.
pub open spec fn spec_chunk_ok(bytes: Seq<u8>) -> bool {
    spec_scan_sections(bytes, 24) matches Some(end) && end + 1024 == bytes.len()
}

/// Whether `section` is what the encoded section at `p` holds: a section of
/// air under full sky behind the marker 0, and behind the marker 1 the
/// blocks and the light of the payload.
pub open spec fn spec_section_read(section: ChunkSection, bytes: Seq<u8>, p: int) -> bool {
    if bytes[p] == 0 {
        section.spec_is_empty() && section.spec_unlit()
    } else {
        &&& section.spec_blocks() == spec_section_blocks(bytes, p + 1)
        &&& section.spec_block_light() == bytes.subrange(p + 8195, p + 10243)
        &&& section.spec_sky_light() == bytes.subrange(p + 10243, p + 12291)
    }
}

/// Once a section cannot be found, none behind it can.
pub proof fn lemma_scan_sections_none(bytes: Seq<u8>, k: nat, n: nat)
    requires
        k <= n,
        spec_scan_sections(bytes, k).is_none(),
    ensures
        spec_scan_sections(bytes, n).is_none(),
    decreases n,
{
    if k < n {
        lemma_scan_sections_none(bytes, k, (n - 1) as nat);
    }
}

/// Sections start behind the heightmap and within the bytes.
pub proof fn lemma_scan_sections_bounds(bytes: Seq<u8>, k: nat)
    ensures
        spec_scan_sections(bytes, k) matches Some(p) ==> 1024 + k <= p && (k > 0 ==> p
            <= bytes.len()),
    decreases k,
{
    if k > 0 {
        lemma_scan_sections_bounds(bytes, (k - 1) as nat);
    }
}

impl Chunk {
    /// Whether the chunk holds what the encoded chunk `bytes` says: its
    /// heights, its sections and its biomes.
    pub open spec fn spec_read_from(&self, bytes: Seq<u8>) -> bool {
        &&& forall|i: int|
            0 <= i < 256 ==> #[trigger] self.heightmap@[i] == signed32(be32(bytes, 4 * i))
        &&& forall|k: int|
            0 <= k < 24 ==> spec_section_read(
                #[trigger] self.sections@[k],
                bytes,
                spec_scan_sections(bytes, k as nat)->0,
            )
        &&& forall|i: int|
            0 <= i < 256 ==> #[trigger] self.biomes@[i] == signed32(
                be32(bytes, spec_scan_sections(bytes, 24)->0 + 4 * i),
            )
    }

    /// Reads an encoded chunk, which is to stand at `position`. There is a
    /// chunk exactly where `bytes` are an encoded chunk, and it holds what
    /// they say.
    pub fn decode(position: ChunkPosition, bytes: &[u8]) -> (r: ProtocolResult<Chunk>)
        ensures
            r.is_ok() == spec_chunk_ok(bytes@),
            r matches Err(e) ==> e == ProtocolError::InvalidPacket,
            r matches Ok(chunk) ==> chunk.wf() && chunk.position == position
                && chunk.spec_read_from(bytes@),
    {
        let len = bytes.len();
        if len < 1024 {
            proof {
                lemma_scan_sections_bounds(bytes@, 24);
            }
            return Err(ProtocolError::InvalidPacket);
        }
        let mut heightmap: Vec<i32> = Vec::new();
        let mut i: usize = 0;
        while i < 256
            invariant
                i <= 256,
                1024 <= len == bytes@.len(),
                heightmap@.len() == i,
                forall|j: int|
                    0 <= j < i ==> #[trigger] heightmap@[j] == signed32(be32(bytes@, 4 * j)),
            decreases 256 - i,
        {
            let raw: u32 = match read_u32(bytes, 4 * i) {
                Ok((v, _)) => v,
                Err(e) => {
                    assert(false);
                    return Err(e);
                },
            };
            heightmap.push(to_signed32(raw));
            i = i + 1;
        }
        let mut sections: Vec<ChunkSection> = Vec::new();
        let mut pos: usize = 1024;
        let mut k: usize = 0;
        while k < SECTIONS_PER_CHUNK
            invariant
                k <= 24,
                1024 <= pos <= len == bytes@.len(),
                spec_scan_sections(bytes@, k as nat) == Some(pos as int),
                sections@.len() == k,
                forall|j: int| 0 <= j < k ==> (#[trigger] sections@[j]).wf(),
                forall|j: int|
                    0 <= j < k ==> spec_section_read(
                        #[trigger] sections@[j],
                        bytes@,
                        spec_scan_sections(bytes@, j as nat)->0,
                    ),
            decreases 24 - k,
        {
            let ghost before = sections@;
            if pos >= len {
                proof {
                    lemma_scan_sections_none(bytes@, (k + 1) as nat, 24);
                }
                return Err(ProtocolError::InvalidPacket);
            }
            let marker = bytes[pos];
            if marker == 0 {
                sections.push(ChunkSection::new());
                pos = pos + 1;
            } else if marker == 1 {
                match ChunkSection::decode(bytes, pos + 1) {
                    Some(section) => {
                        sections.push(section);
                        pos = pos + 12291;
                    },
                    None => {
                        proof {
                            lemma_scan_sections_none(bytes@, (k + 1) as nat, 24);
                        }
                        return Err(ProtocolError::InvalidPacket);
                    },
                }
            } else {
                proof {
                    lemma_scan_sections_none(bytes@, (k + 1) as nat, 24);
                }
                return Err(ProtocolError::InvalidPacket);
            }
            proof {
                assert forall|j: int| 0 <= j < k + 1 implies spec_section_read(
                    #[trigger] sections@[j],
                    bytes@,
                    spec_scan_sections(bytes@, j as nat)->0,
                ) by {
                    if j < k {
                        assert(sections@[j] == before[j]);
                    }
                }
                assert forall|j: int| 0 <= j < k + 1 implies (#[trigger] sections@[j]).wf() by {
                    if j < k {
                        assert(sections@[j] == before[j]);
                    }
                }
            }
            k = k + 1;
        }
        if len - pos != 1024 {
            return Err(ProtocolError::InvalidPacket);
        }
        let mut biomes: Vec<i32> = Vec::new();
        let mut b: usize = 0;
        while b < 256
            invariant
                b <= 256,
                pos + 1024 == len == bytes@.len(),
                biomes@.len() == b,
                forall|j: int|
                    0 <= j < b ==> #[trigger] biomes@[j] == signed32(be32(bytes@, pos + 4 * j)),
            decreases 256 - b,
        {
            let raw: u32 = match read_u32(bytes, pos + 4 * b) {
                Ok((v, _)) => v,
                Err(e) => {
                    assert(false);
                    return Err(e);
                },
            };
            biomes.push(to_signed32(raw));
            b = b + 1;
        }
        Ok(Chunk { position, sections, heightmap, biomes })
    }
}

/// The bytes of the first `k` sections are the front of the bytes of all.
pub proof fn lemma_sections_prefix(sections: Seq<ChunkSection>, k: int)
    requires
        0 <= k <= sections.len(),
    ensures
        sections_bytes(sections.take(k)).len() <= sections_bytes(sections).len(),
        sections_bytes(sections).subrange(0, sections_bytes(sections.take(k)).len() as int)
            == sections_bytes(sections.take(k)),
    decreases sections.len() - k,
{
    let all = sections_bytes(sections);
    let front = sections_bytes(sections.take(k));
    if k == sections.len() {
        assert(sections.take(k) =~= sections);
        assert(all.subrange(0, all.len() as int) =~= all);
    } else {
        lemma_sections_prefix(sections, k + 1);
        let longer = sections_bytes(sections.take(k + 1));
        assert(sections.take(k + 1).drop_last() =~= sections.take(k));
        assert(front.len() <= longer.len());
        assert forall|i: int| 0 <= i < front.len() implies all[i] == front[i] by {
            assert(all.subrange(0, longer.len() as int)[i] == all[i]);
            assert(longer[i] == front[i]);
        }
        assert(all.subrange(0, front.len() as int) =~= front);
    }
}

impl Chunk {
    /// Where section `k` starts in the bytes of the chunk.
    pub open spec fn spec_section_offset(&self, k: int) -> int {
        1024 + sections_bytes(self.sections@.take(k)).len() as int
    }

    /// Every empty section is without block light and under full sky: as an
    /// empty section is written without its light, only such a chunk can
    /// be read back as it is.
    pub open spec fn spec_plain_light(&self) -> bool {
        forall|k: int|
            0 <= k < 24 && (#[trigger] self.sections@[k]).spec_is_empty()
                ==> self.sections@[k].spec_unlit()
    }

    /// In the bytes of a chunk the sections are found where they were
    /// written.
    pub proof fn lemma_scan_of_encoding(&self, k: nat)
        requires
            self.wf(),
            k <= 24,
        ensures
            spec_scan_sections(self.spec_encode(), k) == Some(self.spec_section_offset(k as int)),
            self.spec_section_offset(k as int) <= 1024 + sections_bytes(self.sections@).len(),
        decreases k,
    {
        let bytes = self.spec_encode();
        let all = sections_bytes(self.sections@);
        lemma_ints_bytes_len(self.heightmap@);
        lemma_sections_prefix(self.sections@, k as int);
        if k == 0 {
            assert(self.sections@.take(0) =~= Seq::empty());
        } else {
            self.lemma_scan_of_encoding((k - 1) as nat);
            lemma_sections_prefix(self.sections@, k - 1);
            let section = self.sections@[k - 1];
            let before = sections_bytes(self.sections@.take(k - 1));
            let upto = sections_bytes(self.sections@.take(k as int));
            assert(self.sections@.take(k as int).drop_last() =~= self.sections@.take(k - 1));
            assert(self.sections@.take(k as int).last() == section);
            let p: int = 1024 + before.len() as int;
            assert forall|i: int| 0 <= i < upto.len() implies bytes[1024 + i] == upto[i] by {
                assert(all.subrange(0, upto.len() as int)[i] == all[i]);
            }
            assert(section.wf());
            if section.spec_is_empty() {
                assert(upto == before + seq![0u8]);
                assert(bytes[p] == upto[before.len() as int]);
            } else {
                let payload = section.spec_encode();
                lemma_blocks_bytes_len(section.spec_blocks());
                assert(payload.len() == 12290);
                assert(upto == before + seq![1u8] + payload);
                assert(bytes[p] == upto[before.len() as int]);
                assert forall|i: int| 0 <= i < 12290 implies bytes[p + 1 + i] == payload[i] by {
                    assert(bytes[1024 + (before.len() + 1 + i)] == upto[before.len() + 1 + i]);
                }
                assert(bytes.subrange(p + 1, p + 1 + 12290) =~= payload);
                section.lemma_round_trip(bytes, p + 1);
            }
        }
    }

    /// A chunk that is written and read back is the same chunk: where an
    /// empty section carries no light of its own, the bytes of the chunk are
    /// an encoded chunk, and a chunk that holds what they say has the
    /// heights, the biomes, the blocks and the light of the chunk.
    pub proof fn lemma_round_trip(&self, read: &Chunk)
        requires
            self.wf(),
            self.spec_plain_light(),
            read.wf(),
            read.spec_read_from(self.spec_encode()),
        ensures
            spec_chunk_ok(self.spec_encode()),
            read.heightmap@ == self.heightmap@,
            read.biomes@ == self.biomes@,
            forall|k: int|
                0 <= k < 24 ==> (#[trigger] read.sections@[k]).spec_blocks()
                    == self.sections@[k].spec_blocks() && read.sections@[k].spec_block_light()
                    == self.sections@[k].spec_block_light() && read.sections@[k].spec_sky_light()
                    == self.sections@[k].spec_sky_light(),
    {
        let bytes = self.spec_encode();
        let heights = ints_bytes(self.heightmap@);
        let all = sections_bytes(self.sections@);
        let biomes = ints_bytes(self.biomes@);
        lemma_ints_bytes_len(self.heightmap@);
        lemma_ints_bytes_len(self.biomes@);
        self.lemma_scan_of_encoding(24);
        assert(self.sections@.take(24) =~= self.sections@);
        let end: int = 1024 + all.len() as int;
        assert(bytes.len() == end + 1024);
        assert forall|i: int| 0 <= i < 256 implies read.heightmap@[i] == self.heightmap@[i] by {
            lemma_ints_bytes_at(self.heightmap@, i);
            assert(bytes.subrange(4 * i, 4 * i + 4) =~= heights.subrange(4 * i, 4 * i + 4));
            lemma_be32_reads_back(bytes, 4 * i, self.heightmap@[i]);
        }
        assert(read.heightmap@ =~= self.heightmap@);
        assert forall|i: int| 0 <= i < 256 implies read.biomes@[i] == self.biomes@[i] by {
            lemma_ints_bytes_at(self.biomes@, i);
            assert(bytes.subrange(end + 4 * i, end + 4 * i + 4) =~= biomes.subrange(
                4 * i,
                4 * i + 4,
            ));
            lemma_be32_reads_back(bytes, end + 4 * i, self.biomes@[i]);
        }
        assert(read.biomes@ =~= self.biomes@);
        assert forall|k: int| 0 <= k < 24 implies (#[trigger] read.sections@[k]).spec_blocks()
            == self.sections@[k].spec_blocks() && read.sections@[k].spec_block_light()
            == self.sections@[k].spec_block_light() && read.sections@[k].spec_sky_light()
            == self.sections@[k].spec_sky_light() by {
            let mine = self.sections@[k];
            let theirs = read.sections@[k];
            self.lemma_scan_of_encoding(k as nat);
            self.lemma_scan_of_encoding((k + 1) as nat);
            lemma_scan_sections_bounds(bytes, (k + 1) as nat);
            let p = self.spec_section_offset(k);
            assert(spec_section_read(theirs, bytes, p));
            assert(mine.wf() && theirs.wf());
            assert(self.sections@.take(k + 1).drop_last() =~= self.sections@.take(k));
            assert(self.sections@.take(k + 1).last() == mine);
            let before = sections_bytes(self.sections@.take(k));
            let upto = sections_bytes(self.sections@.take(k + 1));
            lemma_sections_prefix(self.sections@, k + 1);
            assert(bytes[p] == upto[before.len() as int]) by {
                assert(all.subrange(0, upto.len() as int)[before.len() as int]
                    == all[before.len() as int]);
            }
            if mine.spec_is_empty() {
                assert(upto == before + seq![0u8]);
                assert(theirs.spec_blocks() =~= mine.spec_blocks());
                assert(theirs.spec_block_light() =~= mine.spec_block_light());
                assert(theirs.spec_sky_light() =~= mine.spec_sky_light());
            } else {
                let payload = mine.spec_encode();
                lemma_blocks_bytes_len(mine.spec_blocks());
                assert(upto == before + seq![1u8] + payload);
                assert forall|i: int| 0 <= i < 12290 implies bytes[p + 1 + i] == payload[i] by {
                    assert(all.subrange(0, upto.len() as int)[before.len() + 1 + i]
                        == all[before.len() + 1 + i]);
                }
                assert(bytes.subrange(p + 1, p + 1 + 12290) =~= payload);
                mine.lemma_round_trip(bytes, p + 1);
            }
        }
    }
}

} // verus!
