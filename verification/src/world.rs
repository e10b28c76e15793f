//! The world: chunks of blocks, kept by chunk coordinate, and the questions
//! that movement asks of it.

use crate::position::{BlockPos, Point};
use std::collections::{HashMap, HashSet};
use vstd::prelude::*;

verus! {

/// What a block is to a walking player.
#[derive(Clone, Copy, Debug, PartialEq, Eq, Structural, Hash)]
pub enum BlockKind {
    /// Nothing to collide with and nothing that hurts.
    Air,
    /// A full block that can be stood on.
    Solid,
    Lava,
    Fire,
    Cactus,
}

impl BlockKind {
    pub open spec fn solid(self) -> bool {
        self == BlockKind::Solid
    }

    /// Lava, fire and cactus hurt whoever enters them.
    pub open spec fn hazardous(self) -> bool {
        self == BlockKind::Lava || self == BlockKind::Fire || self == BlockKind::Cactus
    }

    /// A block may be occupied when it is neither solid nor hazardous.
    pub open spec fn passable(self) -> bool {
        !self.solid() && !self.hazardous()
    }

    pub fn is_solid(&self) -> (r: bool)
        ensures
            r == self.solid(),
    {
        matches!(self, BlockKind::Solid)
    }

    pub fn is_hazardous(&self) -> (r: bool)
        ensures
            r == self.hazardous(),
    {
        matches!(self, BlockKind::Lava | BlockKind::Fire | BlockKind::Cactus)
    }

    pub fn is_passable(&self) -> (r: bool)
        ensures
            r == self.passable(),
    {
        matches!(self, BlockKind::Air)
    }

    spec fn ordinal(self) -> int {
        match self {
            BlockKind::Air => 0,
            BlockKind::Solid => 1,
            BlockKind::Lava => 2,
            BlockKind::Fire => 3,
            BlockKind::Cactus => 4,
        }
    }
}

/// Blocks in a section.
pub const SECTION_VOLUME: usize = 4096;

/// A cube of 16 blocks a side. Each block is an index into the section's
/// palette, which lists every kind once.
#[derive(Clone, Debug)]
pub struct Section {
    palette: Vec<BlockKind>,
    states: Vec<u16>,
}

/// The place of a block in its section's array, from coordinates inside the
/// section.
pub open spec fn section_index(lx: int, ly: int, lz: int) -> int {
    (ly * 16 + lz) * 16 + lx
}

impl Section {
    /// The array holds 4096 indices, each of them below the palette's length,
    /// and the palette lists no kind twice.
    pub closed spec fn wf(self) -> bool {
        &&& self.states@.len() == 4096
        &&& 1 <= self.palette@.len()
        &&& forall|i: int| 0 <= i < 4096 ==> (#[trigger] self.states@[i]) < self.palette@.len()
        &&& forall|i: int, j: int|
            0 <= i < j < self.palette@.len() ==> self.palette@[i] != self.palette@[j]
    }

    /// The kind of the block at place `i` of the array.
    pub closed spec fn kind(self, i: int) -> BlockKind {
        self.palette@[self.states@[i] as int]
    }

    /// How many kinds the palette lists.
    pub closed spec fn palette_size(self) -> nat {
        self.palette@.len()
    }

    /// The palette index stored for the block at place `i`.
    pub closed spec fn state_at(self, i: int) -> nat {
        self.states@[i] as nat
    }

    pub fn palette_len(&self) -> (n: usize)
        requires
            self.wf(),
        ensures
            n == self.palette_size(),
            1 <= n <= 5,
    {
        proof {
            self.lemma_palette_is_short();
        }
        self.palette.len()
    }

    /// The palette index stored for the block at place `i`. It never reaches
    /// the palette's length.
    pub fn state(&self, i: usize) -> (s: u16)
        requires
            self.wf(),
            i < 4096,
        ensures
            s == self.state_at(i as int),
            s < self.palette_size(),
    {
        self.states[i]
    }

    /// A section of air.
    pub fn new() -> (s: Section)
        ensures
            s.wf(),
            forall|i: int| 0 <= i < 4096 ==> s.kind(i) == BlockKind::Air,
    {
        let mut palette: Vec<BlockKind> = Vec::new();
        palette.push(BlockKind::Air);
        let mut states: Vec<u16> = Vec::new();
        let mut n: usize = 0;
        while n < SECTION_VOLUME
            invariant
                n <= 4096,
                states@.len() == n,
                forall|i: int| 0 <= i < n ==> states@[i] == 0,
            decreases 4096 - n,
        {
            states.push(0);
            n += 1;
        }
        Section { palette, states }
    }

    pub fn get(&self, i: usize) -> (kind: BlockKind)
        requires
            self.wf(),
            i < 4096,
        ensures
            kind == self.kind(i as int),
    {
        self.palette[self.states[i] as usize]
    }

    proof fn lemma_palette_is_short(self)
        requires
            self.wf(),
        ensures
            self.palette@.len() <= 5,
    {
        if self.palette@.len() >= 6 {
            let o = |i: int| self.palette@[i].ordinal();
            assert(0 <= o(0) < 5 && 0 <= o(1) < 5 && 0 <= o(2) < 5 && 0 <= o(3) < 5 && 0 <= o(4) < 5
                && 0 <= o(5) < 5);
            assert(self.palette@[0] != self.palette@[1]);
            assert(self.palette@[0] != self.palette@[2]);
            assert(self.palette@[0] != self.palette@[3]);
            assert(self.palette@[0] != self.palette@[4]);
            assert(self.palette@[0] != self.palette@[5]);
            assert(self.palette@[1] != self.palette@[2]);
            assert(self.palette@[1] != self.palette@[3]);
            assert(self.palette@[1] != self.palette@[4]);
            assert(self.palette@[1] != self.palette@[5]);
            assert(self.palette@[2] != self.palette@[3]);
            assert(self.palette@[2] != self.palette@[4]);
            assert(self.palette@[2] != self.palette@[5]);
            assert(self.palette@[3] != self.palette@[4]);
            assert(self.palette@[3] != self.palette@[5]);
            assert(self.palette@[4] != self.palette@[5]);
            assert(false);
        }
    }

    /// The place of `kind` in the palette, which gets a new entry where it
    /// does not list `kind` yet.
    fn palette_index(palette: &mut Vec<BlockKind>, kind: BlockKind) -> (at: u16)
        requires
            old(palette)@.len() <= 5,
            forall|i: int, j: int|
                0 <= i < j < old(palette)@.len() ==> old(palette)@[i] != old(palette)@[j],
        ensures
            at < final(palette)@.len(),
            final(palette)@[at as int] == kind,
            old(palette)@.len() <= final(palette)@.len(),
            forall|i: int| 0 <= i < old(palette)@.len() ==> final(palette)@[i] == old(palette)@[i],
            forall|i: int, j: int|
                0 <= i < j < final(palette)@.len() ==> final(palette)@[i] != final(palette)@[j],
    {
        let mut i: usize = 0;
        while i < palette.len()
            invariant
                i <= palette@.len() <= 5,
                palette@ == old(palette)@,
                forall|k: int| 0 <= k < i ==> palette@[k] != kind,
                forall|a: int, b: int| 0 <= a < b < palette@.len() ==> palette@[a] != palette@[b],
            decreases palette@.len() - i,
        {
            if palette[i] == kind {
                return i as u16;
            }
            i += 1;
        }
        palette.push(kind);
        i as u16
    }

    /// Puts `kind` at place `i` and leaves every other block as it was.
    pub fn set(&mut self, i: usize, kind: BlockKind)
        requires
            old(self).wf(),
            i < 4096,
        ensures
            final(self).wf(),
            final(self).kind(i as int) == kind,
            forall|j: int| 0 <= j < 4096 && j != i ==> final(self).kind(j) == old(self).kind(j),
    {
        proof {
            self.lemma_palette_is_short();
        }
        let at: u16 = Section::palette_index(&mut self.palette, kind);
        self.states[i] = at;
    }
}

/// The sections of one column of the world, lowest first.
#[derive(Clone, Debug)]
pub struct Chunk {
    sections: Vec<Section>,
}

impl Chunk {
    /// The chunk holds `count` sections, each of them well formed.
    pub closed spec fn wf(self, count: nat) -> bool {
        &&& self.sections@.len() == count
        &&& forall|i: int| 0 <= i < count ==> (#[trigger] self.sections@[i]).wf()
    }

    /// The kind of the block at height `ry` above the chunk's floor, at
    /// `lx`, `lz` inside the chunk.
    pub closed spec fn kind(self, lx: int, ry: int, lz: int) -> BlockKind {
        self.sections@[ry / 16].kind(section_index(lx, ry % 16, lz))
    }

    /// A chunk of `count` sections of air.
    pub fn new(count: u16) -> (chunk: Chunk)
        ensures
            chunk.wf(count as nat),
            forall|lx: int, ry: int, lz: int|
                0 <= lx < 16 && 0 <= lz < 16 && 0 <= ry < 16 * count ==> #[trigger] chunk.kind(
                    lx,
                    ry,
                    lz,
                ) == BlockKind::Air,
    {
        let mut sections: Vec<Section> = Vec::new();
        let mut n: u16 = 0;
        while n < count
            invariant
                n <= count,
                sections@.len() == n,
                forall|i: int| 0 <= i < n ==> (#[trigger] sections@[i]).wf(),
                forall|i: int, k: int|
                    0 <= i < n && 0 <= k < 4096 ==> (#[trigger] sections@[i].kind(k))
                        == BlockKind::Air,
            decreases count - n,
        {
            sections.push(Section::new());
            n += 1;
        }
        let chunk = Chunk { sections };
        assert forall|lx: int, ry: int, lz: int|
            0 <= lx < 16 && 0 <= lz < 16 && 0 <= ry < 16 * count implies #[trigger] chunk.kind(
            lx,
            ry,
            lz,
        ) == BlockKind::Air by {
            assert(0 <= section_index(lx, ry % 16, lz) < 4096);
            assert(chunk.sections@[ry / 16].kind(section_index(lx, ry % 16, lz)) == BlockKind::Air);
        }
        chunk
    }

    pub fn get(&self, lx: usize, ry: usize, lz: usize, count: u16) -> (kind: BlockKind)
        requires
            self.wf(count as nat),
            lx < 16,
            lz < 16,
            ry < 16 * count,
        ensures
            kind == self.kind(lx as int, ry as int, lz as int),
    {
        self.sections[ry / 16].get(((ry % 16) * 16 + lz) * 16 + lx)
    }

    /// Puts `kind` at one place and leaves every other block as it was.
    pub fn set(&mut self, lx: usize, ry: usize, lz: usize, kind: BlockKind, count: u16)
        requires
            old(self).wf(count as nat),
            lx < 16,
            lz < 16,
            ry < 16 * count,
        ensures
            final(self).wf(count as nat),
            final(self).kind(lx as int, ry as int, lz as int) == kind,
            forall|x: int, y: int, z: int|
                0 <= x < 16 && 0 <= z < 16 && 0 <= y < 16 * count && !(x == lx && y == ry && z
                    == lz) ==> #[trigger] final(self).kind(x, y, z) == old(self).kind(x, y, z),
    {
        let si: usize = ry / 16;
        let i: usize = ((ry % 16) * 16 + lz) * 16 + lx;
        let mut section: Section = self.sections.remove(si);
        section.set(i, kind);
        self.sections.insert(si, section);
        assert forall|x: int, y: int, z: int|
            0 <= x < 16 && 0 <= z < 16 && 0 <= y < 16 * count && !(x == lx && y == ry && z
                == lz) implies #[trigger] self.kind(x, y, z) == old(self).kind(x, y, z) by {
            let k = section_index(x, y % 16, z);
            assert(0 <= k < 4096);
            if y / 16 == si as int {
                assert(k != i);
            }
        }
    }
}

/// Lowest and highest chunk coordinate: sixteen blocks to a chunk.
pub open spec fn chunk_coordinate_in_range(c: int) -> bool {
    -0x800_0000 <= c < 0x800_0000
}

/// The key under which the chunk at `cx`, `cz` is kept. No two chunk
/// coordinates share a key.
pub open spec fn chunk_key(cx: int, cz: int) -> u64 {
    ((cx + 0x800_0000) * 0x1000_0000 + (cz + 0x800_0000)) as u64
}

/// A world: chunks by chunk coordinate, each as high as the world is.
#[derive(Clone, Debug)]
pub struct Instance {
    chunks: HashMap<u64, Chunk>,
    min_y: i32,
    section_count: u16,
}

impl Instance {
    /// Every chunk that the world holds has the world's height.
    pub closed spec fn wf(self) -> bool {
        &&& self.min_y + 16 * self.section_count <= i32::MAX
        &&& forall|key: u64| #[trigger]
            self.chunks@.contains_key(key) ==> self.chunks@[key].wf(self.section_count as nat)
    }

    /// The height of the lowest layer of blocks.
    pub closed spec fn floor(self) -> int {
        self.min_y as int
    }

    /// The number of layers of blocks.
    pub closed spec fn height(self) -> int {
        16 * self.section_count
    }

    /// Whether the world holds the chunk at `cx`, `cz`.
    pub closed spec fn has_chunk(self, cx: int, cz: int) -> bool {
        chunk_coordinate_in_range(cx) && chunk_coordinate_in_range(cz) && self.chunks@.contains_key(
            chunk_key(cx, cz),
        )
    }

    /// Whether the world knows the block at `p`: its chunk is held and its
    /// height lies between floor and ceiling.
    pub open spec fn knows(self, p: Point) -> bool {
        &&& self.has_chunk(p.x / 16, p.z / 16)
        &&& self.floor() <= p.y < self.floor() + self.height()
    }

    /// The kind of the block at `p`, where the world knows it.
    pub closed spec fn kind_at(self, p: Point) -> Option<BlockKind> {
        if self.knows(p) {
            Some(self.chunks@[chunk_key(p.x / 16, p.z / 16)].kind(p.x % 16, p.y - self.min_y, p.z % 16))
        } else {
            None
        }
    }

    /// Whether a full block lies at `p`. A block that the world does not
    /// know counts as neither solid nor passable.
    pub open spec fn solid_at(self, p: Point) -> bool {
        self.kind_at(p).is_some() && self.kind_at(p).unwrap().solid()
    }

    /// Whether the block at `p` can be occupied.
    pub open spec fn passable_at(self, p: Point) -> bool {
        self.kind_at(p).is_some() && self.kind_at(p).unwrap().passable()
    }

    /// Whether the two blocks above `p` can be occupied, so that a player
    /// fits on top of `p`.
    pub open spec fn clear_above(self, p: Point) -> bool {
        self.passable_at(p.up(1)) && self.passable_at(p.up(2))
    }

    /// Whether a player can stand on the block at `p`: the block is solid
    /// and the two blocks above it are passable.
    pub open spec fn standable_at(self, p: Point) -> bool {
        self.solid_at(p) && self.clear_above(p)
    }

    /// How many passable blocks lie in a row from `p` downwards, `p` itself
    /// counted: the number of blocks that a player who steps onto the
    /// column of `p` at the height of `p` falls.
    pub open spec fn drop_at(self, p: Point) -> nat
        decreases p.y - self.floor() + 1,
    {
        if p.y >= self.floor() && self.passable_at(p) {
            1 + self.drop_at(p.down(1))
        } else {
            0
        }
    }

    /// A world without chunks, whose lowest layer is at `min_y` and which is
    /// `section_count` sections high.
    pub fn new(min_y: i32, section_count: u16) -> (world: Instance)
        requires
            min_y + 16 * section_count <= i32::MAX,
        ensures
            world.wf(),
            world.floor() == min_y,
            world.height() == 16 * section_count,
            forall|p: Point| world.kind_at(p).is_none(),
            forall|cx: int, cz: int| !world.has_chunk(cx, cz),
    {
        Instance { chunks: HashMap::new(), min_y, section_count }
    }

    /// Adds a chunk of air at `cx`, `cz`, in place of the chunk that may be
    /// there. Chunk coordinates outside the range that block positions can
    /// reach are refused and leave the world as it was.
    pub fn insert_chunk(&mut self, cx: i32, cz: i32) -> (added: bool)
        requires
            old(self).wf(),
        ensures
            final(self).wf(),
            final(self).floor() == old(self).floor(),
            final(self).height() == old(self).height(),
            added == (chunk_coordinate_in_range(cx as int) && chunk_coordinate_in_range(cz as int)),
            forall|x: int, z: int|
                final(self).has_chunk(x, z) == (old(self).has_chunk(x, z) || (added && x == cx && z
                    == cz)),
            forall|p: Point| #[trigger]
                final(self).kind_at(p) == if added && p.x / 16 == cx && p.z / 16 == cz
                    && final(self).knows(p) {
                    Some(BlockKind::Air)
                } else {
                    old(self).kind_at(p)
                },
    {
        if cx < -0x800_0000 || cx >= 0x800_0000 || cz < -0x800_0000 || cz >= 0x800_0000 {
            return false;
        }
        let key: u64 = ((cx as i64 + 0x800_0000) * 0x1000_0000 + (cz as i64 + 0x800_0000)) as u64;
        let chunk = Chunk::new(self.section_count);
        self.chunks.insert(key, chunk);
        proof {
            lemma_chunk_key_is_injective();
            assert forall|p: Point| #[trigger]
                self.kind_at(p) == if p.x / 16 == cx && p.z / 16 == cz && self.knows(p) {
                    Some(BlockKind::Air)
                } else {
                    old(self).kind_at(p)
                } by {
                if p.x / 16 == cx && p.z / 16 == cz && self.knows(p) {
                    assert(chunk.kind(p.x % 16, p.y - self.min_y, p.z % 16) == BlockKind::Air);
                }
            }
        }
        true
    }

    /// Whether the world holds the chunk at `cx`, `cz`.
    pub fn contains_chunk(&self, cx: i32, cz: i32) -> (held: bool)
        requires
            self.wf(),
        ensures
            held == self.has_chunk(cx as int, cz as int),
    {
        if cx < -0x800_0000 || cx >= 0x800_0000 || cz < -0x800_0000 || cz >= 0x800_0000 {
            return false;
        }
        let key: u64 = ((cx as i64 + 0x800_0000) * 0x1000_0000 + (cz as i64 + 0x800_0000)) as u64;
        self.chunks.contains_key(&key)
    }

    /// The kind of the block at `pos`, or `None` where the world does not
    /// know it.
    pub fn get_block_state(&self, pos: &BlockPos) -> (kind: Option<BlockKind>)
        requires
            self.wf(),
        ensures
            kind == self.kind_at(pos@),
    {
        let (cx, lx) = split_coordinate(pos.x);
        let (cz, lz) = split_coordinate(pos.z);
        let key: u64 = ((cx + 0x800_0000) * 0x1000_0000 + (cz + 0x800_0000)) as u64;
        let ry: i64 = pos.y as i64 - self.min_y as i64;
        if ry < 0 || ry >= 16 * (self.section_count as i64) {
            return None;
        }
        match self.chunks.get(&key) {
            None => None,
            Some(chunk) => Some(chunk.get(lx, ry as usize, lz, self.section_count)),
        }
    }

    /// Puts `kind` at `pos` and returns the kind that was there. Where the
    /// world does not know the block, nothing changes and `None` is
    /// returned.
    pub fn set_block_state(&mut self, pos: &BlockPos, kind: BlockKind) -> (before: Option<
        BlockKind,
    >)
        requires
            old(self).wf(),
        ensures
            final(self).wf(),
            final(self).floor() == old(self).floor(),
            final(self).height() == old(self).height(),
            before == old(self).kind_at(pos@),
            forall|x: int, z: int| final(self).has_chunk(x, z) == old(self).has_chunk(x, z),
            forall|p: Point| #[trigger]
                final(self).kind_at(p) == if p == pos@ && before.is_some() {
                    Some(kind)
                } else {
                    old(self).kind_at(p)
                },
    {
        let (cx, lx) = split_coordinate(pos.x);
        let (cz, lz) = split_coordinate(pos.z);
        let key: u64 = ((cx + 0x800_0000) * 0x1000_0000 + (cz + 0x800_0000)) as u64;
        let ry: i64 = pos.y as i64 - self.min_y as i64;
        if ry < 0 || ry >= 16 * (self.section_count as i64) {
            return None;
        }
        match self.chunks.remove(&key) {
            None => None,
            Some(chunk) => {
                let mut chunk = chunk;
                let before = chunk.get(lx, ry as usize, lz, self.section_count);
                chunk.set(lx, ry as usize, lz, kind, self.section_count);
                self.chunks.insert(key, chunk);
                proof {
                    lemma_chunk_key_is_injective();
                    assert(self.chunks@.dom() =~= old(self).chunks@.dom());
                    assert forall|p: Point| #[trigger]
                        self.kind_at(p) == if p == pos@ {
                            Some(kind)
                        } else {
                            old(self).kind_at(p)
                        } by {
                        if self.knows(p) && p != pos@ && p.x / 16 == cx && p.z / 16 == cz {
                            assert(chunk.kind(p.x % 16, p.y - self.min_y, p.z % 16) == old(
                                self,
                            ).chunks@[key].kind(p.x % 16, p.y - self.min_y, p.z % 16));
                        }
                    }
                }
                Some(before)
            },
        }
    }

    /// Whether a full block lies at `pos`.
    pub fn is_block_solid(&self, pos: &BlockPos) -> (r: bool)
        requires
            self.wf(),
        ensures
            r == self.solid_at(pos@),
    {
        match self.get_block_state(pos) {
            Some(kind) => kind.is_solid(),
            None => false,
        }
    }

    /// Whether the block at `pos` can be occupied.
    pub fn is_block_passable(&self, pos: &BlockPos) -> (r: bool)
        requires
            self.wf(),
        ensures
            r == self.passable_at(pos@),
    {
        match self.get_block_state(pos) {
            Some(kind) => kind.is_passable(),
            None => false,
        }
    }

    /// Whether the block `dy` above `pos` can be occupied.
    fn is_passable_above(&self, pos: &BlockPos, dy: i32) -> (r: bool)
        requires
            self.wf(),
        ensures
            r == self.passable_at(pos@.up(dy as int)),
    {
        proof {
            if self.kind_at(pos@.up(dy as int)).is_some() {
                lemma_known_is_representable(*self, pos@.up(dy as int));
            }
        }
        match pos.offset(0, dy, 0) {
            Some(above) => self.is_block_passable(&above),
            None => false,
        }
    }

    /// Whether the two blocks above `pos` can be occupied.
    pub fn is_passable(&self, pos: &BlockPos) -> (r: bool)
        requires
            self.wf(),
        ensures
            r == self.clear_above(pos@),
    {
        self.is_passable_above(pos, 1) && self.is_passable_above(pos, 2)
    }

    /// Whether a player can stand on the block at `pos`.
    pub fn is_standable(&self, pos: &BlockPos) -> (r: bool)
        requires
            self.wf(),
        ensures
            r == self.standable_at(pos@),
    {
        self.is_block_solid(pos) && self.is_passable(pos)
    }

    /// How many passable blocks lie in a row from `pos` downwards, `pos`
    /// itself counted.
    pub fn fall_distance(&self, pos: &BlockPos) -> (d: u32)
        requires
            self.wf(),
        ensures
            d == self.drop_at(pos@),
    {
        let mut d: u32 = 0;
        let mut cur: BlockPos = *pos;
        while cur.y >= self.min_y && self.is_block_passable(&cur)
            invariant
                self.wf(),
                cur.x == pos.x,
                cur.z == pos.z,
                cur.y == pos.y - d,
                self.drop_at(pos@) == d + self.drop_at(cur@),
                d > 0 ==> pos.y < self.min_y + 16 * self.section_count,
            decreases cur.y - self.min_y + 1,
        {
            proof {
                assert(self.knows(cur@));
            }
            if cur.y == i32::MIN {
                proof {
                    assert(self.drop_at(cur@) == 1 + self.drop_at(cur@.down(1)));
                    assert(self.drop_at(cur@.down(1)) == 0);
                }
                return d + 1;
            }
            proof {
                assert(cur@.down(1) == (BlockPos { x: cur.x, y: (cur.y - 1) as i32, z: cur.z })@);
            }
            d = d + 1;
            cur = BlockPos { x: cur.x, y: cur.y - 1, z: cur.z };
        }
        d
    }

    /// How many blocks the world knows: those of every chunk that it holds.
    pub closed spec fn blocks(self) -> nat {
        (self.chunks@.dom().len() * (256 * (16 * self.section_count))) as nat
    }

    /// How many blocks the world knows.
    pub fn block_count(&self) -> (count: u128)
        ensures
            count == self.blocks(),
    {
        let chunks: u128 = self.chunks.len() as u128;
        let each: u128 = 256 * (16 * (self.section_count as u128));
        proof {
            assert(chunks * each <= 0xffff_ffff_ffff_ffff * 0x1000_0000) by (nonlinear_arith)
                requires
                    chunks <= 0xffff_ffff_ffff_ffff,
                    each <= 0x1000_0000,
            ;
        }
        chunks * each
    }

    pub fn min_y(&self) -> (y: i32)
        ensures
            y == self.floor(),
    {
        self.min_y
    }

    /// The number of layers of blocks.
    pub fn world_height(&self) -> (h: u32)
        ensures
            h == self.height(),
    {
        16 * (self.section_count as u32)
    }
}

/// The chunks that one client was sent. Clients in one world share its
/// blocks; what each of them was sent is its own.
#[derive(Debug)]
pub struct PartialInstance {
    received: HashSet<u64>,
}

impl PartialInstance {
    /// Whether the client was sent the chunk at `cx`, `cz`.
    pub closed spec fn has(self, cx: int, cz: int) -> bool {
        chunk_coordinate_in_range(cx) && chunk_coordinate_in_range(cz) && self.received@.contains(
            chunk_key(cx, cz),
        )
    }

    /// Every chunk that the client was sent is a chunk of the world.
    pub open spec fn within(self, world: Instance) -> bool {
        forall|cx: int, cz: int| #[trigger] self.has(cx, cz) ==> world.has_chunk(cx, cz)
    }

    /// The view of a client that was sent nothing yet.
    pub fn new() -> (partial: PartialInstance)
        ensures
            forall|cx: int, cz: int| !partial.has(cx, cz),
    {
        PartialInstance { received: HashSet::new() }
    }

    /// Whether the client was sent the chunk at `cx`, `cz`.
    pub fn contains(&self, cx: i32, cz: i32) -> (held: bool)
        ensures
            held == self.has(cx as int, cz as int),
    {
        if cx < -0x800_0000 || cx >= 0x800_0000 || cz < -0x800_0000 || cz >= 0x800_0000 {
            return false;
        }
        let key: u64 = ((cx as i64 + 0x800_0000) * 0x1000_0000 + (cz as i64 + 0x800_0000)) as u64;
        self.received.contains(&key)
    }

    /// Notes that the client was sent the chunk at `cx`, `cz`. A chunk that
    /// the world does not hold yet is added to it, full of air; a chunk that
    /// another client brought stays as it is. Chunk coordinates out of
    /// range are refused.
    pub fn receive_chunk(&mut self, world: &mut Instance, cx: i32, cz: i32) -> (received: bool)
        requires
            old(world).wf(),
            old(self).within(*old(world)),
        ensures
            final(world).wf(),
            final(self).within(*final(world)),
            final(world).floor() == old(world).floor(),
            final(world).height() == old(world).height(),
            received == (chunk_coordinate_in_range(cx as int) && chunk_coordinate_in_range(
                cz as int,
            )),
            forall|x: int, z: int|
                final(self).has(x, z) == (old(self).has(x, z) || (received && x == cx && z == cz)),
            forall|x: int, z: int|
                final(world).has_chunk(x, z) == (old(world).has_chunk(x, z) || (received && x == cx
                    && z == cz)),
            forall|p: Point| #[trigger]
                final(world).kind_at(p) == if received && !old(world).has_chunk(cx as int, cz as int)
                    && p.x / 16 == cx && p.z / 16 == cz && final(world).knows(p) {
                    Some(BlockKind::Air)
                } else {
                    old(world).kind_at(p)
                },
    {
        if cx < -0x800_0000 || cx >= 0x800_0000 || cz < -0x800_0000 || cz >= 0x800_0000 {
            return false;
        }
        if !world.contains_chunk(cx, cz) {
            world.insert_chunk(cx, cz);
        }
        let key: u64 = ((cx as i64 + 0x800_0000) * 0x1000_0000 + (cz as i64 + 0x800_0000)) as u64;
        self.received.insert(key);
        proof {
            lemma_chunk_key_is_injective();
            assert forall|x: int, z: int|
                self.has(x, z) == (old(self).has(x, z) || (x == cx && z == cz)) by {
                if chunk_coordinate_in_range(x) && chunk_coordinate_in_range(z) {
                    assert(chunk_key(x, z) == key <==> (x == cx && z == cz));
                }
            }
            assert forall|x: int, z: int| #[trigger] self.has(x, z) implies world.has_chunk(
                x,
                z,
            ) by {
                if !(x == cx && z == cz) {
                    assert(old(self).has(x, z));
                }
            }
        }
        true
    }
}

/// Splits a block coordinate into the coordinate of its chunk and the place
/// inside the chunk.
fn split_coordinate(v: i32) -> (parts: (i64, usize))
    ensures
        parts.0 == v as int / 16,
        parts.1 == v as int % 16,
        chunk_coordinate_in_range(parts.0 as int),
{
    let chunk: i64 = if v >= 0 {
        (v / 16) as i64
    } else {
        ((v + 1) / 16 - 1) as i64
    };
    let inside: i64 = v as i64 - 16 * chunk;
    (chunk, inside as usize)
}

/// Chunk coordinates in range that share a key are the same.
proof fn lemma_chunk_key_is_injective()
    ensures
        forall|ax: int, az: int, bx: int, bz: int|
            chunk_coordinate_in_range(ax) && chunk_coordinate_in_range(az)
                && chunk_coordinate_in_range(bx) && chunk_coordinate_in_range(bz) && #[trigger] chunk_key(
                ax,
                az,
            ) == #[trigger] chunk_key(bx, bz) ==> ax == bx && az == bz,
{
}

/// A block that the world knows has coordinates that fit `i32`.
pub proof fn lemma_known_is_representable(world: Instance, p: Point)
    requires
        world.wf(),
        world.kind_at(p).is_some(),
    ensures
        p.representable(),
{
    assert(world.knows(p));
    assert(chunk_coordinate_in_range(p.x / 16));
    assert(chunk_coordinate_in_range(p.z / 16));
}

/// The key of the chunk that holds `p`.
spec fn point_key(p: Point) -> u64 {
    chunk_key(p.x / 16, p.z / 16)
}

/// The place of `p` among the blocks of its chunk, counted from `floor`.
spec fn point_local(floor: int, p: Point) -> int {
    ((p.y - floor) * 16 + p.z % 16) * 16 + p.x % 16
}

/// Whether `p` lies in a chunk with a key in `keys`, between `floor` and
/// `height` above it.
spec fn point_within(keys: Set<u64>, floor: int, height: int, p: Point) -> bool {
    &&& keys.contains(point_key(p))
    &&& chunk_coordinate_in_range(p.x / 16)
    &&& chunk_coordinate_in_range(p.z / 16)
    &&& floor <= p.y < floor + height
}

/// Points in chunks: no more points lie in the chunks with the keys `keys`
/// than the chunks have blocks.
proof fn lemma_points_by_chunk(points: Set<Point>, keys: Set<u64>, floor: int, height: int)
    requires
        points.finite(),
        keys.finite(),
        0 <= height,
        forall|p: Point| points.contains(p) ==> point_within(keys, floor, height, p),
    ensures
        points.len() <= keys.len() * (256 * height),
    decreases keys.len(),
{
    if keys.len() == 0 {
        assert(keys =~= Set::<u64>::empty());
        if points.len() > 0 {
            let p = points.choose();
            vstd::set::axiom_set_choose_len(points);
            assert(points.contains(p));
            assert(point_within(keys, floor, height, p));
        }
        assert(keys.len() * (256 * height) == 0) by (nonlinear_arith)
            requires
                keys.len() == 0,
        ;
    } else {
        let k = keys.choose();
        let here = points.filter(|p: Point| point_key(p) == k);
        let there = points.filter(|p: Point| point_key(p) != k);
        vstd::set_lib::lemma_len_subset(here, points);
        vstd::set_lib::lemma_len_subset(there, points);
        // the points of one chunk are as many as their places in the chunk
        let local = |p: Point| point_local(floor, p);
        let places = here.map(local);
        assert(vstd::relations::injective_on(local, here)) by {
            lemma_chunk_key_is_injective();
            assert forall|p: Point, q: Point|
                here.contains(p) && here.contains(q) && #[trigger] local(p) == #[trigger] local(
                    q,
                ) implies p == q by {
                assert(point_within(keys, floor, height, p));
                assert(point_within(keys, floor, height, q));
                assert(chunk_key(p.x / 16, p.z / 16) == chunk_key(q.x / 16, q.z / 16));
                assert(p.x / 16 == q.x / 16 && p.z / 16 == q.z / 16);
                assert(point_local(floor, p) == point_local(floor, q));
                assert(p.x % 16 == q.x % 16 && p.z % 16 == q.z % 16 && p.y == q.y);
            }
        }
        vstd::set_lib::lemma_map_size(here, places, local);
        vstd::set_lib::lemma_int_range(0, 256 * height);
        assert(places.subset_of(vstd::set_lib::set_int_range(0, 256 * height))) by {
            assert forall|c: int| places.contains(c) implies vstd::set_lib::set_int_range(
                0,
                256 * height,
            ).contains(c) by {
                let p = choose|p: Point| here.contains(p) && local(p) == c;
                assert(point_within(keys, floor, height, p));
            }
        }
        vstd::set_lib::lemma_len_subset(places, vstd::set_lib::set_int_range(0, 256 * height));
        // the other points lie in the other chunks
        assert forall|p: Point| there.contains(p) implies point_within(
            keys.remove(k),
            floor,
            height,
            p,
        ) by {
            assert(point_within(keys, floor, height, p));
        }
        lemma_points_by_chunk(there, keys.remove(k), floor, height);
        assert(points =~= here.union(there));
        vstd::set_lib::lemma_len_union(here, there);
        assert((keys.len() - 1) * (256 * height) + 256 * height == keys.len() * (256 * height))
            by (nonlinear_arith);
    }
}

/// A world is finite: a finite set of points whose blocks the world knows
/// has no more members than the world has blocks.
pub proof fn lemma_known_points_are_few(world: Instance, points: Set<Point>)
    requires
        world.wf(),
        points.finite(),
        forall|p: Point| points.contains(p) ==> world.kind_at(p).is_some(),
    ensures
        points.len() <= world.blocks(),
{
    let keys = world.chunks@.dom();
    assert forall|p: Point| points.contains(p) implies point_within(
        keys,
        world.floor(),
        world.height(),
        p,
    ) by {
        assert(world.kind_at(p).is_some());
        assert(world.knows(p));
    }
    lemma_points_by_chunk(points, keys, world.floor(), world.height());
}

} // verus!
