//! The overlapping-window diffusion world: voxel rules over sampled columns.
//!
//! A field outside gives each column a ground height and real-valued climate; what
//! the rules read of it arrives here as plain facts about the column.
use vstd::prelude::*;

use crate::block::BlockId;
use crate::world::chunk::{
    lemma_uniform_is_cheapest, local_of_spec, Chunk, ChunkData, CHUNK_VOLUME,
};
use crate::world::generation::{
    cell_hash, cell_hash_spec, column_in_world, layer_in_world, ColumnHeights, CHUNK_COLUMNS,
};
use crate::world::placement::{hit, hit_from, Resolved, SurfaceKind};

verus! {

/// Sea level in blocks.
pub const SEA: i32 = 20;

/// Ground this far above the sea is snowy.
pub const SNOW_ABOVE: i32 = 55;

/// No cave is this deep or deeper.
pub const CAVE_FLOOR: i32 = 48;

/// The largest distance of ground from zero.
pub const HEIGHT_LIMIT: i32 = 0x1000_0000;

/// What the field says of a column.
#[derive(Clone, Copy, PartialEq, Eq, Debug, Structural)]
pub struct Col {
    /// The lowest cell that is not ground.
    pub height: i32,
    /// Water fills up to here.
    pub water: i32,
    /// Cold enough for snow.
    pub cold: bool,
    /// Hot and dry enough for desert.
    pub arid: bool,
    /// Caves run below this column.
    pub caves: bool,
}

/// Terrain over the overlapping-window field.
pub struct DiffusionTerrain {
    pub seed: i64,
    pub sea: i32,
    pub mat: Resolved,
}

impl DiffusionTerrain {
    /// Whether the terrain can fill columns.
    pub open spec fn wf(self) -> bool {
        &&& self.sea == SEA
        &&& self.mat.max_scattered_depth <= HEIGHT_LIMIT
    }

    /// Terrain over a resolved placement table.
    pub fn new(mat: Resolved, seed: i64) -> (g: DiffusionTerrain)
        ensures
            g.seed == seed,
            g.sea == SEA,
            g.mat == mat,
    {
        DiffusionTerrain { seed, sea: SEA, mat }
    }

    /// Whether the column's numbers are in range.
    pub open spec fn in_range(self, c: Col) -> bool {
        &&& -HEIGHT_LIMIT <= c.height <= HEIGHT_LIMIT
        &&& self.sea <= c.water <= HEIGHT_LIMIT + 3
    }

    /// The column over ground of a height: a lake stands three blocks over its
    /// ground, elsewhere water fills to the sea.
    pub fn column(&self, height: i32, lake: bool, cold: bool, arid: bool, caves: bool) -> (c: Col)
        requires
            self.sea == SEA,
            -HEIGHT_LIMIT <= height <= HEIGHT_LIMIT,
        ensures
            c == (Col {
                height,
                water: (if lake {
                    (if height > self.sea {
                        height as int
                    } else {
                        self.sea as int
                    }) + 3
                } else {
                    self.sea as int
                }) as i32,
                cold,
                arid,
                caves,
            }),
            self.in_range(c),
    {
        let water: i32 = if lake {
            (if height > self.sea {
                height
            } else {
                self.sea
            }) + 3
        } else {
            self.sea
        };
        Col { height, water, cold, arid, caves }
    }

    /// How the top of a column is dressed.
    pub open spec fn kind_spec(self, c: Col) -> SurfaceKind {
        if c.height <= c.water {
            SurfaceKind::Shore
        } else if c.cold || c.height - self.sea > SNOW_ABOVE {
            SurfaceKind::Snowy
        } else if c.arid {
            SurfaceKind::Desert
        } else {
            SurfaceKind::Grassy
        }
    }

    /// The block on top of a column.
    pub open spec fn dress_spec(self, c: Col) -> BlockId {
        self.mat.dress@[self.kind_spec(c).index_spec() as int]
    }

    /// The block on top of a column.
    pub fn dress(&self, c: &Col) -> (id: BlockId)
        requires
            self.in_range(*c),
            self.sea == SEA,
        ensures
            id == self.dress_spec(*c),
    {
        let kind = if c.height <= c.water {
            SurfaceKind::Shore
        } else if c.cold || c.height - self.sea > SNOW_ABOVE {
            SurfaceKind::Snowy
        } else if c.arid {
            SurfaceKind::Desert
        } else {
            SurfaceKind::Grassy
        };
        self.mat.dress[kind.index()]
    }

    /// Whether a cave runs through a cell: more than 8 and less than 48 below the
    /// ground of a column with caves.
    pub open spec fn carved_spec(self, c: Col, wy: i32) -> bool {
        c.caves && 8 < c.height - wy < CAVE_FLOOR
    }

    /// Whether a cave runs through a cell.
    pub fn carved(&self, c: &Col, wy: i32) -> (b: bool)
        requires
            i32::MIN <= c.height - wy <= i32::MAX,
        ensures
            b == self.carved_spec(*c, wy),
    {
        let depth: i32 = c.height - wy;
        depth > 8 && depth < CAVE_FLOOR && c.caves
    }

    /// The block of a cell of a column.
    pub open spec fn cell_spec(self, c: Col, wx: i32, wy: i32, wz: i32) -> BlockId {
        if wy >= c.height {
            if wy < c.water {
                self.mat.water
            } else {
                BlockId::air_spec()
            }
        } else if wy >= c.height - 1 {
            self.dress_spec(c)
        } else if wy >= c.height - 3 {
            self.mat.crust@[0]
        } else if self.carved_spec(c, wy) {
            BlockId::air_spec()
        } else {
            let depth = c.height - wy;
            if depth <= self.mat.max_scattered_depth {
                match hit_from(
                    self.mat.ores.seams@,
                    depth as i32,
                    cell_hash_spec(self.seed, wx, wy, wz),
                    0,
                ) {
                    Some(i) => self.mat.ores.seams@[i as int].id,
                    None => self.mat.stone,
                }
            } else {
                self.mat.stone
            }
        }
    }

    /// The block of a cell of a column: dress and crust over stone with caves and
    /// ores, water above, nothing over it.
    pub fn cell(&self, c: &Col, wx: i32, wy: i32, wz: i32) -> (id: BlockId)
        requires
            self.sea == SEA,
            self.in_range(*c),
            c.height - wy <= i32::MAX,
        ensures
            id == self.cell_spec(*c, wx, wy, wz),
    {
        if wy < c.height {
            if wy >= c.height - 1 {
                self.dress(c)
            } else if wy >= c.height - 3 {
                self.mat.crust[0]
            } else if self.carved(c, wy) {
                BlockId::air()
            } else {
                let depth: i32 = c.height - wy;
                if depth <= self.mat.max_scattered_depth {
                    let roll: u32 = cell_hash(self.seed, wx, wy, wz);
                    match hit(&self.mat.ores.seams, depth, roll) {
                        Some(i) => {
                            return self.mat.ores.seams[i].id;
                        },
                        None => {},
                    }
                }
                self.mat.stone
            }
        } else if wy < c.water {
            self.mat.water
        } else {
            BlockId::air()
        }
    }

    /// The block in cell `i` of a chunk over the given columns.
    pub open spec fn chunk_cell(self, cols: Seq<Col>, c: (i32, i32, i32), i: int) -> BlockId {
        let (lx, ly, lz) = local_of_spec(i);
        self.cell_spec(
            cols[lx + lz * 16],
            (c.0 * 16 + lx) as i32,
            (c.1 * 16 + ly) as i32,
            (c.2 * 16 + lz) as i32,
        )
    }

    /// The contents of a chunk over the given columns.
    pub open spec fn chunk_spec(self, cols: Seq<Col>, c: (i32, i32, i32)) -> Seq<BlockId> {
        Seq::new(CHUNK_VOLUME as nat, |i: int| self.chunk_cell(cols, c, i))
    }

    fn fill(
        &self,
        cx: i32,
        cy: i32,
        cz: i32,
        cols: &[Col; CHUNK_COLUMNS],
        max_top: i32,
        min_h: i32,
    ) -> (data: ChunkData)
        requires
            self.wf(),
            column_in_world(cx, cz),
            layer_in_world(cy),
            -HEIGHT_LIMIT <= min_h,
            forall|k: int|
                0 <= k < CHUNK_COLUMNS ==> self.in_range(#[trigger] cols@[k]) && min_h
                    <= cols@[k].height <= max_top && cols@[k].water <= max_top,
        ensures
            data.cheapest(self.chunk_spec(cols@, (cx, cy, cz))),
    {
        let y0: i32 = cy * 16;
        let ghost want = self.chunk_spec(cols@, (cx, cy, cz));
        let reach: i32 = if self.mat.max_scattered_depth > CAVE_FLOOR {
            self.mat.max_scattered_depth
        } else {
            CAVE_FLOOR
        };
        assert(cols@[0].height >= min_h);
        let deep_cut: i32 = min_h - reach;
        if y0 >= max_top {
            let data = ChunkData::Uniform(BlockId::air());
            assert forall|i: int| 0 <= i < CHUNK_VOLUME implies want[i] == BlockId::air_spec() by {
                let (lx, ly, lz) = local_of_spec(i);
                assert(cols@[lx + lz * 16].height <= max_top);
            }
            assert(data@ =~= want);
            proof {
                lemma_uniform_is_cheapest(data, want);
            }
            return data;
        }
        if y0 as i64 + 16 <= deep_cut as i64 {
            let data = ChunkData::Uniform(self.mat.stone);
            assert forall|i: int| 0 <= i < CHUNK_VOLUME implies want[i] == self.mat.stone by {
                let (lx, ly, lz) = local_of_spec(i);
                assert(cols@[lx + lz * 16].height >= min_h);
            }
            assert(data@ =~= want);
            proof {
                lemma_uniform_is_cheapest(data, want);
            }
            return data;
        }
        let mut cells: Box<[BlockId; CHUNK_VOLUME]> = Box::new([BlockId::air();CHUNK_VOLUME]);
        let mut i: usize = 0;
        while i < CHUNK_VOLUME
            invariant
                i <= CHUNK_VOLUME,
                self.wf(),
                column_in_world(cx, cz),
                layer_in_world(cy),
                y0 == cy * 16,
                -HEIGHT_LIMIT <= min_h,
                y0 + 16 > min_h - (if self.mat.max_scattered_depth > CAVE_FLOOR {
                    self.mat.max_scattered_depth as int
                } else {
                    CAVE_FLOOR as int
                }),
                forall|k: int|
                    0 <= k < CHUNK_COLUMNS ==> self.in_range(#[trigger] cols@[k]) && min_h
                        <= cols@[k].height,
                want == self.chunk_spec(cols@, (cx, cy, cz)),
                forall|j: int| 0 <= j < i ==> (#[trigger] cells@[j]) == want[j],
            decreases CHUNK_VOLUME - i,
        {
            let (lx, ly, lz) = Chunk::local_of(i);
            let wx: i32 = cx * 16 + lx as i32;
            let wy: i32 = y0 + ly as i32;
            let wz: i32 = cz * 16 + lz as i32;
            let c: Col = cols[lx + lz * 16];
            let id = self.cell(&c, wx, wy, wz);
            cells[i] = id;
            i = i + 1;
        }
        assert(cells@ =~= want);
        ChunkData::from_cells(cells)
    }

    /// The chunks of a vertical run, bottom first, and the ground heights of their
    /// column, over its 256 sampled columns.
    pub fn generate_column(
        &self,
        cx: i32,
        cz: i32,
        low: i32,
        high: i32,
        cols: &[Col; CHUNK_COLUMNS],
    ) -> (r: (Vec<(i32, ChunkData)>, ColumnHeights))
        requires
            self.wf(),
            column_in_world(cx, cz),
            low <= high ==> layer_in_world(low) && layer_in_world(high),
            forall|k: int| 0 <= k < CHUNK_COLUMNS ==> self.in_range(#[trigger] cols@[k]),
        ensures
            forall|k: int| 0 <= k < CHUNK_COLUMNS ==> (#[trigger] r.1@[k]) == cols@[k].height,
            r.0@.len() == (if low <= high {
                high - low + 1
            } else {
                0
            }),
            forall|k: int|
                0 <= k < r.0@.len() ==> (#[trigger] r.0@[k]).0 == low + k && r.0@[k].1.cheapest(
                    self.chunk_spec(cols@, (cx, r.0@[k].0, cz)),
                ),
    {
        let mut heights: ColumnHeights = [0i32;CHUNK_COLUMNS];
        let mut max_top: i32 = i32::MIN;
        let mut min_h: i32 = i32::MAX;
        let mut k: usize = 0;
        while k < CHUNK_COLUMNS
            invariant
                k <= CHUNK_COLUMNS,
                -HEIGHT_LIMIT <= min_h,
                forall|j: int| 0 <= j < CHUNK_COLUMNS ==> self.in_range(#[trigger] cols@[j]),
                forall|j: int|
                    0 <= j < k ==> min_h <= (#[trigger] cols@[j]).height && cols@[j].height <= max_top
                        && cols@[j].water <= max_top,
                forall|j: int| 0 <= j < k ==> (#[trigger] heights@[j]) == cols@[j].height,
            decreases CHUNK_COLUMNS - k,
        {
            let c: Col = cols[k];
            heights[k] = c.height;
            if c.height > max_top {
                max_top = c.height;
            }
            if c.water > max_top {
                max_top = c.water;
            }
            if c.height < min_h {
                min_h = c.height;
            }
            k = k + 1;
        }
        let mut chunks: Vec<(i32, ChunkData)> = Vec::new();
        if low <= high {
            let mut cy: i32 = low;
            while cy <= high
                invariant
                    low <= high,
                    low <= cy <= high + 1,
                    self.wf(),
                    column_in_world(cx, cz),
                    layer_in_world(low),
                    layer_in_world(high),
                    -HEIGHT_LIMIT <= min_h,
                    forall|k: int|
                        0 <= k < CHUNK_COLUMNS ==> self.in_range(#[trigger] cols@[k]) && min_h
                            <= cols@[k].height <= max_top && cols@[k].water <= max_top,
                    chunks@.len() == cy - low,
                    forall|k: int|
                        0 <= k < chunks@.len() ==> (#[trigger] chunks@[k]).0 == low + k
                            && chunks@[k].1.cheapest(
                            self.chunk_spec(cols@, (cx, chunks@[k].0, cz)),
                        ),
                decreases high + 1 - cy,
            {
                let data = self.fill(cx, cy, cz, cols, max_top, min_h);
                chunks.push((cy, data));
                cy = cy + 1;
            }
        }
        (chunks, heights)
    }

    /// One chunk over its 256 sampled columns.
    pub fn generate(&self, cx: i32, cy: i32, cz: i32, cols: &[Col; CHUNK_COLUMNS]) -> (data:
        ChunkData)
        requires
            self.wf(),
            column_in_world(cx, cz),
            layer_in_world(cy),
            forall|k: int| 0 <= k < CHUNK_COLUMNS ==> self.in_range(#[trigger] cols@[k]),
        ensures
            data.cheapest(self.chunk_spec(cols@, (cx, cy, cz))),
    {
        let (mut chunks, _) = self.generate_column(cx, cz, cy, cy, cols);
        assert(chunks@[0].0 == cy);
        match chunks.pop() {
            Some((_, data)) => data,
            None => ChunkData::Uniform(BlockId::air()),
        }
    }

    /// What a far tile shows of a column: stone up to a coarse height, then sea.
    pub open spec fn lod_spec(self, coarse_height: i32, wy: i32) -> BlockId {
        if wy < coarse_height {
            self.mat.stone
        } else if wy < self.sea {
            self.mat.water
        } else {
            BlockId::air_spec()
        }
    }

    /// What a far tile shows of a column: stone up to a coarse height, then sea.
    pub fn lod_block(&self, coarse_height: i32, wy: i32) -> (id: BlockId)
        ensures
            id == self.lod_spec(coarse_height, wy),
    {
        if wy < coarse_height {
            self.mat.stone
        } else if wy < self.sea {
            self.mat.water
        } else {
            BlockId::air()
        }
    }
}

/// Near and far terrain flood to the same sea: over ground below it the near cell
/// right under sea level is water and the one above is empty, and the far tile
/// leaves no gap below and floods nothing above.
pub proof fn lemma_same_sea(g: DiffusionTerrain, c: Col, wx: i32, wz: i32, coarse: i32)
    requires
        g.wf(),
        c.water == g.sea,
        c.height < g.sea,
    ensures
        g.cell_spec(c, wx, (g.sea - 1) as i32, wz) == g.mat.water,
        g.cell_spec(c, wx, g.sea, wz) == BlockId::air_spec(),
        g.lod_spec(coarse, (g.sea - 1) as i32) == g.mat.water || g.lod_spec(
            coarse,
            (g.sea - 1) as i32,
        ) == g.mat.stone,
        g.lod_spec(coarse, g.sea) == BlockId::air_spec() || g.lod_spec(coarse, g.sea)
            == g.mat.stone,
{
}

/// A column from the top down: nothing above ground and water, water over low ground, the
/// dress, two cells of soil, then hollow from nine to forty-seven deep where caves run, and
/// stone with ores elsewhere.
pub proof fn lemma_column_layers(g: DiffusionTerrain, c: Col, x: i32, y: i32, z: i32)
    requires
        -0x1000_0000 <= c.height <= 0x1000_0000,
        -0x1000_0000 <= y <= 0x1000_0000,
    ensures
        ({
            let id = g.cell_spec(c, x, y, z);
            let deep = c.height - y;
            &&& deep <= 0 && y >= c.water ==> id == BlockId(0)
            &&& deep <= 0 && y < c.water ==> id == g.mat.water
            &&& deep == 1 ==> id == g.mat.dress@[g.kind_spec(c).index_spec() as int]
            &&& deep == 2 || deep == 3 ==> id == g.mat.crust@[SurfaceKind::Grassy.index_spec() as int]
            &&& c.caves && 9 <= deep <= 47 ==> id == BlockId(0)
            &&& deep > 3 && !(c.caves && 9 <= deep <= 47) && deep > g.mat.max_scattered_depth
                ==> id == g.mat.stone
            &&& deep > 3 && !(c.caves && 9 <= deep <= 47) && id != g.mat.stone ==> exists|k: int|
                0 <= k < g.mat.ores.seams@.len() && (#[trigger] g.mat.ores.seams@[k]).id == id
                    && g.mat.ores.seams@[k].min_depth <= deep
        }),
{
    let deep = c.height - y;
    if deep > 3 && deep <= g.mat.max_scattered_depth {
        assert(g.mat.ores.seams@.len() == g.mat.ores.seams.len());
        crate::world::placement::lemma_roll_hits_its_slice(
            g.mat.ores.seams@,
            deep as i32,
            cell_hash_spec(g.seed, x, y, z),
        );
        match hit_from(g.mat.ores.seams@, deep as i32, cell_hash_spec(g.seed, x, y, z), 0) {
            Some(k) => {
                assert(g.mat.ores.seams@[k as int].min_depth <= deep);
            },
            None => {},
        }
    }
}

/// How the top of a column looks: shore exactly at or under its water; over it snow where it
/// is cold or more than 55 over the sea, else desert where it is arid, else grass.
pub proof fn lemma_surface_by_place(g: DiffusionTerrain, c: Col)
    ensures
        ({
            let k = g.kind_spec(c);
            let frozen = c.cold || c.height - g.sea > 55;
            &&& k == SurfaceKind::Shore <==> c.height <= c.water
            &&& k == SurfaceKind::Snowy <==> c.height > c.water && frozen
            &&& k == SurfaceKind::Desert <==> c.height > c.water && !frozen && c.arid
            &&& k == SurfaceKind::Grassy <==> c.height > c.water && !frozen && !c.arid
        }),
{
}

/// Far tiles keep the silhouette: stone up to the coarse height, then the sea.
pub proof fn lemma_far_silhouette(g: DiffusionTerrain, coarse: i32, y: i32)
    ensures
        y < coarse ==> g.lod_spec(coarse, y) == g.mat.stone,
        coarse <= y < g.sea ==> g.lod_spec(coarse, y) == g.mat.water,
        y >= coarse && y >= g.sea ==> g.lod_spec(coarse, y) == BlockId(0),
{
}

/// A chunk holds at every cell what the world has at the cell's place: sixteen cells to a
/// chunk along each axis, and the column that stands there.
pub proof fn lemma_chunk_is_its_place(
    rules: DiffusionTerrain,
    cols: Seq<Col>,
    c: (i32, i32, i32),
    x: i32,
    y: i32,
    z: i32,
)
    requires
        16 * c.0 <= x < 16 * c.0 + 16,
        16 * c.1 <= y < 16 * c.1 + 16,
        16 * c.2 <= z < 16 * c.2 + 16,
    ensures
        rules.chunk_spec(cols, c)[(x - 16 * c.0) + 16 * (z - 16 * c.2) + 256 * (y - 16 * c.1)]
            == rules.cell_spec(cols[(x - 16 * c.0) + 16 * (z - 16 * c.2)], x, y, z),
{
    let (lx, ly, lz) = (x - 16 * c.0, y - 16 * c.1, z - 16 * c.2);
    let i = lx + 16 * lz + 256 * ly;
    assert(i % 16 == lx && (i / 16) % 16 == lz && i / 256 == ly);
    assert((i % 256) % 16 == lx && (i % 256) / 16 == lz);
    assert(local_of_spec(i) == (lx, ly, lz));
}

} // verus!
