//! The classic generator: the rules of the terrain over its noise.
use vstd::prelude::*;

use crate::block::BlockId;
use crate::world::chunk::{local_of_spec, ChunkData, CHUNK_VOLUME};
use crate::world::generation::{
    column_heights, column_in_world, generated, is_generated, ColumnHeights, TerrainGenerator,
    CHUNK_COLUMNS,
};
use crate::world::sampled::{answered, ask, asked, lemma_answered, samples};
use crate::world::terrain::{
    hears, is_noise, y_in_reach, Column, NoiseFn, Probe, Terrain, HEIGHT_LIMIT,
};
use crate::world::terrain_fill::{
    chunk_spec, claims_hold, column_x, column_z, island_free, layer_in_reach, layer_quiet,
};

verus! {

/// What the noise says of a column.
#[derive(Clone, Copy, PartialEq, Eq, Debug, Structural)]
pub struct Profile {
    /// The height of the ground.
    pub ground: i32,
    /// Water fills up to here: the sea, or a lake's surface.
    pub water_level: i32,
    pub cold: bool,
    /// Hot and dry.
    pub arid: bool,
}

impl Profile {
    /// Whether the numbers are in range.
    pub open spec fn in_range(self) -> bool {
        &&& self.ground <= HEIGHT_LIMIT
        &&& -HEIGHT_LIMIT <= self.water_level <= HEIGHT_LIMIT
    }
}

/// A cell's local coordinates give the place of its column.
proof fn lemma_column_of(cx: i32, cz: i32, i: int)
    requires
        0 <= i < CHUNK_VOLUME,
    ensures
        local_of_spec(i).1 == i / 256,
        column_x(cx, i % 256) == (cx * 16 + local_of_spec(i).0) as i32,
        column_z(cz, i % 256) == (cz * 16 + local_of_spec(i).2) as i32,
{
}

/// What is known of a chunk without looking at its cells.
#[derive(Clone, Copy, PartialEq, Eq, Debug, Structural)]
pub struct Hint {
    /// Nothing is carved in it.
    pub quiet: bool,
    /// No island reaches into it.
    pub clear: bool,
}

/// The column that a profile makes.
pub open spec fn shaped(rules: Terrain, p: Profile, x: i32, z: i32) -> Column {
    rules.column_spec(p.ground, p.water_level, p.cold, p.arid, x, z)
}

/// The profile of every column.
pub type ProfileFn = spec_fn(i32, i32) -> Profile;

/// The columns of a chunk column.
pub open spec fn shaped_columns(
    rules: Terrain,
    profile: ProfileFn,
    cx: i32,
    cz: i32,
) -> Seq<Column> {
    Seq::new(
        CHUNK_COLUMNS as nat,
        |k: int|
            shaped(
                rules,
                profile(column_x(cx, k), column_z(cz, k)),
                column_x(cx, k),
                column_z(cz, k),
            ),
    )
}

/// Whether whatever hints claim holds.
pub open spec fn hints_hold<H: Fn(i32, i32, i32) -> Hint>(
    rules: Terrain,
    profile: ProfileFn,
    noise: NoiseFn,
    hint: H,
) -> bool {
    forall|cx: i32, cy: i32, cz: i32, h: Hint| #[trigger]
        call_ensures(hint, (cx, cy, cz), h) ==> {
            &&& h.quiet ==> layer_quiet(
                noise,
                cx,
                cz,
                shaped_columns(rules, profile, cx, cz),
                cy as int,
            )
            &&& h.clear ==> island_free(noise, cx, cy, cz)
        }
}

/// Whether a world's profiles are sampled, its noise is heard, and whatever hints claim
/// of it holds.
pub open spec fn describes<
    P: Fn(i32, i32) -> Profile,
    N: Fn(Probe, i32, i32, i32, i32) -> bool,
    H: Fn(i32, i32, i32) -> Hint,
>(rules: Terrain, profile: P, noise: N, hint: H, world: (ProfileFn, NoiseFn)) -> bool {
    &&& samples::<Profile, P>(profile, world.0)
    &&& hears(noise, world.1)
    &&& hints_hold(rules, world.0, world.1, hint)
}

/// Whether the three describe a world, and answer for all of it.
pub open spec fn is_world<
    P: Fn(i32, i32) -> Profile,
    N: Fn(Probe, i32, i32, i32, i32) -> bool,
    H: Fn(i32, i32, i32) -> Hint,
>(rules: Terrain, profile: P, noise: N, hint: H) -> bool {
    &&& forall|x: i32, z: i32| #[trigger] call_requires(profile, (x, z))
    &&& is_noise(noise)
    &&& forall|cx: i32, cy: i32, cz: i32| #[trigger] call_requires(hint, (cx, cy, cz))
    &&& exists|world: (ProfileFn, NoiseFn)| #[trigger] describes(rules, profile, noise, hint, world)
}

/// The classic terrain: its rules, the profile of every column, the noise that says
/// where caves, shelves and islands are, and hints that spare work.
pub struct ClassicGenerator<
    P: Fn(i32, i32) -> Profile,
    N: Fn(Probe, i32, i32, i32, i32) -> bool,
    H: Fn(i32, i32, i32) -> Hint,
> {
    rules: Terrain,
    profile: P,
    noise: N,
    hint: H,
}

impl<
    P: Fn(i32, i32) -> Profile,
    N: Fn(Probe, i32, i32, i32, i32) -> bool,
    H: Fn(i32, i32, i32) -> Hint,
> ClassicGenerator<P, N, H> {
    pub closed spec fn rules_spec(self) -> Terrain {
        self.rules
    }

    /// The sampler of profiles.
    pub closed spec fn profiler(self) -> P {
        self.profile
    }

    /// The noise.
    pub closed spec fn noise_of(self) -> N {
        self.noise
    }

    /// The hints.
    pub closed spec fn hint_of(self) -> H {
        self.hint
    }

    /// A world that the generator describes.
    pub open spec fn world(self) -> (ProfileFn, NoiseFn) {
        choose|world: (ProfileFn, NoiseFn)| #[trigger] self.is_of(world)
    }

    /// What the noise says.
    pub open spec fn noise_spec(self) -> NoiseFn {
        self.world().1
    }

    /// The profile of a column.
    pub open spec fn profile_of(self, x: i32, z: i32) -> Profile {
        self.world().0(x, z)
    }

    /// The column at a place.
    pub open spec fn col(self, x: i32, z: i32) -> Column {
        shaped(self.rules_spec(), self.profile_of(x, z), x, z)
    }

    /// A generator over the profile of columns, noise and hints.
    pub fn new(rules: Terrain, profile: P, noise: N, hint: H) -> (g: Self)
        requires
            rules.wf(),
            is_world(rules, profile, noise, hint),
            forall|x: i32, z: i32, p: Profile| #[trigger]
                call_ensures(profile, (x, z), p) ==> p.in_range(),
        ensures
            g.ready(),
            forall|y: i32|
                y_in_reach(y - 1) && y_in_reach(y + 20) ==> #[trigger] g.reaches(y),
            g.rules_spec() == rules,
            g.profiler() == profile,
            g.noise_of() == noise,
            g.hint_of() == hint,
    {
        ClassicGenerator { rules, profile, noise, hint }
    }

    /// Whether the generator describes a world.
    pub open spec fn is_of(self, world: (ProfileFn, NoiseFn)) -> bool {
        describes(self.rules_spec(), self.profiler(), self.noise_of(), self.hint_of(), world)
    }

    /// A generator that is ready describes its world.
    pub proof fn lemma_world(&self)
        requires
            self.ready(),
        ensures
            self.is_of(self.world()),
            samples::<Profile, P>(self.profiler(), self.world().0),
            hears(self.noise_of(), self.noise_spec()),
    {
        let world = choose|world: (ProfileFn, NoiseFn)| #[trigger]
            describes(self.rules, self.profile, self.noise, self.hint, world);
        assert(self.is_of(world));
    }

    /// The column at a place.
    pub fn column(&self, wx: i32, wz: i32) -> (c: Column)
        requires
            self.ready(),
        ensures
            c == self.col(wx, wz),
            c.in_range(),
            answered::<Profile, P>(self.profiler(), self.world().0, wx, wz),
    {
        proof {
            self.lemma_world();
        }
        let p: Profile = ask(&self.profile, wx, wz);
        self.rules.column(p.ground, p.water_level, p.cold, p.arid, wx, wz)
    }

    /// The columns of a chunk column.
    fn columns(&self, cx: i32, cz: i32) -> (cols: [Column; CHUNK_COLUMNS])
        requires
            self.ready(),
            column_in_world(cx, cz),
        ensures
            forall|k: int|
                0 <= k < CHUNK_COLUMNS ==> (#[trigger] cols@[k]) == self.col(
                    column_x(cx, k),
                    column_z(cz, k),
                ) && cols@[k].in_range(),
            forall|k: int|
                0 <= k < CHUNK_COLUMNS ==> #[trigger] asked::<Profile, P>(
                    self.profiler(),
                    self.world().0,
                    cx,
                    cz,
                    k,
                ),
    {
        let first = self.column(cx * 16, cz * 16);
        let mut cols: [Column; CHUNK_COLUMNS] = [first;CHUNK_COLUMNS];
        let mut k: usize = 0;
        while k < CHUNK_COLUMNS
            invariant
                k <= CHUNK_COLUMNS,
                self.ready(),
                column_in_world(cx, cz),
                forall|j: int|
                    0 <= j < k ==> (#[trigger] cols@[j]) == self.col(
                        column_x(cx, j),
                        column_z(cz, j),
                    ) && cols@[j].in_range(),
                forall|j: int|
                    0 <= j < k ==> #[trigger] asked::<Profile, P>(
                        self.profiler(),
                        self.world().0,
                        cx,
                        cz,
                        j,
                    ),
            decreases CHUNK_COLUMNS - k,
        {
            let c = self.column(cx * 16 + (k % 16) as i32, cz * 16 + (k / 16) as i32);
            cols[k] = c;
            k = k + 1;
        }
        cols
    }

    /// The hints for a run of layers: which are quiet, and which clear of islands.
    fn hints(&self, cx: i32, cz: i32, low: i32, high: i32) -> (r: (Vec<bool>, Vec<bool>))
        requires
            self.ready(),
            i32::MIN < low <= high < i32::MAX,
        ensures
            r.0@.len() == high - low + 1,
            r.1@.len() == high - low + 1,
            forall|world: (ProfileFn, NoiseFn), j: int|
                #![trigger self.is_of(world), r.0@[j]]
                self.is_of(world) && 0 <= j < r.0@.len() && r.0@[j] ==> layer_quiet(
                    world.1,
                    cx,
                    cz,
                    shaped_columns(self.rules_spec(), world.0, cx, cz),
                    low + j,
                ),
            forall|world: (ProfileFn, NoiseFn), j: int|
                #![trigger self.is_of(world), r.1@[j]]
                self.is_of(world) && 0 <= j < r.1@.len() && r.1@[j] ==> island_free(
                    world.1,
                    cx,
                    (low + j) as i32,
                    cz,
                ),
    {
        let mut quiet: Vec<bool> = Vec::new();
        let mut clear: Vec<bool> = Vec::new();
        let mut cy: i32 = low;
        while cy <= high
            invariant
                self.ready(),
                i32::MIN < low <= high < i32::MAX,
                low <= cy <= high + 1,
                quiet@.len() == cy - low,
                clear@.len() == cy - low,
                forall|world: (ProfileFn, NoiseFn), j: int|
                    #![trigger self.is_of(world), quiet@[j]]
                    self.is_of(world) && 0 <= j < quiet@.len() && quiet@[j] ==> layer_quiet(
                        world.1,
                        cx,
                        cz,
                        shaped_columns(self.rules_spec(), world.0, cx, cz),
                        low + j,
                    ),
                forall|world: (ProfileFn, NoiseFn), j: int|
                    #![trigger self.is_of(world), clear@[j]]
                    self.is_of(world) && 0 <= j < clear@.len() && clear@[j] ==> island_free(
                        world.1,
                        cx,
                        (low + j) as i32,
                        cz,
                    ),
            decreases high + 1 - cy,
        {
            let hint = &self.hint;
            let h: Hint = hint(cx, cy, cz);
            assert(call_ensures(*hint, (cx, cy, cz), h));
            quiet.push(h.quiet);
            clear.push(h.clear);
            cy = cy + 1;
        }
        (quiet, clear)
    }

    /// What the generator answers, over its columns.
    pub proof fn lemma_answers(&self)
        ensures
            forall|y: i32| #[trigger] self.reaches(y) <==> y_in_reach(y - 1) && y_in_reach(y + 20),
            forall|x: i32, z: i32| #[trigger] self.height_spec(x, z) == self.col(x, z).height,
            forall|x: i32, z: i32| #[trigger] self.surface_spec(x, z) == self.col(x, z).dress,
            self.deep_spec() == self.rules_spec().mat.stone,
            forall|x: i32, y: i32, z: i32, h: i32| #[trigger]
                self.block_spec(x, y, z, h) == self.rules_spec().cell_spec(
                    self.noise_spec(),
                    self.col(x, z),
                    x,
                    y,
                    z,
                    true,
                ),
            forall|x: i32, y: i32, z: i32| #[trigger]
                self.lod_spec(x, y, z) == self.rules_spec().cell_spec(
                    self.noise_spec(),
                    self.col(x, z),
                    x,
                    y,
                    z,
                    false,
                ),
    {
    }

    /// A cell of a chunk that is filled from its columns.
    #[verifier::spinoff_prover]
    proof fn lemma_cell(&self, cols: Seq<Column>, c: (i32, i32, i32), i: int)
        requires
            0 <= i < CHUNK_VOLUME,
            forall|k: int|
                0 <= k < CHUNK_COLUMNS ==> #[trigger] cols[k] == self.col(
                    column_x(c.0, k),
                    column_z(c.2, k),
                ),
        ensures
            chunk_spec(self.rules_spec(), self.noise_spec(), cols, c)[i] == generated(
                |x: i32, z: i32| self.height_spec(x, z),
                |x: i32, y: i32, z: i32, h: i32| self.block_spec(x, y, z, h),
                c,
                i,
            ),
    {
        lemma_column_of(c.0, c.2, i);
        let (lx, ly, lz) = local_of_spec(i);
        assert(cols[i % 256] == self.col((c.0 * 16 + lx) as i32, (c.2 * 16 + lz) as i32));
    }

    /// A chunk filled from its columns holds what its cells hold one by one.
    proof fn lemma_chunk(&self, cols: Seq<Column>, c: (i32, i32, i32), data: ChunkData)
        requires
            data.cheapest(chunk_spec(self.rules_spec(), self.noise_spec(), cols, c)),
            forall|k: int|
                0 <= k < CHUNK_COLUMNS ==> #[trigger] cols[k] == self.col(
                    column_x(c.0, k),
                    column_z(c.2, k),
                ),
        ensures
            is_generated(
                |x: i32, z: i32| self.height_spec(x, z),
                |x: i32, y: i32, z: i32, h: i32| self.block_spec(x, y, z, h),
                c,
                data,
            ),
    {
        let want = Seq::new(
            CHUNK_VOLUME as nat,
            |i: int|
                generated(
                    |x: i32, z: i32| self.height_spec(x, z),
                    |x: i32, y: i32, z: i32, h: i32| self.block_spec(x, y, z, h),
                    c,
                    i,
                ),
        );
        assert forall|i: int| 0 <= i < CHUNK_VOLUME implies data@[i] == want[i] by {
            self.lemma_cell(cols, c, i);
        }
        assert(data@ =~= want);
    }
}

impl<
    P: Fn(i32, i32) -> Profile,
    N: Fn(Probe, i32, i32, i32, i32) -> bool,
    H: Fn(i32, i32, i32) -> Hint,
> TerrainGenerator for ClassicGenerator<P, N, H> {
    closed spec fn ready(&self) -> bool {
        &&& self.rules.wf()
        &&& is_world(self.rules, self.profile, self.noise, self.hint)
        &&& forall|x: i32, z: i32, p: Profile| #[trigger]
            call_ensures(self.profile, (x, z), p) ==> p.in_range()
    }

    /// Depths there, and the layers that a chunk there looks into, fit 32 bits.
    open spec fn reaches(&self, wy: i32) -> bool {
        y_in_reach(wy - 1) && y_in_reach(wy + 20)
    }

    open spec fn height_spec(&self, wx: i32, wz: i32) -> i32 {
        self.col(wx, wz).height
    }

    open spec fn surface_spec(&self, wx: i32, wz: i32) -> BlockId {
        self.col(wx, wz).dress
    }

    open spec fn deep_spec(&self) -> BlockId {
        self.rules_spec().mat.stone
    }

    open spec fn block_spec(&self, wx: i32, wy: i32, wz: i32, height: i32) -> BlockId {
        self.rules_spec().cell_spec(self.noise_spec(), self.col(wx, wz), wx, wy, wz, true)
    }

    open spec fn lod_spec(&self, wx: i32, wy: i32, wz: i32) -> BlockId {
        self.rules_spec().cell_spec(self.noise_spec(), self.col(wx, wz), wx, wy, wz, false)
    }

    fn seed(&self) -> (s: i64)
        ensures
            s == self.rules_spec().seed,
    {
        self.rules.seed
    }

    fn sea_level(&self) -> (y: i32)
        ensures
            y == self.rules_spec().sea_level,
    {
        self.rules.sea_level
    }

    fn height(&self, wx: i32, wz: i32) -> (h: i32)
        ensures
            answered::<Profile, P>(self.profiler(), self.world().0, wx, wz),
    {
        self.column(wx, wz).height
    }

    fn surface_at(&self, wx: i32, wz: i32) -> (id: BlockId)
        ensures
            answered::<Profile, P>(self.profiler(), self.world().0, wx, wz),
    {
        self.column(wx, wz).dress
    }

    fn deep(&self) -> (id: BlockId) {
        self.rules.mat.stone
    }

    fn block_at(&self, wx: i32, wy: i32, wz: i32, height: i32) -> (id: BlockId)
        ensures
            answered::<Profile, P>(self.profiler(), self.world().0, wx, wz),
            forall|said: NoiseFn| #[trigger]
                hears(self.noise_of(), said) ==> id == self.rules_spec().cell_spec(
                    said,
                    self.col(wx, wz),
                    wx,
                    wy,
                    wz,
                    true,
                ),
    {
        let c = self.column(wx, wz);
        proof {
            self.lemma_world();
        }
        self.rules.cell_base(&self.noise, &c, wx, wy, wz, true)
    }

    fn lod_block_at(&self, wx: i32, wy: i32, wz: i32) -> (id: BlockId)
        ensures
            answered::<Profile, P>(self.profiler(), self.world().0, wx, wz),
            forall|said: NoiseFn| #[trigger]
                hears(self.noise_of(), said) ==> id == self.rules_spec().cell_spec(
                    said,
                    self.col(wx, wz),
                    wx,
                    wy,
                    wz,
                    false,
                ),
    {
        let c = self.column(wx, wz);
        proof {
            self.lemma_world();
        }
        self.rules.cell_base(&self.noise, &c, wx, wy, wz, false)
    }

    fn lod_column(&self, wx: i32, wz: i32, ys: &[i32], out: &mut [BlockId]) {
        let c = self.column(wx, wz);
        proof {
            self.lemma_world();
        }
        self.rules.lod_column(&self.noise, &c, wx, wz, ys, out);
    }

    fn generate_column(&self, cx: i32, cz: i32, low: i32, high: i32) -> (r: (
        Vec<(i32, ChunkData)>,
        ColumnHeights,
    ))
        ensures
            forall|k: int|
                0 <= k < CHUNK_COLUMNS ==> #[trigger] asked::<Profile, P>(
                    self.profiler(),
                    self.world().0,
                    cx,
                    cz,
                    k,
                ),
            forall|world: (ProfileFn, NoiseFn), k: int|
                #![trigger self.is_of(world), r.0@[k]]
                self.is_of(world) && 0 <= k < r.0@.len() ==> r.0@[k].1.cheapest(
                    chunk_spec(
                        self.rules_spec(),
                        world.1,
                        shaped_columns(self.rules_spec(), world.0, cx, cz),
                        (cx, r.0@[k].0, cz),
                    ),
                ),
    {
        let cols = self.columns(cx, cz);
        let hints: (Vec<bool>, Vec<bool>) = if low <= high {
            assert(self.reaches((low * 16) as i32) && self.reaches((high * 16) as i32));
            assert(layer_in_reach(low as int) && layer_in_reach(high as int));
            let (quiet, _) = self.hints(cx, cz, low - 1, high + 1);
            let (_, clear) = self.hints(cx, cz, low, high);
            (quiet, clear)
        } else {
            (Vec::new(), Vec::new())
        };
        proof {
            assert forall|world: (ProfileFn, NoiseFn)| #[trigger] self.is_of(world) implies cols@
                == shaped_columns(self.rules_spec(), world.0, cx, cz) && claims_hold(
                world.1,
                cx,
                cz,
                cols@,
                low,
                hints.0@,
                hints.1@,
            ) by {
                assert forall|k: int| 0 <= k < CHUNK_COLUMNS implies cols@[k] == shaped_columns(
                    self.rules_spec(),
                    world.0,
                    cx,
                    cz,
                )[k] by {
                    assert(asked::<Profile, P>(self.profiler(), self.world().0, cx, cz, k));
                    lemma_answered::<Profile, P>(
                        self.profiler(),
                        self.world().0,
                        world.0,
                        column_x(cx, k),
                        column_z(cz, k),
                    );
                }
                assert(cols@ =~= shaped_columns(self.rules_spec(), world.0, cx, cz));
            }
            self.lemma_world();
        }
        let r = self.rules.generate_column(
            &self.noise,
            cx,
            cz,
            low,
            high,
            &cols,
            &hints.0,
            &hints.1,
        );
        proof {
            assert(r.1@ =~= column_heights(|x: i32, z: i32| self.height_spec(x, z), cx, cz));
            assert forall|k: int| 0 <= k < r.0@.len() implies is_generated(
                |x: i32, z: i32| self.height_spec(x, z),
                |x: i32, y: i32, z: i32, h: i32| self.block_spec(x, y, z, h),
                (cx, #[trigger] r.0@[k].0, cz),
                r.0@[k].1,
            ) by {
                self.lemma_chunk(cols@, (cx, r.0@[k].0, cz), r.0@[k].1);
            }
        }
        r
    }

    fn generate(&self, cx: i32, cy: i32, cz: i32) -> (data: ChunkData)
        ensures
            forall|k: int|
                0 <= k < CHUNK_COLUMNS ==> #[trigger] asked::<Profile, P>(
                    self.profiler(),
                    self.world().0,
                    cx,
                    cz,
                    k,
                ),
            forall|world: (ProfileFn, NoiseFn)| #[trigger]
                self.is_of(world) ==> data.cheapest(
                    chunk_spec(
                        self.rules_spec(),
                        world.1,
                        shaped_columns(self.rules_spec(), world.0, cx, cz),
                        (cx, cy, cz),
                    ),
                ),
    {
        let (mut chunks, _) = self.generate_column(cx, cz, cy, cy);
        assert(chunks@[0].0 == cy);
        match chunks.pop() {
            Some((_, data)) => data,
            None => ChunkData::Uniform(BlockId::air()),
        }
    }
}

} // verus!
