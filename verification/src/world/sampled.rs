//! Generators: the rules of a terrain over a sampler of its field.
//!
//! What a field holds at a place is computed outside. A generator keeps the sampler
//! beside the rules and answers for any cell, or for whole columns of chunks.
use vstd::prelude::*;

use crate::block::BlockId;
use crate::world::chunk::{local_of_spec, ChunkData, CHUNK_VOLUME};
use crate::world::diffusion::{self, DiffusionTerrain};
use crate::world::diffusion_v2::{self, DiffusionV2, CHANNELS, FIELD_LEN};
use crate::world::generation::{
    column_heights, column_in_world, generated, is_generated, ColumnHeights, TerrainGenerator,
    CHUNK_COLUMNS,
};

verus! {

/// Whether a sampler answers what `field` says, wherever it answers.
pub open spec fn samples<T, S: Fn(i32, i32) -> T>(sample: S, field: spec_fn(i32, i32) -> T) -> bool {
    forall|x: i32, z: i32, t: T| #[trigger] call_ensures(sample, (x, z), t) ==> t == field(x, z)
}

/// Whether a sampler answers for every place, always the same way.
pub open spec fn is_sampler<T, S: Fn(i32, i32) -> T>(sample: S) -> bool {
    &&& forall|x: i32, z: i32| #[trigger] call_requires(sample, (x, z))
    &&& exists|field: spec_fn(i32, i32) -> T| #[trigger] samples::<T, S>(sample, field)
}

/// A field that a sampler answers.
pub open spec fn field_of<T, S: Fn(i32, i32) -> T>(sample: S) -> spec_fn(i32, i32) -> T {
    choose|field: spec_fn(i32, i32) -> T| #[trigger] samples::<T, S>(sample, field)
}

/// Whether a sampler has answered for a place, with what `field` says.
pub open spec fn answered<T, S: Fn(i32, i32) -> T>(
    sample: S,
    field: spec_fn(i32, i32) -> T,
    x: i32,
    z: i32,
) -> bool {
    call_ensures(sample, (x, z), field(x, z))
}

/// Whether a sampler has answered for column `k` of a chunk column.
pub open spec fn asked<T, S: Fn(i32, i32) -> T>(
    sample: S,
    field: spec_fn(i32, i32) -> T,
    cx: i32,
    cz: i32,
    k: int,
) -> bool {
    answered::<T, S>(sample, field, (cx * 16 + k % 16) as i32, (cz * 16 + k / 16) as i32)
}

/// Where a sampler has answered, all fields that it samples say the same.
pub proof fn lemma_answered<T, S: Fn(i32, i32) -> T>(
    sample: S,
    own: spec_fn(i32, i32) -> T,
    field: spec_fn(i32, i32) -> T,
    x: i32,
    z: i32,
)
    requires
        answered::<T, S>(sample, own, x, z),
        samples::<T, S>(sample, field),
    ensures
        own(x, z) == field(x, z),
{
}

/// What a sampler answers for a place.
pub(crate) fn ask<T, S: Fn(i32, i32) -> T>(sample: &S, x: i32, z: i32) -> (t: T)
    requires
        forall|x: i32, z: i32| #[trigger] call_requires(*sample, (x, z)),
    ensures
        call_ensures(*sample, (x, z), t),
        forall|field: spec_fn(i32, i32) -> T| #[trigger]
            samples::<T, S>(*sample, field) ==> t == field(x, z) && answered::<T, S>(
                *sample,
                field,
                x,
                z,
            ),
{
    let t = sample(x, z);
    assert(call_ensures(*sample, (x, z), t));
    t
}

/// The column at a place within a chunk column has that place.
proof fn lemma_place_of(lx: int, lz: int)
    requires
        0 <= lx < 16,
        0 <= lz < 16,
    ensures
        0 <= lx + lz * 16 < CHUNK_COLUMNS,
        (lx + lz * 16) % 16 == lx,
        (lx + lz * 16) / 16 == lz,
{
}

/// The integer field's terrain: its rules, the eight channels of every place, and
/// the coarse ground height that far tiles show.
pub struct V2Generator<S: Fn(i32, i32) -> [i32; CHANNELS], L: Fn(i32, i32) -> i32> {
    rules: DiffusionV2,
    sample: S,
    far: L,
}

impl<S: Fn(i32, i32) -> [i32; CHANNELS], L: Fn(i32, i32) -> i32> V2Generator<S, L> {
    pub closed spec fn rules_spec(self) -> DiffusionV2 {
        self.rules
    }

    /// The sampler of the channels.
    pub closed spec fn sampler(self) -> S {
        self.sample
    }

    /// The sampler of coarse heights.
    pub closed spec fn far_sampler(self) -> L {
        self.far
    }

    /// The channels of every place.
    pub open spec fn channel_field(self) -> spec_fn(i32, i32) -> [i32; CHANNELS] {
        field_of::<[i32; CHANNELS], S>(self.sampler())
    }

    /// The coarse ground height of every place.
    pub open spec fn far_field(self) -> spec_fn(i32, i32) -> i32 {
        field_of::<i32, L>(self.far_sampler())
    }

    /// The channels of a place.
    pub open spec fn channels(self, x: i32, z: i32) -> Seq<i32> {
        self.channel_field()(x, z)@
    }

    /// The coarse ground height of a place.
    pub open spec fn far_height(self, x: i32, z: i32) -> i32 {
        self.far_field()(x, z)
    }

    /// The column at a place.
    pub open spec fn col(self, x: i32, z: i32) -> diffusion_v2::Col {
        self.rules_spec().col_spec(self.channels(x, z), x, z)
    }

    /// A generator over a sampler of the channels and one of coarse heights.
    pub fn new(rules: DiffusionV2, sample: S, far: L) -> (g: Self)
        requires
            rules.wf(),
            is_sampler::<[i32; CHANNELS], S>(sample),
            is_sampler::<i32, L>(far),
        ensures
            g.ready(),
            forall|y: i32| #[trigger] g.reaches(y),
            g.rules_spec() == rules,
            g.sampler() == sample,
            g.far_sampler() == far,
    {
        V2Generator { rules, sample, far }
    }

    /// The column at a place.
    pub fn column(&self, wx: i32, wz: i32) -> (c: diffusion_v2::Col)
        requires
            self.ready(),
        ensures
            c == self.col(wx, wz),
            answered::<[i32; CHANNELS], S>(self.sampler(), self.channel_field(), wx, wz),
    {
        let ch: [i32; CHANNELS] = ask(&self.sample, wx, wz);
        assert(ch@.subrange(0, 8) =~= ch@);
        self.rules.col_from_ch(&ch, 0, wx, wz)
    }

    /// The channels of a chunk column.
    fn field(&self, cx: i32, cz: i32) -> (f: [i32; FIELD_LEN])
        requires
            self.ready(),
            column_in_world(cx, cz),
        ensures
            forall|k: int|
                0 <= k < CHUNK_COLUMNS ==> #[trigger] f@.subrange(k * 8, k * 8 + 8)
                    == self.channels((cx * 16 + k % 16) as i32, (cz * 16 + k / 16) as i32),
            forall|k: int|
                0 <= k < CHUNK_COLUMNS ==> #[trigger] asked::<[i32; CHANNELS], S>(
                    self.sampler(),
                    self.channel_field(),
                    cx,
                    cz,
                    k,
                ),
    {
        let mut f: [i32; FIELD_LEN] = [0i32;FIELD_LEN];
        let mut k: usize = 0;
        while k < CHUNK_COLUMNS
            invariant
                k <= CHUNK_COLUMNS,
                self.ready(),
                column_in_world(cx, cz),
                forall|j: int, i: int|
                    0 <= j < k && 0 <= i < 8 ==> #[trigger] f@[j * 8 + i] == #[trigger] self.channels(
                        (cx * 16 + j % 16) as i32,
                        (cz * 16 + j / 16) as i32,
                    )[i],
                forall|j: int|
                    0 <= j < k ==> #[trigger] asked::<[i32; CHANNELS], S>(
                        self.sampler(),
                        self.channel_field(),
                        cx,
                        cz,
                        j,
                    ),
            decreases CHUNK_COLUMNS - k,
        {
            let wx: i32 = cx * 16 + (k % 16) as i32;
            let wz: i32 = cz * 16 + (k / 16) as i32;
            let ch: [i32; CHANNELS] = ask(&self.sample, wx, wz);
            let mut i: usize = 0;
            let ghost before = f@;
            while i < 8
                invariant
                    i <= 8,
                    k < CHUNK_COLUMNS,
                    before.len() == FIELD_LEN,
                    forall|j: int|
                        0 <= j < FIELD_LEN ==> #[trigger] f@[j] == (if k * 8 <= j < k * 8 + i {
                            ch@[j - k * 8]
                        } else {
                            before[j]
                        }),
                decreases 8 - i,
            {
                f[k * 8 + i] = ch[i];
                i = i + 1;
            }
            k = k + 1;
        }
        assert forall|k: int| 0 <= k < CHUNK_COLUMNS implies #[trigger] f@.subrange(k * 8, k * 8 + 8)
            == self.channels((cx * 16 + k % 16) as i32, (cz * 16 + k / 16) as i32) by {
            let want = self.channels((cx * 16 + k % 16) as i32, (cz * 16 + k / 16) as i32);
            assert forall|i: int| 0 <= i < 8 implies f@.subrange(k * 8, k * 8 + 8)[i] == want[i] by {
                assert(f@[k * 8 + i] == want[i]);
            }
            assert(f@.subrange(k * 8, k * 8 + 8) =~= want);
        }
        f
    }
}

impl<S: Fn(i32, i32) -> [i32; CHANNELS], L: Fn(i32, i32) -> i32> V2Generator<S, L> {
    /// The columns of a chunk column are those of its places.
    proof fn lemma_columns(&self, cx: i32, cz: i32, field: Seq<i32>)
        requires
            forall|k: int|
                0 <= k < CHUNK_COLUMNS ==> #[trigger] field.subrange(k * 8, k * 8 + 8)
                    == self.channels((cx * 16 + k % 16) as i32, (cz * 16 + k / 16) as i32),
        ensures
            forall|k: int|
                0 <= k < CHUNK_COLUMNS ==> #[trigger] self.rules_spec().cols_spec(cx, cz, field)[k]
                    == self.col((cx * 16 + k % 16) as i32, (cz * 16 + k / 16) as i32),
    {
        assert forall|k: int| 0 <= k < CHUNK_COLUMNS implies #[trigger] self.rules_spec().cols_spec(
            cx,
            cz,
            field,
        )[k] == self.col((cx * 16 + k % 16) as i32, (cz * 16 + k / 16) as i32) by {
            assert(field.subrange(k * 8, k * 8 + 8) == self.channels(
                (cx * 16 + k % 16) as i32,
                (cz * 16 + k / 16) as i32,
            ));
        }
    }

    /// What the generator answers, over its columns.
    pub proof fn lemma_answers(&self)
        ensures
            forall|y: i32| #[trigger] self.reaches(y),
            forall|x: i32, z: i32| #[trigger] self.height_spec(x, z) == self.col(x, z).height,
            forall|x: i32, z: i32| #[trigger] self.surface_spec(x, z) == self.col(x, z).dress,
            self.deep_spec() == self.rules_spec().mat.stone,
            forall|x: i32, y: i32, z: i32, h: i32| #[trigger]
                self.block_spec(x, y, z, h) == self.rules_spec().cell_spec(self.col(x, z), x, y, z),
            forall|x: i32, y: i32, z: i32| #[trigger]
                self.lod_spec(x, y, z) == self.rules_spec().lod_spec(self.far_height(x, z), y),
    {
    }

    /// A cell of a chunk that is filled from its columns.
    #[verifier::spinoff_prover]
    proof fn lemma_cell(&self, cols: Seq<diffusion_v2::Col>, c: (i32, i32, i32), i: int)
        requires
            0 <= i < CHUNK_VOLUME,
            forall|k: int|
                0 <= k < CHUNK_COLUMNS ==> #[trigger] cols[k] == self.col(
                    (c.0 * 16 + k % 16) as i32,
                    (c.2 * 16 + k / 16) as i32,
                ),
        ensures
            self.rules_spec().chunk_spec(cols, c)[i] == generated(
                |x: i32, z: i32| self.height_spec(x, z),
                |x: i32, y: i32, z: i32, h: i32| self.block_spec(x, y, z, h),
                c,
                i,
            ),
    {
        let (lx, ly, lz) = local_of_spec(i);
        lemma_place_of(lx, lz);
        assert(cols[lx + lz * 16] == self.col((c.0 * 16 + lx) as i32, (c.2 * 16 + lz) as i32));
    }

    /// A chunk filled from its columns holds what its cells hold one by one.
    proof fn lemma_chunk(&self, cols: Seq<diffusion_v2::Col>, c: (i32, i32, i32), data: ChunkData)
        requires
            data.cheapest(self.rules_spec().chunk_spec(cols, c)),
            forall|k: int|
                0 <= k < CHUNK_COLUMNS ==> #[trigger] cols[k] == self.col(
                    (c.0 * 16 + k % 16) as i32,
                    (c.2 * 16 + k / 16) as i32,
                ),
        ensures
            is_generated(
                |x: i32, z: i32| self.height_spec(x, z),
                |x: i32, y: i32, z: i32, h: i32| self.block_spec(x, y, z, h),
                c,
                data,
            ),
    {
        let want = Seq::new(
            CHUNK_VOLUME as nat,
            |i: int|
                generated(
                    |x: i32, z: i32| self.height_spec(x, z),
                    |x: i32, y: i32, z: i32, h: i32| self.block_spec(x, y, z, h),
                    c,
                    i,
                ),
        );
        assert forall|i: int| 0 <= i < CHUNK_VOLUME implies data@[i] == want[i] by {
            self.lemma_cell(cols, c, i);
        }
        assert(data@ =~= want);
    }
}

impl<S: Fn(i32, i32) -> [i32; CHANNELS], L: Fn(i32, i32) -> i32> TerrainGenerator for V2Generator<
    S,
    L,
> {
    closed spec fn ready(&self) -> bool {
        &&& self.rules.wf()
        &&& is_sampler::<[i32; CHANNELS], S>(self.sample)
        &&& is_sampler::<i32, L>(self.far)
    }

    open spec fn reaches(&self, wy: i32) -> bool {
        true
    }

    open spec fn height_spec(&self, wx: i32, wz: i32) -> i32 {
        self.col(wx, wz).height
    }

    open spec fn surface_spec(&self, wx: i32, wz: i32) -> BlockId {
        self.col(wx, wz).dress
    }

    open spec fn deep_spec(&self) -> BlockId {
        self.rules_spec().mat.stone
    }

    open spec fn block_spec(&self, wx: i32, wy: i32, wz: i32, height: i32) -> BlockId {
        self.rules_spec().cell_spec(self.col(wx, wz), wx, wy, wz)
    }

    open spec fn lod_spec(&self, wx: i32, wy: i32, wz: i32) -> BlockId {
        self.rules_spec().lod_spec(self.far_height(wx, wz), wy)
    }

    fn seed(&self) -> (s: i64)
        ensures
            s == self.rules_spec().seed,
    {
        self.rules.seed
    }

    fn sea_level(&self) -> (y: i32)
        ensures
            y == self.rules_spec().sea,
    {
        self.rules.sea
    }

    fn kind(&self) -> (s: &'static str)
        ensures
            s@ == "diffusion"@,
    {
        "diffusion"
    }

    fn height(&self, wx: i32, wz: i32) -> (h: i32)
        ensures
            answered::<[i32; CHANNELS], S>(self.sampler(), self.channel_field(), wx, wz),
    {
        self.column(wx, wz).height
    }

    fn surface_at(&self, wx: i32, wz: i32) -> (id: BlockId)
        ensures
            answered::<[i32; CHANNELS], S>(self.sampler(), self.channel_field(), wx, wz),
    {
        self.column(wx, wz).dress
    }

    fn deep(&self) -> (id: BlockId) {
        self.rules.mat.stone
    }

    fn block_at(&self, wx: i32, wy: i32, wz: i32, height: i32) -> (id: BlockId)
        ensures
            answered::<[i32; CHANNELS], S>(self.sampler(), self.channel_field(), wx, wz),
    {
        let c = self.column(wx, wz);
        proof {
            assert(-40000 <= c.height <= 40000);
        }
        if (c.height as i64 - wy as i64) > i32::MAX as i64 {
            return self.rules.mat.stone;
        }
        self.rules.cell(&c, wx, wy, wz)
    }

    fn lod_block_at(&self, wx: i32, wy: i32, wz: i32) -> (id: BlockId)
        ensures
            answered::<i32, L>(self.far_sampler(), self.far_field(), wx, wz),
    {
        self.rules.lod_block(ask(&self.far, wx, wz), wy)
    }

    fn generate_column(&self, cx: i32, cz: i32, low: i32, high: i32) -> (r: (
        Vec<(i32, ChunkData)>,
        ColumnHeights,
    ))
        ensures
            forall|k: int|
                0 <= k < CHUNK_COLUMNS ==> #[trigger] asked::<[i32; CHANNELS], S>(
                    self.sampler(),
                    self.channel_field(),
                    cx,
                    cz,
                    k,
                ),
    {
        let field = self.field(cx, cz);
        let r = self.rules.generate_column(cx, cz, low, high, &field);
        proof {
            let cols = self.rules.cols_spec(cx, cz, field@);
            self.lemma_columns(cx, cz, field@);
            assert(r.1@ =~= column_heights(|x: i32, z: i32| self.height_spec(x, z), cx, cz));
            assert forall|k: int| 0 <= k < r.0@.len() implies is_generated(
                |x: i32, z: i32| self.height_spec(x, z),
                |x: i32, y: i32, z: i32, h: i32| self.block_spec(x, y, z, h),
                (cx, #[trigger] r.0@[k].0, cz),
                r.0@[k].1,
            ) by {
                self.lemma_chunk(cols, (cx, r.0@[k].0, cz), r.0@[k].1);
            }
        }
        r
    }

    fn generate(&self, cx: i32, cy: i32, cz: i32) -> (data: ChunkData)
        ensures
            forall|k: int|
                0 <= k < CHUNK_COLUMNS ==> #[trigger] asked::<[i32; CHANNELS], S>(
                    self.sampler(),
                    self.channel_field(),
                    cx,
                    cz,
                    k,
                ),
    {
        let (mut chunks, _) = self.generate_column(cx, cz, cy, cy);
        assert(chunks@[0].0 == cy);
        match chunks.pop() {
            Some((_, data)) => data,
            None => ChunkData::Uniform(BlockId::air()),
        }
    }
}

/// The overlapping real-valued field's terrain: its rules, the column of every place,
/// and the coarse ground height that far tiles show.
pub struct DiffusionGenerator<S: Fn(i32, i32) -> diffusion::Col, L: Fn(i32, i32) -> i32> {
    rules: DiffusionTerrain,
    sample: S,
    far: L,
}

impl<S: Fn(i32, i32) -> diffusion::Col, L: Fn(i32, i32) -> i32> DiffusionGenerator<S, L> {
    pub closed spec fn rules_spec(self) -> DiffusionTerrain {
        self.rules
    }

    /// The sampler of columns.
    pub closed spec fn sampler(self) -> S {
        self.sample
    }

    /// The sampler of coarse heights.
    pub closed spec fn far_sampler(self) -> L {
        self.far
    }

    /// The column at every place.
    pub open spec fn column_field(self) -> spec_fn(i32, i32) -> diffusion::Col {
        field_of::<diffusion::Col, S>(self.sampler())
    }

    /// The coarse ground height of every place.
    pub open spec fn far_field(self) -> spec_fn(i32, i32) -> i32 {
        field_of::<i32, L>(self.far_sampler())
    }

    /// The column at a place.
    pub open spec fn col(self, x: i32, z: i32) -> diffusion::Col {
        self.column_field()(x, z)
    }

    /// The coarse ground height of a place.
    pub open spec fn far_height(self, x: i32, z: i32) -> i32 {
        self.far_field()(x, z)
    }

    /// A generator over a sampler of columns and one of coarse heights.
    pub fn new(rules: DiffusionTerrain, sample: S, far: L) -> (g: Self)
        requires
            rules.wf(),
            is_sampler::<diffusion::Col, S>(sample),
            is_sampler::<i32, L>(far),
            forall|x: i32, z: i32, c: diffusion::Col| #[trigger]
                call_ensures(sample, (x, z), c) ==> rules.in_range(c),
        ensures
            g.ready(),
            forall|y: i32| #[trigger] g.reaches(y),
            g.rules_spec() == rules,
            g.sampler() == sample,
            g.far_sampler() == far,
    {
        DiffusionGenerator { rules, sample, far }
    }

    /// The column at a place.
    pub fn column(&self, wx: i32, wz: i32) -> (c: diffusion::Col)
        requires
            self.ready(),
        ensures
            c == self.col(wx, wz),
            self.rules_spec().in_range(c),
            answered::<diffusion::Col, S>(self.sampler(), self.column_field(), wx, wz),
    {
        ask(&self.sample, wx, wz)
    }

    /// The columns of a chunk column.
    fn columns(&self, cx: i32, cz: i32) -> (cols: [diffusion::Col; CHUNK_COLUMNS])
        requires
            self.ready(),
            column_in_world(cx, cz),
        ensures
            forall|k: int|
                0 <= k < CHUNK_COLUMNS ==> (#[trigger] cols@[k]) == self.col(
                    (cx * 16 + k % 16) as i32,
                    (cz * 16 + k / 16) as i32,
                ) && self.rules_spec().in_range(cols@[k]),
            forall|k: int|
                0 <= k < CHUNK_COLUMNS ==> #[trigger] asked::<diffusion::Col, S>(
                    self.sampler(),
                    self.column_field(),
                    cx,
                    cz,
                    k,
                ),
    {
        let first = self.column(cx * 16, cz * 16);
        let mut cols: [diffusion::Col; CHUNK_COLUMNS] = [first;CHUNK_COLUMNS];
        let mut k: usize = 0;
        while k < CHUNK_COLUMNS
            invariant
                k <= CHUNK_COLUMNS,
                self.ready(),
                column_in_world(cx, cz),
                forall|j: int|
                    0 <= j < k ==> (#[trigger] cols@[j]) == self.col(
                        (cx * 16 + j % 16) as i32,
                        (cz * 16 + j / 16) as i32,
                    ) && self.rules_spec().in_range(cols@[j]),
                forall|j: int|
                    0 <= j < k ==> #[trigger] asked::<diffusion::Col, S>(
                        self.sampler(),
                        self.column_field(),
                        cx,
                        cz,
                        j,
                    ),
            decreases CHUNK_COLUMNS - k,
        {
            let c = self.column(cx * 16 + (k % 16) as i32, cz * 16 + (k / 16) as i32);
            cols[k] = c;
            k = k + 1;
        }
        cols
    }

    /// What the generator answers, over its columns.
    pub proof fn lemma_answers(&self)
        ensures
            forall|y: i32| #[trigger] self.reaches(y),
            forall|x: i32, z: i32| #[trigger] self.height_spec(x, z) == self.col(x, z).height,
            forall|x: i32, z: i32| #[trigger]
                self.surface_spec(x, z) == self.rules_spec().dress_spec(self.col(x, z)),
            self.deep_spec() == self.rules_spec().mat.stone,
            forall|x: i32, y: i32, z: i32, h: i32| #[trigger]
                self.block_spec(x, y, z, h) == self.rules_spec().cell_spec(self.col(x, z), x, y, z),
            forall|x: i32, y: i32, z: i32| #[trigger]
                self.lod_spec(x, y, z) == self.rules_spec().lod_spec(self.far_height(x, z), y),
    {
    }

    /// A cell of a chunk that is filled from its columns.
    #[verifier::spinoff_prover]
    proof fn lemma_cell(&self, cols: Seq<diffusion::Col>, c: (i32, i32, i32), i: int)
        requires
            0 <= i < CHUNK_VOLUME,
            forall|k: int|
                0 <= k < CHUNK_COLUMNS ==> #[trigger] cols[k] == self.col(
                    (c.0 * 16 + k % 16) as i32,
                    (c.2 * 16 + k / 16) as i32,
                ),
        ensures
            self.rules_spec().chunk_spec(cols, c)[i] == generated(
                |x: i32, z: i32| self.height_spec(x, z),
                |x: i32, y: i32, z: i32, h: i32| self.block_spec(x, y, z, h),
                c,
                i,
            ),
    {
        let (lx, ly, lz) = local_of_spec(i);
        lemma_place_of(lx, lz);
        assert(cols[lx + lz * 16] == self.col((c.0 * 16 + lx) as i32, (c.2 * 16 + lz) as i32));
    }

    /// A chunk filled from its columns holds what its cells hold one by one.
    proof fn lemma_chunk(&self, cols: Seq<diffusion::Col>, c: (i32, i32, i32), data: ChunkData)
        requires
            data.cheapest(self.rules_spec().chunk_spec(cols, c)),
            forall|k: int|
                0 <= k < CHUNK_COLUMNS ==> #[trigger] cols[k] == self.col(
                    (c.0 * 16 + k % 16) as i32,
                    (c.2 * 16 + k / 16) as i32,
                ),
        ensures
            is_generated(
                |x: i32, z: i32| self.height_spec(x, z),
                |x: i32, y: i32, z: i32, h: i32| self.block_spec(x, y, z, h),
                c,
                data,
            ),
    {
        let want = Seq::new(
            CHUNK_VOLUME as nat,
            |i: int|
                generated(
                    |x: i32, z: i32| self.height_spec(x, z),
                    |x: i32, y: i32, z: i32, h: i32| self.block_spec(x, y, z, h),
                    c,
                    i,
                ),
        );
        assert forall|i: int| 0 <= i < CHUNK_VOLUME implies data@[i] == want[i] by {
            self.lemma_cell(cols, c, i);
        }
        assert(data@ =~= want);
    }
}

impl<S: Fn(i32, i32) -> diffusion::Col, L: Fn(i32, i32) -> i32> TerrainGenerator
    for DiffusionGenerator<S, L> {
    closed spec fn ready(&self) -> bool {
        &&& self.rules.wf()
        &&& is_sampler::<diffusion::Col, S>(self.sample)
        &&& is_sampler::<i32, L>(self.far)
        &&& forall|x: i32, z: i32, c: diffusion::Col| #[trigger]
            call_ensures(self.sample, (x, z), c) ==> self.rules.in_range(c)
    }

    open spec fn reaches(&self, wy: i32) -> bool {
        true
    }

    open spec fn height_spec(&self, wx: i32, wz: i32) -> i32 {
        self.col(wx, wz).height
    }

    open spec fn surface_spec(&self, wx: i32, wz: i32) -> BlockId {
        self.rules_spec().dress_spec(self.col(wx, wz))
    }

    open spec fn deep_spec(&self) -> BlockId {
        self.rules_spec().mat.stone
    }

    open spec fn block_spec(&self, wx: i32, wy: i32, wz: i32, height: i32) -> BlockId {
        self.rules_spec().cell_spec(self.col(wx, wz), wx, wy, wz)
    }

    open spec fn lod_spec(&self, wx: i32, wy: i32, wz: i32) -> BlockId {
        self.rules_spec().lod_spec(self.far_height(wx, wz), wy)
    }

    fn seed(&self) -> (s: i64)
        ensures
            s == self.rules_spec().seed,
    {
        self.rules.seed
    }

    fn sea_level(&self) -> (y: i32)
        ensures
            y == self.rules_spec().sea,
    {
        self.rules.sea
    }

    fn kind(&self) -> (s: &'static str)
        ensures
            s@ == "diffusion"@,
    {
        "diffusion"
    }

    fn height(&self, wx: i32, wz: i32) -> (h: i32)
        ensures
            answered::<diffusion::Col, S>(self.sampler(), self.column_field(), wx, wz),
    {
        self.column(wx, wz).height
    }

    fn surface_at(&self, wx: i32, wz: i32) -> (id: BlockId)
        ensures
            answered::<diffusion::Col, S>(self.sampler(), self.column_field(), wx, wz),
    {
        let c = self.column(wx, wz);
        self.rules.dress(&c)
    }

    fn deep(&self) -> (id: BlockId) {
        self.rules.mat.stone
    }

    fn block_at(&self, wx: i32, wy: i32, wz: i32, height: i32) -> (id: BlockId)
        ensures
            answered::<diffusion::Col, S>(self.sampler(), self.column_field(), wx, wz),
    {
        let c = self.column(wx, wz);
        if (c.height as i64 - wy as i64) > i32::MAX as i64 {
            return self.rules.mat.stone;
        }
        self.rules.cell(&c, wx, wy, wz)
    }

    fn lod_block_at(&self, wx: i32, wy: i32, wz: i32) -> (id: BlockId)
        ensures
            answered::<i32, L>(self.far_sampler(), self.far_field(), wx, wz),
    {
        self.rules.lod_block(ask(&self.far, wx, wz), wy)
    }

    fn generate_column(&self, cx: i32, cz: i32, low: i32, high: i32) -> (r: (
        Vec<(i32, ChunkData)>,
        ColumnHeights,
    ))
        ensures
            forall|k: int|
                0 <= k < CHUNK_COLUMNS ==> #[trigger] asked::<diffusion::Col, S>(
                    self.sampler(),
                    self.column_field(),
                    cx,
                    cz,
                    k,
                ),
    {
        let cols = self.columns(cx, cz);
        let r = self.rules.generate_column(cx, cz, low, high, &cols);
        proof {
            assert(r.1@ =~= column_heights(|x: i32, z: i32| self.height_spec(x, z), cx, cz));
            assert forall|k: int| 0 <= k < r.0@.len() implies is_generated(
                |x: i32, z: i32| self.height_spec(x, z),
                |x: i32, y: i32, z: i32, h: i32| self.block_spec(x, y, z, h),
                (cx, #[trigger] r.0@[k].0, cz),
                r.0@[k].1,
            ) by {
                self.lemma_chunk(cols@, (cx, r.0@[k].0, cz), r.0@[k].1);
            }
        }
        r
    }

    fn generate(&self, cx: i32, cy: i32, cz: i32) -> (data: ChunkData)
        ensures
            forall|k: int|
                0 <= k < CHUNK_COLUMNS ==> #[trigger] asked::<diffusion::Col, S>(
                    self.sampler(),
                    self.column_field(),
                    cx,
                    cz,
                    k,
                ),
    {
        let (mut chunks, _) = self.generate_column(cx, cz, cy, cy);
        assert(chunks@[0].0 == cy);
        match chunks.pop() {
            Some((_, data)) => data,
            None => ChunkData::Uniform(BlockId::air()),
        }
    }
}

} // verus!
