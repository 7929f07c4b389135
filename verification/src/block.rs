//! Block identities.
use vstd::prelude::*;

verus! {

/// A registered block, by its registry index.
#[derive(Clone, Copy, PartialEq, Eq, Debug, Hash, PartialOrd, Ord, Structural)]
pub struct BlockId(pub u16);

/// The registry index of the empty block.
pub const AIR_ID: u16 = 0;

impl BlockId {
    /// The empty block.
    pub open spec fn air_spec() -> BlockId {
        BlockId(AIR_ID)
    }

    /// The empty block.
    #[verifier::when_used_as_spec(air_spec)]
    pub fn air() -> (id: BlockId)
        ensures
            id == BlockId::air_spec(),
    {
        BlockId(AIR_ID)
    }
}

/// A block together with its per-cell state word.
#[derive(Clone, Copy, PartialEq, Eq, Debug, Structural)]
pub struct BlockState {
    pub id: BlockId,
    pub state: u16,
}

/// A level of detail: a brick at level `k` spans `16 * 2^k` metres.
#[derive(Clone, Copy, PartialEq, Eq, Debug, Hash, Structural)]
pub struct Detail(pub i8);

/// A storage revision.
#[derive(Clone, Copy, PartialEq, Eq, Debug, Structural)]
pub struct Rev(pub u64);

/// The draw pass a block's faces belong to.
#[derive(Clone, Copy, PartialEq, Eq, Debug, Structural)]
pub enum Pass {
    Opaque,
    Cutout,
    Blend,
}

/// Per-block flags in flat tables indexed by block id.
#[derive(Clone, Debug)]
pub struct HotTables {
    pub solid: Vec<bool>,
    pub opaque: Vec<bool>,
    /// Whether the block shows a lowered fluid surface.
    pub fluid_surface: Vec<bool>,
    /// The pass that the block's faces are drawn in.
    pub layer: Vec<Pass>,
    /// Emitted block light, `0..=15`.
    pub emission: Vec<u8>,
    /// Whether meshes bake ambient occlusion.
    pub ao: bool,
    /// The number of texture layers the device offers.
    pub layer_cap: u16,
}

impl HotTables {
    /// The number of blocks that the tables describe.
    pub open spec fn count(self) -> nat {
        self.solid@.len()
    }

    /// Whether all tables describe the same blocks.
    pub open spec fn wf(self) -> bool {
        &&& self.opaque@.len() == self.count()
        &&& self.fluid_surface@.len() == self.count()
        &&& self.layer@.len() == self.count()
        &&& self.emission@.len() == self.count()
        &&& self.layer_cap > 0
    }

    pub open spec fn solid_spec(self, id: BlockId) -> bool {
        self.solid@[id.0 as int]
    }

    pub open spec fn opaque_spec(self, id: BlockId) -> bool {
        self.opaque@[id.0 as int]
    }

    /// Builds tables from one column per flag, with ambient occlusion on and no
    /// limit on texture layers.
    pub fn from_parts(
        solid: Vec<bool>,
        opaque: Vec<bool>,
        fluid_surface: Vec<bool>,
        layer: Vec<Pass>,
        emission: Vec<u8>,
    ) -> (t: HotTables)
        ensures
            t.solid == solid,
            t.opaque == opaque,
            t.fluid_surface == fluid_surface,
            t.layer == layer,
            t.emission == emission,
            t.ao,
            t.layer_cap == u16::MAX,
    {
        HotTables { solid, opaque, fluid_surface, layer, emission, ao: true, layer_cap: u16::MAX }
    }

    /// Whether the block fills its cell.
    pub fn solid(&self, id: BlockId) -> (b: bool)
        requires
            id.0 < self.solid@.len(),
        ensures
            b == self.solid_spec(id),
    {
        self.solid[id.0 as usize]
    }

    /// Whether the block stops light.
    pub fn opaque(&self, id: BlockId) -> (b: bool)
        requires
            id.0 < self.opaque@.len(),
        ensures
            b == self.opaque_spec(id),
    {
        self.opaque[id.0 as usize]
    }
}

} // verus!
