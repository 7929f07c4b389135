//! The streaming passes of a world as producers.
//!
//! Each pass runs at its own place within a frame's streaming: their order is fixed,
//! and a scheduler only hands each its budget.
use vstd::prelude::*;

use crate::sim::manifest::{Budget, Cadence, FootprintKey, Producer};

verus! {

/// A streaming pass, in the order in which they are registered.
#[derive(Clone, Copy, PartialEq, Eq, Debug, Structural)]
pub enum StreamLane {
    /// Patches the visibility mask of every drawable chunk.
    Occlusion,
    /// Meshes edited chunks at once.
    DirtyRemesh,
    /// Polls for the far field's relief and starts baking it.
    Mip,
    /// Brings the sections that an edit touched up to date.
    SectionOverlay,
    /// Frees the meshes of edited sections.
    SectionRemesh,
    /// Rebuilds the covering that is drawn.
    SectionVisible,
    /// Takes in finished results.
    Drain,
    /// Asks for columns that are missing.
    Generate,
    /// Admits chunks to light settling.
    LightAdmit,
    /// Admits chunks to meshing.
    MeshAdmit,
    /// Admits sections to extraction.
    SectionAdmit,
}

impl StreamLane {
    pub open spec fn name_spec(self) -> Seq<char> {
        match self {
            StreamLane::Occlusion => "occlusion"@,
            StreamLane::DirtyRemesh => "dirty_remesh"@,
            StreamLane::Mip => "lod_mip"@,
            StreamLane::SectionOverlay => "lod_overlay"@,
            StreamLane::SectionRemesh => "lod_section_remesh"@,
            StreamLane::SectionVisible => "lod_visible"@,
            StreamLane::Drain => "drain"@,
            StreamLane::Generate => "generate"@,
            StreamLane::LightAdmit => "light_admit"@,
            StreamLane::MeshAdmit => "mesh_admit"@,
            StreamLane::SectionAdmit => "section_admit"@,
        }
    }

    /// The name of the pass.
    pub fn name(self) -> (s: &'static str)
        ensures
            s@ == self.name_spec(),
    {
        match self {
            StreamLane::Occlusion => "occlusion",
            StreamLane::DirtyRemesh => "dirty_remesh",
            StreamLane::Mip => "lod_mip",
            StreamLane::SectionOverlay => "lod_overlay",
            StreamLane::SectionRemesh => "lod_section_remesh",
            StreamLane::SectionVisible => "lod_visible",
            StreamLane::Drain => "drain",
            StreamLane::Generate => "generate",
            StreamLane::LightAdmit => "light_admit",
            StreamLane::MeshAdmit => "mesh_admit",
            StreamLane::SectionAdmit => "section_admit",
        }
    }

    /// The budget of the pass, where `dirty` edited chunks are meshed per frame.
    pub open spec fn budget_spec(self, dirty: u16) -> Budget {
        match self {
            StreamLane::Occlusion => Budget::Micros(500),
            StreamLane::DirtyRemesh => Budget::Dispatches(dirty),
            StreamLane::Mip => Budget::Dispatches(1),
            StreamLane::Generate | StreamLane::MeshAdmit => Budget::Micros(2000),
            _ => Budget::Micros(1000),
        }
    }

    /// The budget of the pass, where `dirty` edited chunks are meshed per frame.
    pub fn budget(self, dirty: u16) -> (b: Budget)
        ensures
            b == self.budget_spec(dirty),
    {
        match self {
            StreamLane::Occlusion => Budget::Micros(500),
            StreamLane::DirtyRemesh => Budget::Dispatches(dirty),
            StreamLane::Mip => Budget::Dispatches(1),
            StreamLane::Generate | StreamLane::MeshAdmit => Budget::Micros(2000),
            _ => Budget::Micros(1000),
        }
    }

    /// Whether the pass stops at a deadline that its budget sets.
    pub open spec fn is_paced(self) -> bool {
        match self {
            StreamLane::Drain => true,
            StreamLane::Generate => true,
            StreamLane::LightAdmit => true,
            StreamLane::MeshAdmit => true,
            StreamLane::SectionAdmit => true,
            _ => false,
        }
    }

    /// What the pass declares: it runs every frame and may touch anything.
    pub fn manifest(self, dirty: u16) -> (p: Producer)
        ensures
            p.name@ == self.name_spec(),
            p.reads == FootprintKey::Global,
            p.writes == FootprintKey::Global,
            p.cadence == Cadence::Frame,
            p.budget == self.budget_spec(dirty),
    {
        Producer {
            name: self.name(),
            reads: FootprintKey::Global,
            writes: FootprintKey::Global,
            cadence: Cadence::Frame,
            budget: self.budget(dirty),
        }
    }
}

/// The time that a budget gives, in microseconds.
pub fn duration(budget: Budget) -> (us: u32)
    requires
        budget is Micros,
    ensures
        us == budget->Micros_0,
{
    match budget {
        Budget::Micros(us) => us,
        Budget::Dispatches(_) => 0,
    }
}

/// Every pass that stops at a deadline has a budget of time.
pub proof fn lemma_paced_lanes_have_time(lane: StreamLane, dirty: u16)
    requires
        lane.is_paced(),
    ensures
        lane.budget_spec(dirty) is Micros,
{
}

/// No two passes share a name.
pub proof fn lemma_lane_names_differ(a: StreamLane, b: StreamLane)
    requires
        a.name_spec() == b.name_spec(),
    ensures
        a == b,
{
    reveal_strlit("occlusion");
    reveal_strlit("dirty_remesh");
    reveal_strlit("lod_mip");
    reveal_strlit("lod_overlay");
    reveal_strlit("lod_section_remesh");
    reveal_strlit("lod_visible");
    reveal_strlit("drain");
    reveal_strlit("generate");
    reveal_strlit("light_admit");
    reveal_strlit("mesh_admit");
    reveal_strlit("section_admit");
    assert("occlusion"@.len() == 9);
    assert("dirty_remesh"@.len() == 12);
    assert("lod_mip"@.len() == 7);
    assert("lod_overlay"@.len() == 11);
    assert("lod_section_remesh"@.len() == 18);
    assert("lod_visible"@.len() == 11);
    assert("drain"@.len() == 5);
    assert("generate"@.len() == 8);
    assert("light_admit"@.len() == 11);
    assert("mesh_admit"@.len() == 10);
    assert("section_admit"@.len() == 13);
    assert("lod_overlay"@[4] == 'o');
    assert("lod_visible"@[4] == 'v');
    assert("light_admit"@[4] == 't');
}

} // verus!
