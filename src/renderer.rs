//! The render queue and the frame state machine. The renderer decides what
//! each frame draws and in which configuration; the caller carries those
//! decisions out on the hardware.
use vstd::prelude::*;
use crate::asset::{Material, MeshAsset, BITS_1_0};
use crate::model::Float4;
use crate::registry::{MeshId, Registry};

verus! {

/// The colour the render target is cleared to, as `0xRRGGBBAA`.
pub const CLEAR_COLOR: u32 = 0x68b0_d8ff;
/// Fragments pass the alpha test when their alpha exceeds this value.
pub const ALPHA_THRESHOLD: u8 = 0x10;

/// One submission: draw a mesh with a model-view transform.
#[derive(Clone, Copy, Debug)]
pub struct RenderRequest<T> {
    pub mesh: MeshId,
    pub model: T,
}

/// How the surface colour is formed.
#[derive(Clone, Copy, Debug, PartialEq, Eq, Structural)]
pub enum Combiner {
    /// The primary colour modulated by the bound texture.
    Textured,
    /// The primary colour alone.
    Untextured,
}

/// Which draw call to issue.
#[derive(Clone, Copy, Debug, PartialEq, Eq, Structural)]
pub enum DrawKind {
    /// An indexed draw over the mesh's index list.
    Indexed { count: usize },
    /// A non-indexed draw over every vertex.
    Arrays { count: usize },
}

/// Everything one draw needs besides the session's fixed state.
#[derive(Clone, Copy, Debug)]
pub struct DrawCommand<T> {
    pub mesh: MeshId,
    pub model_view: T,
    pub material: Material,
    pub combiner: Combiner,
    pub kind: DrawKind,
}

/// The state a frame opens with.
#[derive(Clone, Copy, Debug, PartialEq, Eq, Structural)]
pub struct FrameSetup {
    pub clear_color: u32,
    pub alpha_threshold: u8,
    pub cull_faces: bool,
    pub light_direction: Float4,
    pub light_color: Float4,
}

pub open spec fn frame_setup_spec() -> FrameSetup {
    FrameSetup {
        clear_color: CLEAR_COLOR,
        alpha_threshold: ALPHA_THRESHOLD,
        cull_faces: false,
        light_direction: Float4 { x: 0, y: 0, z: BITS_1_0, w: 0 },
        light_color: Float4 { x: BITS_1_0, y: BITS_1_0, z: BITS_1_0, w: BITS_1_0 },
    }
}

/// Whether a frame is open.
#[derive(Clone, Copy, Debug, PartialEq, Eq, Structural)]
pub enum FramePhase {
    Idle,
    Drawing,
}

pub open spec fn combiner_for(a: MeshAsset) -> Combiner {
    if a.texture is Some {
        Combiner::Textured
    } else {
        Combiner::Untextured
    }
}

pub open spec fn draw_kind_for(a: MeshAsset) -> DrawKind {
    match a.indices {
        Some(ix) => DrawKind::Indexed { count: ix@.len() as usize },
        None => DrawKind::Arrays { count: a.vertices@.len() as usize },
    }
}

/// The draw that a request becomes.
pub open spec fn command_for<T>(meshes: Seq<MeshAsset>, req: RenderRequest<T>) -> DrawCommand<T> {
    let a = meshes[req.mesh@ as int];
    DrawCommand {
        mesh: req.mesh,
        model_view: req.model,
        material: a.material,
        combiner: combiner_for(a),
        kind: draw_kind_for(a),
    }
}

/// The meshes of the session, this frame's queue, and whether a frame is open.
#[derive(Debug)]
pub struct Renderer<T> {
    registry: Registry,
    requests: Vec<RenderRequest<T>>,
    phase: FramePhase,
}

impl<T> Renderer<T> {
    /// Every queued request names a registered mesh.
    pub closed spec fn well_formed(&self) -> bool {
        forall|i: int| 0 <= i < self.requests@.len() ==> #[trigger] self.requests@[i].mesh@ < self.registry@.len()
    }

    pub closed spec fn meshes(&self) -> Seq<MeshAsset> {
        self.registry@
    }

    pub closed spec fn queue(&self) -> Seq<RenderRequest<T>> {
        self.requests@
    }

    pub closed spec fn phase_spec(&self) -> FramePhase {
        self.phase
    }
}

impl<T: Copy> Renderer<T> {
    pub fn new() -> (r: Renderer<T>)
        ensures
            r.meshes() == Seq::<MeshAsset>::empty(),
            r.queue() == Seq::<RenderRequest<T>>::empty(),
            r.phase_spec() == FramePhase::Idle,
            r.well_formed(),
    {
        Renderer { registry: Registry::new(), requests: Vec::new(), phase: FramePhase::Idle }
    }

    /// Takes ownership of a mesh for the rest of the session.
    pub fn register_mesh(&mut self, asset: MeshAsset) -> (id: MeshId)
        requires
            old(self).well_formed(),
        ensures
            id@ == old(self).meshes().len(),
            final(self).meshes() == old(self).meshes().push(asset),
            final(self).queue() == old(self).queue(),
            final(self).phase_spec() == old(self).phase_spec(),
            final(self).well_formed(),
    {
        self.registry.register(asset)
    }

    /// Registers each mesh in turn; the handles come back in the same order.
    pub fn register_meshes(&mut self, assets: Vec<MeshAsset>) -> (ids: Vec<MeshId>)
        requires
            old(self).well_formed(),
        ensures
            final(self).meshes() == old(self).meshes() + assets@,
            ids@.len() == assets@.len(),
            forall|k: int| 0 <= k < ids@.len() ==> #[trigger] ids@[k]@ == old(self).meshes().len() + k,
            final(self).queue() == old(self).queue(),
            final(self).phase_spec() == old(self).phase_spec(),
            final(self).well_formed(),
    {
        self.registry.register_all(assets)
    }

    /// Whether `id` names a registered mesh.
    pub fn contains(&self, id: MeshId) -> (r: bool)
        ensures
            r == (id@ < self.meshes().len()),
    {
        self.registry.contains(id)
    }

    /// The mesh `id` was issued for.
    pub fn mesh(&self, id: MeshId) -> (r: &MeshAsset)
        requires
            id@ < self.meshes().len(),
        ensures
            *r == self.meshes()[id@ as int],
    {
        self.registry.get(id)
    }

    /// How many requests wait for the next frame.
    pub fn pending(&self) -> (r: usize)
        ensures
            r == self.queue().len(),
    {
        self.requests.len()
    }

    pub fn phase(&self) -> (r: FramePhase)
        ensures
            r == self.phase_spec(),
    {
        self.phase
    }

    /// Queues a draw of `mesh` with `model`, after every earlier request.
    pub fn please_render(&mut self, mesh: MeshId, model: T)
        requires
            old(self).well_formed(),
            mesh@ < old(self).meshes().len(),
        ensures
            final(self).queue() == old(self).queue().push(RenderRequest { mesh, model }),
            final(self).meshes() == old(self).meshes(),
            final(self).phase_spec() == old(self).phase_spec(),
            final(self).well_formed(),
    {
        self.requests.push(RenderRequest { mesh, model });
    }

    /// Opens a frame and gives the state it starts from. Opening a frame while
    /// one is open is not allowed.
    pub fn begin_frame(&mut self) -> (setup: FrameSetup)
        requires
            old(self).well_formed(),
            old(self).phase_spec() == FramePhase::Idle,
        ensures
            setup == frame_setup_spec(),
            final(self).phase_spec() == FramePhase::Drawing,
            final(self).queue() == old(self).queue(),
            final(self).meshes() == old(self).meshes(),
            final(self).well_formed(),
    {
        self.phase = FramePhase::Drawing;
        FrameSetup {
            clear_color: CLEAR_COLOR,
            alpha_threshold: ALPHA_THRESHOLD,
            cull_faces: false,
            light_direction: Float4 { x: 0, y: 0, z: BITS_1_0, w: 0 },
            light_color: Float4 { x: BITS_1_0, y: BITS_1_0, z: BITS_1_0, w: BITS_1_0 },
        }
    }

    /// The draws of the open frame: one per request, in submission order.
    pub fn draw_commands(&self) -> (r: Vec<DrawCommand<T>>)
        requires
            self.well_formed(),
            self.phase_spec() == FramePhase::Drawing,
        ensures
            r@.len() == self.queue().len(),
            forall|i: int| 0 <= i < r@.len() ==> #[trigger] r@[i] == command_for(self.meshes(), self.queue()[i]),
    {
        let mut out: Vec<DrawCommand<T>> = Vec::new();
        let mut i: usize = 0;
        while i < self.requests.len()
            invariant
                i <= self.requests@.len(),
                out@.len() == i,
                forall|k: int| 0 <= k < self.requests@.len() ==> #[trigger] self.requests@[k].mesh@ < self.registry@.len(),
                forall|k: int| 0 <= k < i ==> #[trigger] out@[k] == command_for(self.registry@, self.requests@[k]),
            decreases self.requests@.len() - i,
        {
            let req = &self.requests[i];
            assert(req.mesh@ < self.registry@.len());
            let a = self.registry.get(req.mesh);
            let combiner = if a.has_texture() {
                Combiner::Textured
            } else {
                Combiner::Untextured
            };
            let kind = match &a.indices {
                Some(ix) => DrawKind::Indexed { count: ix.len() },
                None => DrawKind::Arrays { count: a.vertices.len() },
            };
            out.push(DrawCommand { mesh: req.mesh, model_view: req.model, material: a.material, combiner, kind });
            i = i + 1;
        }
        out
    }

    /// Closes the open frame. The queue is emptied whatever became of its
    /// draws.
    pub fn end_frame(&mut self)
        requires
            old(self).well_formed(),
            old(self).phase_spec() == FramePhase::Drawing,
        ensures
            final(self).phase_spec() == FramePhase::Idle,
            final(self).queue() == Seq::<RenderRequest<T>>::empty(),
            final(self).meshes() == old(self).meshes(),
            final(self).well_formed(),
    {
        self.requests.clear();
        self.phase = FramePhase::Idle;
    }

    /// Plans a whole frame: opens it, lists its draws, and closes it.
    pub fn render(&mut self) -> (r: (FrameSetup, Vec<DrawCommand<T>>))
        requires
            old(self).well_formed(),
            old(self).phase_spec() == FramePhase::Idle,
        ensures
            r.0 == frame_setup_spec(),
            r.1@.len() == old(self).queue().len(),
            forall|i: int| 0 <= i < r.1@.len() ==> #[trigger] r.1@[i] == command_for(old(self).meshes(), old(self).queue()[i]),
            final(self).phase_spec() == FramePhase::Idle,
            final(self).queue() == Seq::<RenderRequest<T>>::empty(),
            final(self).meshes() == old(self).meshes(),
            final(self).well_formed(),
    {
        let setup = self.begin_frame();
        let draws = self.draw_commands();
        self.end_frame();
        (setup, draws)
    }
}

} // verus!
