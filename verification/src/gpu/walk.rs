//! The walk over one submit's commands: per-draw state is gathered command by command
//! and closed into a pass at each draw.

use vstd::prelude::*;

use crate::gpu::commands::{BackendCmd, IndexType, ScissorRect, Tiling, ViewportRect};
use crate::gpu::resources::{lookup, HostPipeline, Resources, ResourcesView};

verus! {

broadcast use vstd::std_specs::hash::group_hash_axioms;

/// The draw a pass ends in.
#[derive(Clone, Copy, Debug, PartialEq, Eq, Structural)]
pub enum DrawCall {
    Auto { vertex_count: u32 },
    Indexed { buffer: u64, index_count: u32, index_type: IndexType },
}

#[derive(Clone, Copy, Debug, PartialEq, Eq, Structural)]
pub struct VertexBinding {
    pub slot: u32,
    pub buffer: u64,
    pub stride: u32,
}

/// One vertex stream a shader fetches by itself: its buffer, and the four words the
/// shader reads about it from the push constants at `pc_offset`.
#[derive(Clone, Copy, Debug, PartialEq, Eq, Structural)]
pub struct StorageBind {
    pub set: u32,
    pub binding: u32,
    pub buffer: u64,
    pub num_records: u32,
    pub stride: u32,
    pub dst_sel: u32,
    pub format: u32,
    pub pc_offset: u32,
}

#[derive(Clone, Copy, Debug, PartialEq, Eq, Structural)]
pub struct ConstBind {
    pub set: u32,
    pub binding: u32,
    pub buffer: u64,
}

#[derive(Clone, Copy, Debug, PartialEq, Eq, Structural)]
pub struct TextureBind {
    pub set: u32,
    pub binding: u32,
    pub view: u64,
    pub sampler: u64,
}

/// What a pass draws into.
#[derive(Clone, Copy, Debug, PartialEq, Eq, Structural)]
pub enum PassTarget {
    Videoout,
    RenderTarget(u32),
}

/// One resolved draw.
#[derive(Debug)]
pub struct RecordedPass {
    pub target: PassTarget,
    pub pipeline: u64,
    pub pipeline_layout: u64,
    pub set_layout: Option<u64>,
    pub draw: DrawCall,
    pub vertex_buffers: Vec<VertexBinding>,
    pub storage_binds: Vec<StorageBind>,
    pub const_binds: Vec<ConstBind>,
    pub texture_binds: Vec<TextureBind>,
    pub viewport: Option<ViewportRect>,
    pub scissor: Option<ScissorRect>,
}

#[verifier::ext_equal]
pub struct PassView {
    pub target: PassTarget,
    pub pipeline: u64,
    pub pipeline_layout: u64,
    pub set_layout: Option<u64>,
    pub draw: DrawCall,
    pub vertex_buffers: Seq<VertexBinding>,
    pub storage_binds: Seq<StorageBind>,
    pub const_binds: Seq<ConstBind>,
    pub texture_binds: Seq<TextureBind>,
    pub viewport: Option<ViewportRect>,
    pub scissor: Option<ScissorRect>,
}

impl View for RecordedPass {
    type V = PassView;

    open spec fn view(&self) -> PassView {
        PassView {
            target: self.target,
            pipeline: self.pipeline,
            pipeline_layout: self.pipeline_layout,
            set_layout: self.set_layout,
            draw: self.draw,
            vertex_buffers: self.vertex_buffers@,
            storage_binds: self.storage_binds@,
            const_binds: self.const_binds@,
            texture_binds: self.texture_binds@,
            viewport: self.viewport,
            scissor: self.scissor,
        }
    }
}

/// A render target to copy back to guest memory once the list has run.
#[derive(Clone, Copy, Debug, PartialEq, Eq, Structural)]
pub struct Readback {
    pub id: u32,
    pub addr: u64,
    pub size: u64,
    pub pitch: u32,
    pub tiling: Tiling,
}

/// A render target to write to a picture file once the list has run.
#[derive(Debug)]
pub struct RtDump {
    pub id: u32,
    pub path: String,
}

/// The state of a walk.
pub struct Walk {
    pub bound: Option<HostPipeline>,
    pub vertex_buffers: Vec<VertexBinding>,
    pub storage_binds: Vec<StorageBind>,
    pub const_binds: Vec<ConstBind>,
    pub texture_binds: Vec<TextureBind>,
    pub viewport: Option<ViewportRect>,
    pub scissor: Option<ScissorRect>,
    pub current_rt: Option<u32>,
    pub passes: Vec<RecordedPass>,
    pub readbacks: Vec<Readback>,
    pub rt_dumps: Vec<RtDump>,
}

#[verifier::ext_equal]
pub struct WalkView {
    pub bound: Option<HostPipeline>,
    pub vertex_buffers: Seq<VertexBinding>,
    pub storage_binds: Seq<StorageBind>,
    pub const_binds: Seq<ConstBind>,
    pub texture_binds: Seq<TextureBind>,
    pub viewport: Option<ViewportRect>,
    pub scissor: Option<ScissorRect>,
    pub current_rt: Option<u32>,
    pub passes: Seq<PassView>,
    pub readbacks: Seq<Readback>,
    pub rt_dumps: Seq<(u32, Seq<char>)>,
}

/// The passes a list of recorded passes stands for.
pub open spec fn pass_views(passes: Seq<RecordedPass>) -> Seq<PassView> {
    Seq::new(passes.len(), |i: int| passes[i]@)
}

impl View for Walk {
    type V = WalkView;

    open spec fn view(&self) -> WalkView {
        WalkView {
            bound: self.bound,
            vertex_buffers: self.vertex_buffers@,
            storage_binds: self.storage_binds@,
            const_binds: self.const_binds@,
            texture_binds: self.texture_binds@,
            viewport: self.viewport,
            scissor: self.scissor,
            current_rt: self.current_rt,
            passes: pass_views(self.passes@),
            readbacks: self.readbacks@,
            rt_dumps: Seq::new(
                self.rt_dumps@.len(),
                |i: int| (self.rt_dumps@[i].id, self.rt_dumps@[i].path@),
            ),
        }
    }
}

/// The walk before the first command.
pub open spec fn walk_start() -> WalkView {
    WalkView {
        bound: None,
        vertex_buffers: Seq::empty(),
        storage_binds: Seq::empty(),
        const_binds: Seq::empty(),
        texture_binds: Seq::empty(),
        viewport: None,
        scissor: None,
        current_rt: None,
        passes: Seq::empty(),
        readbacks: Seq::empty(),
        rt_dumps: Seq::empty(),
    }
}

/// A pipeline is bound, and every binding it declares has arrived.
pub open spec fn guards_ok(
    pipeline: Option<u64>,
    needs_const: u32,
    has_const: nat,
    needs_storage: u32,
    has_storage: nat,
    needs_texture: u32,
    has_texture: nat,
) -> bool {
    &&& pipeline is Some
    &&& has_const >= needs_const
    &&& has_storage >= needs_storage
    &&& has_texture >= needs_texture
}

/// Whether a draw may be recorded: a declared binding that did not arrive would be read
/// unwritten, and one of several is not enough.
pub fn draw_guards_ok(
    pipeline: Option<u64>,
    needs_const: u32,
    has_const: usize,
    needs_storage: u32,
    has_storage: usize,
    needs_texture: u32,
    has_texture: usize,
) -> (ok: bool)
    ensures
        ok == guards_ok(
            pipeline,
            needs_const,
            has_const as nat,
            needs_storage,
            has_storage as nat,
            needs_texture,
            has_texture as nat,
        ),
{
    pipeline.is_some() && has_const >= needs_const as usize && has_storage
        >= needs_storage as usize && has_texture >= needs_texture as usize
}

/// The walk's state lets a draw be recorded.
pub open spec fn can_draw(w: WalkView) -> bool {
    &&& w.bound is Some
    &&& w.const_binds.len() >= w.bound->0.needs_const
    &&& w.storage_binds.len() >= w.bound->0.needs_storage
    &&& w.texture_binds.len() >= w.bound->0.needs_texture
}

/// The pass a draw closes.
pub open spec fn closed_pass(w: WalkView, draw: DrawCall) -> PassView {
    PassView {
        target: match w.current_rt {
            Some(id) => PassTarget::RenderTarget(id),
            None => PassTarget::Videoout,
        },
        pipeline: w.bound->0.pipeline,
        pipeline_layout: w.bound->0.layout,
        set_layout: w.bound->0.set_layout,
        draw,
        vertex_buffers: w.vertex_buffers,
        storage_binds: w.storage_binds,
        const_binds: w.const_binds,
        texture_binds: w.texture_binds,
        viewport: w.viewport,
        scissor: w.scissor,
    }
}

/// Everything that belongs to one draw is dropped; the bound pipeline stays.
pub open spec fn cleared(w: WalkView) -> WalkView {
    WalkView {
        vertex_buffers: Seq::empty(),
        storage_binds: Seq::empty(),
        const_binds: Seq::empty(),
        texture_binds: Seq::empty(),
        viewport: None,
        scissor: None,
        current_rt: None,
        ..w
    }
}

/// A draw: it is recorded where the state allows it, and the per-draw state is dropped
/// either way.
pub open spec fn draw_step(w: WalkView, draw: Option<DrawCall>) -> WalkView {
    match draw {
        Some(draw) if can_draw(w) => cleared(
            WalkView { passes: w.passes.push(closed_pass(w, draw)), ..w },
        ),
        _ => cleared(w),
    }
}

/// The position of the bind at `binding`, if there is one.
pub open spec fn bind_at(binds: Seq<TextureBind>, binding: u32) -> Option<int>
    decreases binds.len(),
{
    if binds.len() == 0 {
        None
    } else {
        match bind_at(binds.drop_last(), binding) {
            Some(i) => Some(i),
            None => if binds.last().binding == binding {
                Some(binds.len() - 1)
            } else {
                None
            },
        }
    }
}

/// One bind per binding: a second bind of a binding takes the place of the first.
pub open spec fn bind_texture(binds: Seq<TextureBind>, tb: TextureBind) -> Seq<TextureBind> {
    match bind_at(binds, tb.binding) {
        Some(i) => binds.update(i, tb),
        None => binds.push(tb),
    }
}

/// The view an image id names: a sampled image's, else a render target's.
pub open spec fn image_view(res: ResourcesView, id: u32) -> Option<u64> {
    if res.images.contains_key(id) {
        Some(res.images[id].view)
    } else if res.render_targets.contains_key(id) {
        Some(res.render_targets[id].view)
    } else {
        None
    }
}

/// The walk after `cmd`, with the tables as they were when it was met.
pub open spec fn walk_step(res: ResourcesView, w: WalkView, cmd: BackendCmd) -> WalkView {
    match cmd {
        BackendCmd::BindPipeline { id } => WalkView { bound: lookup(res.pipelines, id), ..w },
        BackendCmd::DrawAuto { vertex_count } => draw_step(
            w,
            Some(DrawCall::Auto { vertex_count }),
        ),
        BackendCmd::DrawIndexed { id, index_count, index_type } => draw_step(
            w,
            match lookup(res.buffers, id) {
                Some(b) => Some(
                    DrawCall::Indexed { buffer: b.pooled.buffer, index_count, index_type },
                ),
                None => None,
            },
        ),
        BackendCmd::BindVertexBuffer { slot, id, stride } => match lookup(res.buffers, id) {
            Some(b) => WalkView {
                vertex_buffers: w.vertex_buffers.push(
                    VertexBinding { slot, buffer: b.pooled.buffer, stride },
                ),
                ..w
            },
            None => w,
        },
        BackendCmd::BindStorageBuffer {
            set,
            binding,
            id,
            num_records,
            stride,
            dst_sel,
            format,
            pc_offset,
        } => match lookup(res.buffers, id) {
            Some(b) => WalkView {
                storage_binds: w.storage_binds.push(
                    StorageBind {
                        set,
                        binding,
                        buffer: b.pooled.buffer,
                        num_records,
                        stride,
                        dst_sel,
                        format,
                        pc_offset,
                    },
                ),
                ..w
            },
            None => w,
        },
        BackendCmd::BindConstBuffer { set, binding, id } => match lookup(res.buffers, id) {
            Some(b) => WalkView {
                const_binds: w.const_binds.push(
                    ConstBind { set, binding, buffer: b.pooled.buffer },
                ),
                ..w
            },
            None => w,
        },
        BackendCmd::BindTexture { set, binding, image_id, sampler_id } => match (
            image_view(res, image_id),
            lookup(res.samplers, sampler_id),
        ) {
            (Some(view), Some(sampler)) => WalkView {
                texture_binds: bind_texture(
                    w.texture_binds,
                    TextureBind { set, binding, view, sampler },
                ),
                ..w
            },
            _ => w,
        },
        BackendCmd::SetViewport(v) => WalkView { viewport: Some(v), ..w },
        BackendCmd::SetScissor(s) => WalkView { scissor: Some(s), ..w },
        BackendCmd::SetRenderTarget { id } => WalkView { current_rt: Some(id), ..w },
        BackendCmd::ReadbackRenderTarget { id, addr, size, pitch, tiling } => WalkView {
            readbacks: w.readbacks.push(Readback { id, addr, size, pitch, tiling }),
            ..w
        },
        BackendCmd::DumpRenderTargetPng { id, path } => WalkView {
            rt_dumps: w.rt_dumps.push((id, path@)),
            ..w
        },
        _ => w,
    }
}

impl Walk {
    pub fn new() -> (walk: Self)
        ensures
            walk@ == walk_start(),
    {
        let walk = Walk {
            bound: None,
            vertex_buffers: Vec::new(),
            storage_binds: Vec::new(),
            const_binds: Vec::new(),
            texture_binds: Vec::new(),
            viewport: None,
            scissor: None,
            current_rt: None,
            passes: Vec::new(),
            readbacks: Vec::new(),
            rt_dumps: Vec::new(),
        };
        assert(walk@ =~= walk_start());
        walk
    }

    /// Close the draw the walk has gathered, `None` where its index buffer is missing.
    fn close(&mut self, draw: Option<DrawCall>)
        ensures
            final(self)@ == draw_step(old(self)@, draw),
    {
        let mut vertex_buffers: Vec<VertexBinding> = Vec::new();
        let mut storage_binds: Vec<StorageBind> = Vec::new();
        let mut const_binds: Vec<ConstBind> = Vec::new();
        let mut texture_binds: Vec<TextureBind> = Vec::new();
        std::mem::swap(&mut vertex_buffers, &mut self.vertex_buffers);
        std::mem::swap(&mut storage_binds, &mut self.storage_binds);
        std::mem::swap(&mut const_binds, &mut self.const_binds);
        std::mem::swap(&mut texture_binds, &mut self.texture_binds);
        let viewport = self.viewport.take();
        let scissor = self.scissor.take();
        let target = match self.current_rt.take() {
            Some(id) => PassTarget::RenderTarget(id),
            None => PassTarget::Videoout,
        };
        if let (Some(p), Some(draw)) = (self.bound, draw) {
            if draw_guards_ok(
                Some(p.pipeline),
                p.needs_const,
                const_binds.len(),
                p.needs_storage,
                storage_binds.len(),
                p.needs_texture,
                texture_binds.len(),
            ) {
                let pass = RecordedPass {
                    target,
                    pipeline: p.pipeline,
                    pipeline_layout: p.layout,
                    set_layout: p.set_layout,
                    draw,
                    vertex_buffers,
                    storage_binds,
                    const_binds,
                    texture_binds,
                    viewport,
                    scissor,
                };
                let ghost view = pass@;
                assert(view == closed_pass(old(self)@, draw));
                self.passes.push(pass);
                assert(pass_views(self.passes@) =~= pass_views(old(self).passes@).push(view));
            }
        }
        assert(self@ =~= draw_step(old(self)@, draw));
    }

    fn bind_texture(&mut self, tb: TextureBind)
        ensures
            final(self)@ == (WalkView {
                texture_binds: bind_texture(old(self)@.texture_binds, tb),
                ..old(self)@
            }),
    {
        let n: usize = self.texture_binds.len();
        let mut i: usize = 0;
        assert(self.texture_binds@.take(0) == Seq::<TextureBind>::empty());
        while i < n
            invariant
                *self == *old(self),
                i <= n,
                n == self.texture_binds@.len(),
                bind_at(self.texture_binds@.take(i as int), tb.binding) is None,
            decreases n - i,
        {
            let ghost part = self.texture_binds@.take(i + 1);
            assert(part.drop_last() == self.texture_binds@.take(i as int));
            if self.texture_binds[i].binding == tb.binding {
                proof {
                    lemma_bind_at_prefix(self.texture_binds@, i + 1, tb.binding);
                }
                self.texture_binds.set(i, tb);
                assert(self@ =~= (WalkView {
                    texture_binds: bind_texture(old(self)@.texture_binds, tb),
                    ..old(self)@
                }));
                return;
            }
            i = i + 1;
        }
        assert(self.texture_binds@.take(n as int) == self.texture_binds@);
        self.texture_binds.push(tb);
        assert(self@ =~= (WalkView {
            texture_binds: bind_texture(old(self)@.texture_binds, tb),
            ..old(self)@
        }));
    }

    /// Take one command into the walk.
    pub fn step(&mut self, res: &Resources, cmd: &BackendCmd)
        requires
            res.wf(),
        ensures
            final(self)@ == walk_step(res@, old(self)@, *cmd),
    {
        match cmd {
            BackendCmd::BindPipeline { id } => {
                self.bound = match res.pipelines.get(id) {
                    Some(p) => Some(*p),
                    None => None,
                };
            },
            BackendCmd::DrawAuto { vertex_count } => {
                self.close(Some(DrawCall::Auto { vertex_count: *vertex_count }));
            },
            BackendCmd::DrawIndexed { id, index_count, index_type } => {
                let draw = match res.buffers.get(id) {
                    Some(b) => Some(
                        DrawCall::Indexed {
                            buffer: b.pooled.buffer,
                            index_count: *index_count,
                            index_type: *index_type,
                        },
                    ),
                    None => None,
                };
                self.close(draw);
            },
            BackendCmd::BindVertexBuffer { slot, id, stride } => {
                if let Some(b) = res.buffers.get(id) {
                    self.vertex_buffers.push(
                        VertexBinding { slot: *slot, buffer: b.pooled.buffer, stride: *stride },
                    );
                }
            },
            BackendCmd::BindStorageBuffer {
                set,
                binding,
                id,
                num_records,
                stride,
                dst_sel,
                format,
                pc_offset,
            } => {
                if let Some(b) = res.buffers.get(id) {
                    self.storage_binds.push(
                        StorageBind {
                            set: *set,
                            binding: *binding,
                            buffer: b.pooled.buffer,
                            num_records: *num_records,
                            stride: *stride,
                            dst_sel: *dst_sel,
                            format: *format,
                            pc_offset: *pc_offset,
                        },
                    );
                }
            },
            BackendCmd::BindConstBuffer { set, binding, id } => {
                if let Some(b) = res.buffers.get(id) {
                    self.const_binds.push(
                        ConstBind { set: *set, binding: *binding, buffer: b.pooled.buffer },
                    );
                }
            },
            BackendCmd::BindTexture { set, binding, image_id, sampler_id } => {
                let view = match res.images.get(image_id) {
                    Some(img) => Some(img.view),
                    None => match res.render_targets.get(image_id) {
                        Some(rt) => Some(rt.view),
                        None => None,
                    },
                };
                if let (Some(view), Some(sampler)) = (view, res.samplers.get(sampler_id)) {
                    self.bind_texture(
                        TextureBind { set: *set, binding: *binding, view, sampler: *sampler },
                    );
                }
            },
            BackendCmd::SetViewport(v) => {
                self.viewport = Some(*v);
            },
            BackendCmd::SetScissor(s) => {
                self.scissor = Some(*s);
            },
            BackendCmd::SetRenderTarget { id } => {
                self.current_rt = Some(*id);
            },
            BackendCmd::ReadbackRenderTarget { id, addr, size, pitch, tiling } => {
                self.readbacks.push(
                    Readback {
                        id: *id,
                        addr: *addr,
                        size: *size,
                        pitch: *pitch,
                        tiling: *tiling,
                    },
                );
            },
            BackendCmd::DumpRenderTargetPng { id, path } => {
                self.rt_dumps.push(RtDump { id: *id, path: path.clone() });
            },
            _ => {},
        }
        assert(self@ =~= walk_step(res@, old(self)@, *cmd));
    }
}

/// A bind found in a prefix is the one found in the whole.
proof fn lemma_bind_at_prefix(binds: Seq<TextureBind>, n: int, binding: u32)
    requires
        0 <= n <= binds.len(),
        bind_at(binds.take(n), binding) is Some,
    ensures
        bind_at(binds, binding) == bind_at(binds.take(n), binding),
    decreases binds.len(),
{
    if n == binds.len() {
        assert(binds.take(n) == binds);
    } else {
        assert(binds.drop_last().take(n) == binds.take(n));
        lemma_bind_at_prefix(binds.drop_last(), n, binding);
    }
}

/// A draw may be recorded exactly where a pipeline is bound and no binding that it declares is
/// missing.
pub proof fn law_guards(
    pipeline: Option<u64>,
    needs_const: u32,
    has_const: nat,
    needs_storage: u32,
    has_storage: nat,
    needs_texture: u32,
    has_texture: nat,
)
    ensures
        !guards_ok(
            pipeline,
            needs_const,
            has_const,
            needs_storage,
            has_storage,
            needs_texture,
            has_texture,
        ) <==> pipeline is None || has_const < needs_const || has_storage < needs_storage
            || has_texture < needs_texture,
{
}

} // verus!
