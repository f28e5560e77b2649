//! The display backend: one command list after the other.
//!
//! For each list the caller
//! - recycles what `begin_list` hands it,
//! - goes through the commands, asking `request`, doing what is asked, and giving the
//!   outcome to `replay_command`,
//! - issues the plan `close_list` makes of the walk, if it makes one, waits for the
//!   fence, and says with `finish_submit` whether it signalled,
//! - and does the plan's readbacks and dumps, each as `readback` or
//!   `dump_render_target_png` decides.

use vstd::prelude::*;

use crate::gpu::buffer_pool::PooledBuffer;
use crate::gpu::commands::BackendCmd;
use crate::gpu::passes::{
    record_all, record_passes, recording_start, roll_back, rolled_back, Knobs, SubmitPlan,
};
use crate::gpu::record::binds_countable;
use crate::gpu::resources::{
    answers, apply_cmd, countable, request_for, Reply, Request, Resources, ResourcesView,
};
use crate::gpu::surface::{guest_surface_layout, surface_layout, SurfaceLayout};
use crate::gpu::vk::ImageLayout;
use crate::gpu::walk::{
    bind_at, bind_texture, can_draw, walk_start, walk_step, Readback, RtDump, TextureBind, Walk,
    WalkView,
};
use crate::table::Table;

verus! {

broadcast use vstd::std_specs::hash::group_hash_axioms;

/// A framebuffer the guest registered.
#[derive(Clone, Copy, Debug, PartialEq, Eq, Structural)]
pub struct DisplayBuffer {
    pub guest_ptr: u64,
    pub width: u32,
    pub height: u32,
    pub pixel_format: u32,
}

/// The display backend's state.
pub struct AshBackend {
    pub resources: Resources,
    pub buffers: Table<(i32, u32), DisplayBuffer>,
    pub current_target: Option<(i32, u32)>,
    /// The flip whose guest waits for its vertical blank, by the caller's number for it.
    pub pending_vsync_signal: Option<u64>,
    pub next_id: u32,
    /// A draw has filled the videoout target; presents show it from then on.
    pub embedded_drawn: bool,
    pub videoout_cleared_this_frame: bool,
    /// There is a draw fence that no pending submit uses.
    pub has_draw_fence: bool,
}

#[verifier::ext_equal]
pub struct BackendView {
    pub resources: ResourcesView,
    pub buffers: Map<(i32, u32), DisplayBuffer>,
    pub current_target: Option<(i32, u32)>,
    pub pending_vsync_signal: Option<u64>,
    pub next_id: u32,
    pub embedded_drawn: bool,
    pub videoout_cleared_this_frame: bool,
    pub has_draw_fence: bool,
}

impl View for AshBackend {
    type V = BackendView;

    open spec fn view(&self) -> BackendView {
        BackendView {
            resources: self.resources@,
            buffers: self.buffers@,
            current_target: self.current_target,
            pending_vsync_signal: self.pending_vsync_signal,
            next_id: self.next_id,
            embedded_drawn: self.embedded_drawn,
            videoout_cleared_this_frame: self.videoout_cleared_this_frame,
            has_draw_fence: self.has_draw_fence,
        }
    }
}

/// The tables after a list of commands with these replies.
pub open spec fn replay_resources(
    res: ResourcesView,
    cmds: Seq<BackendCmd>,
    replies: Seq<Reply>,
) -> ResourcesView
    decreases cmds.len(),
{
    if cmds.len() == 0 {
        res
    } else {
        apply_cmd(
            replay_resources(res, cmds.drop_last(), replies.drop_last()),
            cmds.last(),
            replies.last(),
        )
    }
}

/// The walk after a list of commands with these replies.
pub open spec fn replay_walk(
    res: ResourcesView,
    walk: WalkView,
    cmds: Seq<BackendCmd>,
    replies: Seq<Reply>,
) -> WalkView
    decreases cmds.len(),
{
    if cmds.len() == 0 {
        walk
    } else {
        walk_step(
            replay_resources(res, cmds.drop_last(), replies.drop_last()),
            replay_walk(res, walk, cmds.drop_last(), replies.drop_last()),
            cmds.last(),
        )
    }
}

/// Each command has a reply that its request can have.
pub open spec fn answered(res: ResourcesView, cmds: Seq<BackendCmd>, replies: Seq<Reply>) -> bool
    decreases cmds.len(),
{
    &&& cmds.len() == replies.len()
    &&& cmds.len() > 0 ==> {
        &&& answered(res, cmds.drop_last(), replies.drop_last())
        &&& countable(cmds.last())
        &&& answers(
            request_for(
                replay_resources(res, cmds.drop_last(), replies.drop_last()),
                cmds.last(),
            ),
            replies.last(),
        )
    }
}

/// What is left to do for a list once it has been walked.
pub struct ListPlan {
    pub submit: SubmitPlan,
    pub readbacks: Vec<Readback>,
    pub rt_dumps: Vec<RtDump>,
}

/// What is to be done about a requested readback.
#[derive(Clone, Copy, Debug, PartialEq, Eq, Structural)]
pub enum ReadbackPlan {
    /// No such render target.
    Unknown,
    /// Its draw did not run: there is nothing in it to read.
    NotRendered,
    /// The guest surface cannot be expressed.  Only the first refusal of a target is
    /// worth a message.
    Refused { first: bool },
    /// Copy the target out, pack it, and write at most `size` bytes at `addr`.
    Copy { image: u64, width: u32, height: u32, surface: SurfaceLayout, addr: u64, size: u64 },
}

/// What is to be done about a requested picture of a render target.
#[derive(Clone, Copy, Debug, PartialEq, Eq, Structural)]
pub enum DumpPlan {
    Unknown,
    NotRendered,
    Copy { image: u64, width: u32, height: u32 },
}

pub open spec fn readback_plan(res: ResourcesView, rb: Readback) -> ReadbackPlan {
    if !res.render_targets.contains_key(rb.id) {
        ReadbackPlan::Unknown
    } else {
        let rt = res.render_targets[rb.id];
        if rt.current_layout != ImageLayout::ShaderReadOnly {
            ReadbackPlan::NotRendered
        } else {
            match surface_layout(rt.width, rt.height, rb.pitch, rb.tiling) {
                None => ReadbackPlan::Refused { first: !res.readback_refused.contains(rb.id) },
                Some(surface) => ReadbackPlan::Copy {
                    image: rt.image,
                    width: rt.width,
                    height: rt.height,
                    surface,
                    addr: rb.addr,
                    size: rb.size,
                },
            }
        }
    }
}

impl AshBackend {
    pub open spec fn wf(&self) -> bool {
        self.resources.wf() && self.buffers.wf()
    }

    pub fn new() -> (backend: Self)
        ensures
            backend.wf(),
            backend@ == (BackendView {
                resources: ResourcesView {
                    pipelines: Map::empty(),
                    buffers: Map::empty(),
                    images: Map::empty(),
                    render_targets: Map::empty(),
                    samplers: Map::empty(),
                    imported: Map::empty(),
                    readback_refused: Set::empty(),
                    pending_recycle: Seq::empty(),
                },
                buffers: Map::empty(),
                current_target: None,
                pending_vsync_signal: None,
                next_id: 1,
                embedded_drawn: false,
                videoout_cleared_this_frame: false,
                has_draw_fence: false,
            }),
    {
        AshBackend {
            resources: Resources::new(),
            buffers: Table::new(),
            current_target: None,
            pending_vsync_signal: None,
            next_id: 1,
            embedded_drawn: false,
            videoout_cleared_this_frame: false,
            has_draw_fence: false,
        }
    }

    /// Begin a list: the buffers the list before released may now be recycled.
    pub fn begin_list(&mut self) -> (recycle: Vec<PooledBuffer>)
        requires
            old(self).wf(),
        ensures
            final(self).wf(),
            recycle@ == old(self)@.resources.pending_recycle,
            final(self)@ == (BackendView {
                resources: ResourcesView {
                    pending_recycle: Seq::empty(),
                    ..old(self)@.resources
                },
                ..old(self)@
            }),
    {
        self.resources.begin_list()
    }

    /// What the device has to do for `cmd`.
    pub fn request(&self, cmd: &BackendCmd) -> (r: Request)
        requires
            self.wf(),
        ensures
            r == request_for(self@.resources, *cmd),
    {
        self.resources.request(cmd)
    }

    /// Take one command, and what came of its request, into the walk and the tables.
    pub fn replay_command(&mut self, walk: &mut Walk, cmd: &BackendCmd, reply: Reply)
        requires
            old(self).wf(),
            countable(*cmd),
            answers(request_for(old(self)@.resources, *cmd), reply),
        ensures
            final(self).wf(),
            final(walk)@ == walk_step(old(self)@.resources, old(walk)@, *cmd),
            final(self)@ == (BackendView {
                resources: apply_cmd(old(self)@.resources, *cmd, reply),
                ..old(self)@
            }),
    {
        walk.step(&self.resources, cmd);
        self.resources.apply(cmd, reply);
    }

    /// Walk a whole list whose requests have been answered already.
    pub fn replay_command_list(&mut self, cmds: &Vec<BackendCmd>, replies: &Vec<Reply>) -> (walk:
        Walk)
        requires
            old(self).wf(),
            answered(old(self)@.resources, cmds@, replies@),
        ensures
            final(self).wf(),
            walk@ == replay_walk(old(self)@.resources, walk_start(), cmds@, replies@),
            final(self)@ == (BackendView {
                resources: replay_resources(old(self)@.resources, cmds@, replies@),
                ..old(self)@
            }),
    {
        let mut walk = Walk::new();
        let ghost res = self@.resources;
        let mut i: usize = 0;
        assert(cmds@.take(0) == Seq::<BackendCmd>::empty());
        while i < cmds.len()
            invariant
                self.wf(),
                i <= cmds@.len(),
                res == old(self)@.resources,
                answered(res, cmds@, replies@),
                walk@ == replay_walk(
                    res,
                    walk_start(),
                    cmds@.take(i as int),
                    replies@.take(i as int),
                ),
                self@ == (BackendView {
                    resources: replay_resources(
                        res,
                        cmds@.take(i as int),
                        replies@.take(i as int),
                    ),
                    ..old(self)@
                }),
            decreases cmds@.len() - i,
        {
            proof {
                lemma_answered_at(res, cmds@, replies@, i + 1);
                assert(cmds@.take(i + 1).drop_last() == cmds@.take(i as int));
                assert(replies@.take(i + 1).drop_last() == replies@.take(i as int));
            }
            self.replay_command(&mut walk, &cmds[i], replies[i]);
            i = i + 1;
        }
        assert(cmds@.take(i as int) == cmds@);
        assert(replies@.take(i as int) == replies@);
        walk
    }

    /// Record what a walk has gathered.  A list with nothing to draw submits nothing,
    /// and reads nothing back.
    pub fn close_list(&mut self, walk: Walk, knobs: Knobs) -> (plan: Option<ListPlan>)
        requires
            old(self).wf(),
            forall|i: int|
                0 <= i < walk@.passes.len() ==> binds_countable(#[trigger] walk@.passes[i]),
            walk@.passes.len() <= u32::MAX,
        ensures
            final(self).wf(),
            walk@.passes.len() == 0 ==> plan is None && *final(self) == *old(self),
            walk@.passes.len() > 0 ==> {
                let r = record_all(
                    recording_start(
                        old(self)@.resources.render_targets,
                        old(self)@.videoout_cleared_this_frame,
                    ),
                    walk@.passes,
                    knobs,
                );
                &&& plan is Some
                &&& plan->0.submit.steps@ == r.steps
                &&& plan->0.submit.touched@ == r.touched
                &&& plan->0.submit.videoout_drawn == r.videoout_drawn
                &&& plan->0.submit.cleared_at_entry == old(self)@.videoout_cleared_this_frame
                &&& plan->0.submit.passes == walk@.passes.len()
                &&& plan->0.submit.draws == r.draws
                &&& plan->0.submit.transients == r.transients
                &&& plan->0.submit.descriptor_pools == r.descriptor_pools
                &&& plan->0.readbacks@ == walk@.readbacks
                &&& plan->0.rt_dumps@ == walk.rt_dumps@
                &&& final(self)@ == (BackendView {
                    resources: ResourcesView {
                        render_targets: r.render_targets,
                        ..old(self)@.resources
                    },
                    videoout_cleared_this_frame: r.cleared,
                    ..old(self)@
                })
            },
    {
        if walk.passes.len() == 0 {
            return None;
        }
        assert forall|i: int| 0 <= i < walk.passes@.len() implies binds_countable(
            #[trigger] walk.passes@[i]@,
        ) by {
            assert(walk@.passes[i] == walk.passes@[i]@);
        }
        let submit = record_passes(
            &mut self.resources.render_targets,
            &mut self.videoout_cleared_this_frame,
            &walk.passes,
            knobs,
        );
        Some(ListPlan { submit, readbacks: walk.readbacks, rt_dumps: walk.rt_dumps })
    }

    /// Whether the submit needs a new fence.  From here on there is one.
    pub fn ensure_draw_fence(&mut self) -> (make: bool)
        requires
            old(self).wf(),
        ensures
            final(self).wf(),
            make == !old(self)@.has_draw_fence,
            final(self)@ == (BackendView { has_draw_fence: true, ..old(self)@ }),
    {
        let make: bool = !self.has_draw_fence;
        self.has_draw_fence = true;
        make
    }

    /// Take note of how the wait for a submit's fence ended.  A fence that did not
    /// signal stays with its submit; the next list gets another.
    pub fn finish_submit(&mut self, plan: &SubmitPlan, signalled: bool)
        requires
            old(self).wf(),
        ensures
            final(self).wf(),
            final(self)@ == (BackendView {
                resources: ResourcesView {
                    render_targets: if signalled {
                        old(self)@.resources.render_targets
                    } else {
                        rolled_back(old(self)@.resources.render_targets, plan.touched@)
                    },
                    ..old(self)@.resources
                },
                videoout_cleared_this_frame: old(self)@.videoout_cleared_this_frame && (signalled
                    || !plan.videoout_drawn || plan.cleared_at_entry),
                has_draw_fence: old(self)@.has_draw_fence && signalled,
                embedded_drawn: old(self)@.embedded_drawn || plan.videoout_drawn,
                ..old(self)@
            }),
    {
        if !signalled {
            roll_back(
                &mut self.resources.render_targets,
                &mut self.videoout_cleared_this_frame,
                plan,
            );
            self.has_draw_fence = false;
        }
        if plan.videoout_drawn {
            self.embedded_drawn = true;
        }
    }

    /// Decide a readback.  A surface that cannot be expressed is refused rather than
    /// filled with bytes nobody can decode.
    pub fn readback(&mut self, rb: Readback) -> (plan: ReadbackPlan)
        requires
            old(self).wf(),
        ensures
            final(self).wf(),
            plan == readback_plan(old(self)@.resources, rb),
            final(self)@ == (BackendView {
                resources: ResourcesView {
                    readback_refused: if plan is Refused {
                        old(self)@.resources.readback_refused.insert(rb.id)
                    } else {
                        old(self)@.resources.readback_refused
                    },
                    ..old(self)@.resources
                },
                ..old(self)@
            }),
    {
        let rt = match self.resources.render_targets.get(&rb.id) {
            Some(rt) => *rt,
            None => {
                return ReadbackPlan::Unknown;
            },
        };
        if rt.current_layout != ImageLayout::ShaderReadOnly {
            return ReadbackPlan::NotRendered;
        }
        match guest_surface_layout(rt.width, rt.height, rb.pitch, rb.tiling) {
            Some(surface) => ReadbackPlan::Copy {
                image: rt.image,
                width: rt.width,
                height: rt.height,
                surface,
                addr: rb.addr,
                size: rb.size,
            },
            None => {
                let first: bool = self.resources.readback_refused.insert(rb.id);
                assert(self@.resources =~= (ResourcesView {
                    readback_refused: old(self)@.resources.readback_refused.insert(rb.id),
                    ..old(self)@.resources
                }));
                ReadbackPlan::Refused { first }
            },
        }
    }

    /// Decide a picture of a render target.  No guest layout is involved: the picture is
    /// for a person to look at.
    pub fn dump_render_target_png(&self, id: u32) -> (plan: DumpPlan)
        requires
            self.wf(),
        ensures
            plan == (if !self@.resources.render_targets.contains_key(id) {
                DumpPlan::Unknown
            } else {
                let rt = self@.resources.render_targets[id];
                if rt.current_layout != ImageLayout::ShaderReadOnly {
                    DumpPlan::NotRendered
                } else {
                    DumpPlan::Copy { image: rt.image, width: rt.width, height: rt.height }
                }
            }),
    {
        match self.resources.render_targets.get(&id) {
            Some(rt) => {
                if rt.current_layout != ImageLayout::ShaderReadOnly {
                    DumpPlan::NotRendered
                } else {
                    DumpPlan::Copy { image: rt.image, width: rt.width, height: rt.height }
                }
            },
            None => DumpPlan::Unknown,
        }
    }

    /// The bytes of a packed surface that are written to the guest: never more than the
    /// range the guest gave.
    pub fn readback_len(size: u64, packed: usize) -> (n: usize)
        ensures
            n == (if size < packed {
                size as int
            } else {
                packed as int
            }),
    {
        if size < packed as u64 {
            size as usize
        } else {
            packed
        }
    }

    /// A fresh target number.
    pub fn create_target(&mut self) -> (id: u32)
        requires
            old(self).wf(),
            old(self)@.next_id < u32::MAX,
        ensures
            final(self).wf(),
            id == old(self)@.next_id,
            final(self)@ == (BackendView {
                next_id: (old(self)@.next_id + 1) as u32,
                ..old(self)@
            }),
    {
        let id: u32 = self.next_id;
        self.next_id = id + 1;
        id
    }
}

/// The part of a list that has been walked has its replies too.
proof fn lemma_answered_at(
    res: ResourcesView,
    cmds: Seq<BackendCmd>,
    replies: Seq<Reply>,
    n: int,
)
    requires
        answered(res, cmds, replies),
        0 < n <= cmds.len(),
    ensures
        countable(cmds[n - 1]),
        answers(
            request_for(
                replay_resources(res, cmds.take(n - 1), replies.take(n - 1)),
                cmds[n - 1],
            ),
            replies[n - 1],
        ),
        answered(res, cmds.take(n), replies.take(n)),
    decreases cmds.len(),
{
    if n == cmds.len() {
        assert(cmds.take(n - 1) == cmds.drop_last());
        assert(replies.take(n - 1) == replies.drop_last());
        assert(cmds.take(n) == cmds);
        assert(replies.take(n) == replies);
    } else {
        lemma_answered_at(res, cmds.drop_last(), replies.drop_last(), n);
        assert(cmds.drop_last().take(n - 1) == cmds.take(n - 1));
        assert(replies.drop_last().take(n - 1) == replies.take(n - 1));
        assert(cmds.drop_last().take(n) == cmds.take(n));
        assert(replies.drop_last().take(n) == replies.take(n));
    }
}

/// A list walked in two parts is walked as one: the second part goes on where the first
/// left the tables and the walk.
pub proof fn law_replay_in_parts(
    res: ResourcesView,
    walk: WalkView,
    a: Seq<BackendCmd>,
    b: Seq<BackendCmd>,
    ra: Seq<Reply>,
    rb: Seq<Reply>,
)
    requires
        a.len() == ra.len(),
        b.len() == rb.len(),
    ensures
        replay_resources(res, a + b, ra + rb) == replay_resources(
            replay_resources(res, a, ra),
            b,
            rb,
        ),
        replay_walk(res, walk, a + b, ra + rb) == replay_walk(
            replay_resources(res, a, ra),
            replay_walk(res, walk, a, ra),
            b,
            rb,
        ),
    decreases b.len(),
{
    if b.len() == 0 {
        assert(a + b == a);
        assert(ra + rb == ra);
    } else {
        assert((a + b).drop_last() == a + b.drop_last());
        assert((ra + rb).drop_last() == ra + rb.drop_last());
        law_replay_in_parts(res, walk, a, b.drop_last(), ra, rb.drop_last());
    }
}

/// A draw is recorded or dropped, but never changed by the draws before it: after it, no
/// per-draw state is left, and the passes before it stay as they are.
pub proof fn law_draws_are_independent(res: ResourcesView, walk: WalkView, cmd: BackendCmd)
    requires
        cmd is DrawAuto || cmd is DrawIndexed,
    ensures
        ({
            let after = walk_step(res, walk, cmd);
            &&& after.vertex_buffers.len() == 0
            &&& after.storage_binds.len() == 0
            &&& after.const_binds.len() == 0
            &&& after.texture_binds.len() == 0
            &&& after.viewport is None
            &&& after.scissor is None
            &&& after.current_rt is None
            &&& after.bound == walk.bound
            &&& after.passes == walk.passes || (after.passes.len() == walk.passes.len() + 1
                && after.passes.drop_last() == walk.passes && can_draw(walk))
        }),
{
    let after = walk_step(res, walk, cmd);
    if after.passes.len() == walk.passes.len() + 1 {
        assert(after.passes.drop_last() =~= walk.passes);
    }
}

/// A recorded draw has every binding its pipeline declares.
pub proof fn law_recorded_draws_are_complete(res: ResourcesView, walk: WalkView, cmd: BackendCmd)
    requires
        walk_step(res, walk, cmd).passes.len() > walk.passes.len(),
    ensures
        ({
            let pass = walk_step(res, walk, cmd).passes.last();
            &&& walk.bound matches Some(p)
            &&& pass.pipeline == p.pipeline
            &&& pass.const_binds.len() >= p.needs_const
            &&& pass.storage_binds.len() >= p.needs_storage
            &&& pass.texture_binds.len() >= p.needs_texture
        }),
{
}

/// Passes are recorded in the order of their draws: what a list has recorded is never
/// taken back or moved.
pub proof fn law_passes_in_order(
    res: ResourcesView,
    walk: WalkView,
    cmds: Seq<BackendCmd>,
    replies: Seq<Reply>,
)
    requires
        cmds.len() == replies.len(),
    ensures
        walk.passes.is_prefix_of(replay_walk(res, walk, cmds, replies).passes),
    decreases cmds.len(),
{
    if cmds.len() > 0 {
        law_passes_in_order(res, walk, cmds.drop_last(), replies.drop_last());
        let before = replay_walk(res, walk, cmds.drop_last(), replies.drop_last());
        let after = replay_walk(res, walk, cmds, replies);
        assert(before.passes.is_prefix_of(after.passes));
        assert(walk.passes =~= after.passes.subrange(0, walk.passes.len() as int)) by {
            assert(walk.passes =~= before.passes.subrange(0, walk.passes.len() as int));
            assert forall|i: int| 0 <= i < walk.passes.len() implies walk.passes[i]
                == after.passes[i] by {
                assert(before.passes[i] == before.passes.subrange(
                    0,
                    walk.passes.len() as int,
                )[i]);
                assert(after.passes.subrange(0, before.passes.len() as int)[i]
                    == before.passes[i]);
            }
        }
    }
}

/// No two texture binds of a draw share a binding.
pub open spec fn distinct_bindings(binds: Seq<TextureBind>) -> bool {
    forall|i: int, j: int|
        0 <= i < j < binds.len() ==> (#[trigger] binds[i]).binding != (#[trigger] binds[j]).binding
}

/// The bind that is found is at the binding, and one is found where there is one.
pub proof fn lemma_bind_at(binds: Seq<TextureBind>, binding: u32)
    ensures
        match bind_at(binds, binding) {
            Some(i) => 0 <= i < binds.len() && binds[i].binding == binding,
            None => forall|i: int|
                0 <= i < binds.len() ==> (#[trigger] binds[i]).binding != binding,
        },
    decreases binds.len(),
{
    if binds.len() > 0 {
        lemma_bind_at(binds.drop_last(), binding);
        match bind_at(binds.drop_last(), binding) {
            Some(i) => {
                assert(binds.drop_last()[i] == binds[i]);
            },
            None => {
                assert forall|i: int|
                    0 <= i < binds.len() && binds.last().binding != binding implies (
                #[trigger] binds[i]).binding != binding by {
                    if i < binds.len() - 1 {
                        assert(binds.drop_last()[i] == binds[i]);
                    }
                }
            },
        }
    }
}

/// However often a binding is bound before a draw, the draw has one texture for it: the
/// one bound last.
pub proof fn law_one_texture_per_binding(binds: Seq<TextureBind>, tb: TextureBind)
    requires
        distinct_bindings(binds),
    ensures
        distinct_bindings(bind_texture(binds, tb)),
        bind_texture(binds, tb).contains(tb),
        forall|other: TextureBind| #[trigger]
            binds.contains(other) && other.binding != tb.binding ==> bind_texture(
                binds,
                tb,
            ).contains(other),
{
    lemma_bind_at(binds, tb.binding);
    let after = bind_texture(binds, tb);
    match bind_at(binds, tb.binding) {
        Some(i) => {
            assert(after[i] == tb);
            assert forall|other: TextureBind| #[trigger]
                binds.contains(other) && other.binding != tb.binding implies after.contains(
                other,
            ) by {
                let k = choose|k: int| 0 <= k < binds.len() && binds[k] == other;
                assert(after[k] == other);
            }
        },
        None => {
            assert(after[binds.len() as int] == tb);
            assert forall|other: TextureBind| #[trigger]
                binds.contains(other) && other.binding != tb.binding implies after.contains(
                other,
            ) by {
                let k = choose|k: int| 0 <= k < binds.len() && binds[k] == other;
                assert(after[k] == other);
            }
        },
    }
}

/// What waits to be recycled keeps waiting while a list is walked.
proof fn lemma_waiting_buffers_stay(
    res: ResourcesView,
    cmds: Seq<BackendCmd>,
    replies: Seq<Reply>,
)
    requires
        cmds.len() == replies.len(),
    ensures
        res.pending_recycle.len() <= replay_resources(res, cmds, replies).pending_recycle.len(),
        forall|i: int|
            0 <= i < res.pending_recycle.len() ==> #[trigger] replay_resources(
                res,
                cmds,
                replies,
            ).pending_recycle[i] == res.pending_recycle[i],
    decreases cmds.len(),
{
    if cmds.len() > 0 {
        lemma_waiting_buffers_stay(res, cmds.drop_last(), replies.drop_last());
        let before = replay_resources(res, cmds.drop_last(), replies.drop_last());
        let after = replay_resources(res, cmds, replies);
        assert forall|i: int| 0 <= i < before.pending_recycle.len() implies
            #[trigger] after.pending_recycle[i] == before.pending_recycle[i] by {}
    }
}

/// A released buffer is not handed back to the pool before the next list begins: from
/// the command that frees it to the end of its list it stays where `begin_list` will find
/// it, and no draw after that command finds it under its id.
pub proof fn law_released_buffers_wait(
    res: ResourcesView,
    cmds: Seq<BackendCmd>,
    replies: Seq<Reply>,
    k: int,
    id: u32,
)
    requires
        cmds.len() == replies.len(),
        0 <= k < cmds.len(),
        cmds[k] == (BackendCmd::FreeResource { id }),
        replay_resources(res, cmds.take(k), replies.take(k)).buffers.contains_key(id),
    ensures
        ({
            let freed = replay_resources(res, cmds.take(k), replies.take(k)).buffers[id].pooled;
            &&& replay_resources(res, cmds, replies).pending_recycle.contains(freed)
            &&& !replay_resources(
                res,
                cmds.take(k + 1),
                replies.take(k + 1),
            ).buffers.contains_key(id)
        }),
{
    let before = replay_resources(res, cmds.take(k), replies.take(k));
    let after = replay_resources(res, cmds.take(k + 1), replies.take(k + 1));
    assert(cmds.take(k + 1).drop_last() == cmds.take(k));
    assert(replies.take(k + 1).drop_last() == replies.take(k));
    assert(after == apply_cmd(before, cmds[k], replies[k]));
    let at = before.pending_recycle.len() as int;
    assert(after.pending_recycle[at] == before.buffers[id].pooled);
    let rest = cmds.skip(k + 1);
    let answered_rest = replies.skip(k + 1);
    assert(cmds == cmds.take(k + 1) + rest);
    assert(replies == replies.take(k + 1) + answered_rest);
    law_replay_in_parts(
        res,
        walk_start(),
        cmds.take(k + 1),
        rest,
        replies.take(k + 1),
        answered_rest,
    );
    lemma_waiting_buffers_stay(after, rest, answered_rest);
    assert(replay_resources(res, cmds, replies).pending_recycle[at] == before.buffers[id].pooled);
}

/// A readback is made of a target that is there and has been drawn, as far as the guest's surface
/// can be expressed: the whole target is copied, and what is written goes to the guest's address
/// and is no longer than the guest said.  Only the first refusal of a target is reported.
pub proof fn law_readbacks(res: ResourcesView, rb: Readback)
    ensures
        ({
            let plan = readback_plan(res, rb);
            let rt = res.render_targets[rb.id];
            let layout = surface_layout(rt.width, rt.height, rb.pitch, rb.tiling);
            let there = res.render_targets.contains_key(rb.id);
            let drawn = rt.current_layout is ShaderReadOnly;
            &&& !there ==> plan is Unknown
            &&& there && !drawn ==> plan is NotRendered
            &&& there && drawn && layout is None ==> plan == (ReadbackPlan::Refused {
                first: !res.readback_refused.contains(rb.id),
            })
            &&& there && drawn && layout is Some ==> plan == (ReadbackPlan::Copy {
                image: rt.image,
                width: rt.width,
                height: rt.height,
                surface: layout->0,
                addr: rb.addr,
                size: rb.size,
            })
        }),
{
}

} // verus!
