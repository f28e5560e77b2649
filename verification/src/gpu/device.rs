//! What a device does with a list of steps.
//!
//! A device runs the steps in order.  Each changes what is bound, written or set; a draw
//! happens with whatever holds at that point.  `run` keeps every draw together with all that
//! it was drawn with, so that what a list draws can be stated without saying how the list is
//! written.

use vstd::prelude::*;

use crate::gpu::commands::{BackendCmd, IndexType, ScissorRect};
use crate::gpu::passes::{record_all, record_one, recording_start, Knobs, Recording};
use crate::gpu::record::{
    const_write, descriptor_steps, draw_steps, has_descriptors, pass_steps, sampler_write,
    scissor_choice, storage_write, stream_push, vertex_bind, viewport_choice,
};
use crate::gpu::resources::{CacheRenderTarget, ResourcesView};
use crate::gpu::steps::{Attachment, ImageRef, Step, StreamWords, ViewportChoice};
use crate::gpu::vk::{ImageLayout, LoadOp};
use crate::gpu::walk::{
    bind_at, walk_step, ConstBind, DrawCall, PassTarget, PassView, StorageBind, TextureBind, VertexBinding,
    WalkView,
};

verus! {

/// What a binding of a descriptor set holds.
pub enum Descriptor {
    Storage(u64),
    Sampled { view: u64, sampler: u64 },
}

/// A descriptor set: what it was allocated for, and what has been written to it.
#[verifier::ext_equal]
pub struct SetState {
    pub layout: u64,
    pub storage_count: u32,
    pub sampler_count: u32,
    pub slots: Map<u32, Descriptor>,
}

/// The render pass that is open, with the area that it covers.
pub struct OpenPass {
    pub attachment: Attachment,
    pub width: u32,
    pub height: u32,
    pub opaque_clear: bool,
}

/// What holds on the device at some point of a list.
#[verifier::ext_equal]
pub struct Bound {
    pub pass: Option<OpenPass>,
    pub pipeline: Option<u64>,
    /// The set that was allocated last.
    pub set: Option<SetState>,
    /// The set that is bound, and the pipeline layout it is bound for.
    pub bound_set: Option<(u64, SetState)>,
    /// The pushed words, by their offset, and the pipeline layout they were pushed for.
    pub pushed: Map<u32, (u64, StreamWords)>,
    pub viewport: Option<ViewportChoice>,
    pub scissor: Option<ScissorRect>,
    pub vertex_buffers: Map<u32, u64>,
    pub index_buffer: Option<(u64, IndexType)>,
}

/// A draw: how many vertices, or indices, and with what.
#[verifier::ext_equal]
pub struct Drawn {
    pub indexed: bool,
    pub count: u32,
    pub with: Bound,
}

#[verifier::ext_equal]
pub struct Device {
    pub now: Bound,
    pub drawn: Seq<Drawn>,
}

/// Nothing is bound and no pass is open.
pub open spec fn nothing_bound() -> Bound {
    Bound {
        pass: None,
        pipeline: None,
        set: None,
        bound_set: None,
        pushed: Map::empty(),
        viewport: None,
        scissor: None,
        vertex_buffers: Map::empty(),
        index_buffer: None,
    }
}

/// A device before a list.
pub open spec fn idle() -> Device {
    Device { now: nothing_bound(), drawn: Seq::empty() }
}

/// A descriptor is written to the set that was allocated last.
pub open spec fn written(d: Device, binding: u32, value: Descriptor) -> Device {
    match d.now.set {
        Some(set) => Device {
            now: Bound {
                set: Some(SetState { slots: set.slots.insert(binding, value), ..set }),
                ..d.now
            },
            ..d
        },
        None => d,
    }
}

/// What one step does.  A pass begins with nothing bound, and nothing outlives it.
pub open spec fn device_step(d: Device, step: Step) -> Device {
    let now = d.now;
    match step {
        Step::BeginPass { attachment, width, height, opaque_clear } => Device {
            now: Bound {
                pass: Some(OpenPass { attachment, width, height, opaque_clear }),
                ..nothing_bound()
            },
            ..d
        },
        Step::EndPass => Device { now: nothing_bound(), ..d },
        Step::BindPipeline { pipeline } => Device {
            now: Bound { pipeline: Some(pipeline), ..now },
            ..d
        },
        Step::AllocateSet { set_layout, storage_count, sampler_count } => Device {
            now: Bound {
                set: Some(
                    SetState {
                        layout: set_layout,
                        storage_count,
                        sampler_count,
                        slots: Map::empty(),
                    },
                ),
                ..now
            },
            ..d
        },
        Step::WriteStorage { binding, buffer } => written(d, binding, Descriptor::Storage(buffer)),
        Step::WriteSampler { binding, view, sampler } => written(
            d,
            binding,
            Descriptor::Sampled { view, sampler },
        ),
        Step::BindSet { pipeline_layout } => match now.set {
            Some(set) => Device {
                now: Bound { bound_set: Some((pipeline_layout, set)), ..now },
                ..d
            },
            None => d,
        },
        Step::PushStream { pipeline_layout, offset, words } => Device {
            now: Bound { pushed: now.pushed.insert(offset, (pipeline_layout, words)), ..now },
            ..d
        },
        Step::SetViewport(v) => Device { now: Bound { viewport: Some(v), ..now }, ..d },
        Step::SetScissor(s) => Device { now: Bound { scissor: Some(s), ..now }, ..d },
        Step::BindVertexBuffer { slot, buffer } => Device {
            now: Bound { vertex_buffers: now.vertex_buffers.insert(slot, buffer), ..now },
            ..d
        },
        Step::BindIndexBuffer { buffer, index_type } => Device {
            now: Bound { index_buffer: Some((buffer, index_type)), ..now },
            ..d
        },
        Step::Draw { vertex_count } => Device {
            drawn: d.drawn.push(Drawn { indexed: false, count: vertex_count, with: now }),
            ..d
        },
        Step::DrawIndexed { index_count } => Device {
            drawn: d.drawn.push(Drawn { indexed: true, count: index_count, with: now }),
            ..d
        },
        _ => d,
    }
}

/// What a list of steps does.
pub open spec fn run(d: Device, steps: Seq<Step>) -> Device
    decreases steps.len(),
{
    if steps.len() == 0 {
        d
    } else {
        device_step(run(d, steps.drop_last()), steps.last())
    }
}

/// A map after entries have been put into it, one after the other.
pub open spec fn put_all<V>(m: Map<u32, V>, entries: Seq<(u32, V)>) -> Map<u32, V>
    decreases entries.len(),
{
    if entries.len() == 0 {
        m
    } else {
        put_all(m, entries.drop_last()).insert(entries.last().0, entries.last().1)
    }
}

/// What was put under a key last is what it holds.
pub proof fn lemma_last_put_holds<V>(m: Map<u32, V>, entries: Seq<(u32, V)>, i: int)
    requires
        0 <= i < entries.len(),
        forall|j: int| i < j < entries.len() ==> (#[trigger] entries[j]).0 != entries[i].0,
    ensures
        put_all(m, entries).contains_key(entries[i].0),
        put_all(m, entries)[entries[i].0] == entries[i].1,
    decreases entries.len(),
{
    if i < entries.len() - 1 {
        let front = entries.drop_last();
        assert(front[i] == entries[i]);
        assert(entries[entries.len() - 1].0 != entries[i].0);
        assert forall|j: int| i < j < front.len() implies (#[trigger] front[j]).0 != front[i].0 by {
            assert(front[j] == entries[j]);
        }
        lemma_last_put_holds(m, front, i);
    }
}

proof fn lemma_put_concat<V>(m: Map<u32, V>, a: Seq<(u32, V)>, b: Seq<(u32, V)>)
    ensures
        put_all(m, a + b) == put_all(put_all(m, a), b),
    decreases b.len(),
{
    if b.len() == 0 {
        assert(a + b =~= a);
    } else {
        assert((a + b).drop_last() =~= a + b.drop_last());
        assert((a + b).last() == b.last());
        lemma_put_concat(m, a, b.drop_last());
    }
}

pub proof fn lemma_run_concat(d: Device, a: Seq<Step>, b: Seq<Step>)
    ensures
        run(d, a + b) == run(run(d, a), b),
    decreases b.len(),
{
    if b.len() == 0 {
        assert(a + b =~= a);
    } else {
        assert((a + b).drop_last() =~= a + b.drop_last());
        assert((a + b).last() == b.last());
        lemma_run_concat(d, a, b.drop_last());
    }
}

proof fn lemma_run_one(d: Device, s: Step)
    ensures
        run(d, seq![s]) == device_step(d, s),
{
    assert(seq![s].drop_last() =~= Seq::<Step>::empty());
    assert(run(d, seq![s].drop_last()) == d);
}

proof fn lemma_run_two(d: Device, s: Step, t: Step)
    ensures
        run(d, seq![s, t]) == device_step(device_step(d, s), t),
{
    assert(seq![s, t].drop_last() =~= seq![s]);
    lemma_run_one(d, s);
}

/// What the vertex streams of a draw put into its set.
pub open spec fn storage_entries(binds: Seq<StorageBind>) -> Seq<(u32, Descriptor)> {
    Seq::new(binds.len(), |i: int| (binds[i].binding, Descriptor::Storage(binds[i].buffer)))
}

pub open spec fn const_entries(binds: Seq<ConstBind>) -> Seq<(u32, Descriptor)> {
    Seq::new(binds.len(), |i: int| (binds[i].binding, Descriptor::Storage(binds[i].buffer)))
}

pub open spec fn texture_entries(binds: Seq<TextureBind>) -> Seq<(u32, Descriptor)> {
    Seq::new(
        binds.len(),
        |i: int|
            (
                binds[i].binding,
                Descriptor::Sampled { view: binds[i].view, sampler: binds[i].sampler },
            ),
    )
}

/// What the vertex streams of a draw push.
pub open spec fn pushed_entries(layout: u64, binds: Seq<StorageBind>) -> Seq<
    (u32, (u64, StreamWords)),
> {
    Seq::new(
        binds.len(),
        |i: int|
            (
                binds[i].pc_offset,
                (
                    layout,
                    StreamWords {
                        num_records: binds[i].num_records,
                        stride: binds[i].stride,
                        dst_sel: binds[i].dst_sel,
                        format: binds[i].format,
                    },
                ),
            ),
    )
}

pub open spec fn vertex_entries(binds: Seq<VertexBinding>) -> Seq<(u32, u64)> {
    Seq::new(binds.len(), |i: int| (binds[i].slot, binds[i].buffer))
}

/// The device with these descriptors written.
spec fn with_slots(d: Device, entries: Seq<(u32, Descriptor)>) -> Device {
    match d.now.set {
        Some(set) => Device {
            now: Bound {
                set: Some(SetState { slots: put_all(set.slots, entries), ..set }),
                ..d.now
            },
            ..d
        },
        None => d,
    }
}

proof fn lemma_run_storage(d: Device, binds: Seq<StorageBind>)
    ensures
        run(d, binds.map_values(|b: StorageBind| storage_write(b))) == with_slots(
            d,
            storage_entries(binds),
        ),
    decreases binds.len(),
{
    let steps = binds.map_values(|b: StorageBind| storage_write(b));
    if binds.len() > 0 {
        let front = binds.drop_last();
        assert(steps.drop_last() =~= front.map_values(|b: StorageBind| storage_write(b)));
        lemma_run_storage(d, front);
        assert(storage_entries(binds).drop_last() =~= storage_entries(front));
    }
    assert(run(d, steps) =~= with_slots(d, storage_entries(binds)));
}

proof fn lemma_run_consts(d: Device, binds: Seq<ConstBind>)
    ensures
        run(d, binds.map_values(|b: ConstBind| const_write(b))) == with_slots(
            d,
            const_entries(binds),
        ),
    decreases binds.len(),
{
    let steps = binds.map_values(|b: ConstBind| const_write(b));
    if binds.len() > 0 {
        let front = binds.drop_last();
        assert(steps.drop_last() =~= front.map_values(|b: ConstBind| const_write(b)));
        lemma_run_consts(d, front);
        assert(const_entries(binds).drop_last() =~= const_entries(front));
    }
    assert(run(d, steps) =~= with_slots(d, const_entries(binds)));
}

proof fn lemma_run_textures(d: Device, binds: Seq<TextureBind>)
    ensures
        run(d, binds.map_values(|b: TextureBind| sampler_write(b))) == with_slots(
            d,
            texture_entries(binds),
        ),
    decreases binds.len(),
{
    let steps = binds.map_values(|b: TextureBind| sampler_write(b));
    if binds.len() > 0 {
        let front = binds.drop_last();
        assert(steps.drop_last() =~= front.map_values(|b: TextureBind| sampler_write(b)));
        lemma_run_textures(d, front);
        assert(texture_entries(binds).drop_last() =~= texture_entries(front));
    }
    assert(run(d, steps) =~= with_slots(d, texture_entries(binds)));
}

proof fn lemma_run_streams(d: Device, layout: u64, binds: Seq<StorageBind>)
    ensures
        run(d, binds.map_values(|b: StorageBind| stream_push(layout, b))) == (Device {
            now: Bound {
                pushed: put_all(d.now.pushed, pushed_entries(layout, binds)),
                ..d.now
            },
            ..d
        }),
    decreases binds.len(),
{
    let steps = binds.map_values(|b: StorageBind| stream_push(layout, b));
    if binds.len() > 0 {
        let front = binds.drop_last();
        assert(steps.drop_last() =~= front.map_values(|b: StorageBind| stream_push(layout, b)));
        lemma_run_streams(d, layout, front);
        assert(pushed_entries(layout, binds).drop_last() =~= pushed_entries(layout, front));
    }
}

proof fn lemma_run_vertices(d: Device, binds: Seq<VertexBinding>)
    ensures
        run(d, binds.map_values(|b: VertexBinding| vertex_bind(b))) == (Device {
            now: Bound {
                vertex_buffers: put_all(d.now.vertex_buffers, vertex_entries(binds)),
                ..d.now
            },
            ..d
        }),
    decreases binds.len(),
{
    let steps = binds.map_values(|b: VertexBinding| vertex_bind(b));
    if binds.len() > 0 {
        let front = binds.drop_last();
        assert(steps.drop_last() =~= front.map_values(|b: VertexBinding| vertex_bind(b)));
        lemma_run_vertices(d, front);
        assert(vertex_entries(binds).drop_last() =~= vertex_entries(front));
    }
}

/// A recorded pass draws once, into its target, with exactly what its pass holds: the
/// pipeline; every buffer and texture at its binding, in a set with room for them; each
/// stream's words at their offset; every vertex buffer at its slot; the guest's rectangles
/// where they have an area, and the whole target else; and for an indexed draw the index
/// buffer.  It draws as many vertices, or indices, as the pass says, and leaves nothing bound.
pub proof fn law_pass_draws_once_with_its_state(
    d: Device,
    pass: PassView,
    attachment: Attachment,
    width: u32,
    height: u32,
    opaque_clear: bool,
)
    ensures
        ({
            let out = run(d, pass_steps(pass, attachment, width, height, opaque_clear));
            let drawn = out.drawn.last();
            let with = drawn.with;
            let binds = pass.storage_binds.len() + pass.const_binds.len() + pass.texture_binds.len();
            &&& out.now == nothing_bound()
            &&& out.drawn.len() == d.drawn.len() + 1
            &&& out.drawn.drop_last() == d.drawn
            &&& with.pass == Some(OpenPass { attachment, width, height, opaque_clear })
            &&& with.pipeline == Some(pass.pipeline)
            &&& pass.set_layout is None || binds == 0 ==> with.bound_set is None && with.pushed
                == Map::<u32, (u64, StreamWords)>::empty()
            &&& pass.set_layout is Some && binds > 0 ==> {
                &&& with.bound_set == Some(
                    (
                        pass.pipeline_layout,
                        SetState {
                            layout: pass.set_layout->0,
                            storage_count: (pass.storage_binds.len() + pass.const_binds.len()) as u32,
                            sampler_count: pass.texture_binds.len() as u32,
                            slots: put_all(
                                Map::empty(),
                                storage_entries(pass.storage_binds) + const_entries(
                                    pass.const_binds,
                                ) + texture_entries(pass.texture_binds),
                            ),
                        },
                    ),
                )
                &&& with.pushed == put_all(
                    Map::empty(),
                    pushed_entries(pass.pipeline_layout, pass.storage_binds),
                )
            }
            &&& with.vertex_buffers == put_all(Map::empty(), vertex_entries(pass.vertex_buffers))
            &&& with.viewport == Some(
                if pass.viewport is Some && pass.viewport->0.width != 0
                    && pass.viewport->0.width != 0x8000_0000 && pass.viewport->0.height != 0
                    && pass.viewport->0.height != 0x8000_0000 {
                    ViewportChoice::Guest(pass.viewport->0)
                } else {
                    ViewportChoice::Full { width, height }
                },
            )
            &&& with.scissor == Some(
                if pass.scissor is Some && pass.scissor->0.width != 0 && pass.scissor->0.height
                    != 0 {
                    pass.scissor->0
                } else {
                    ScissorRect { x: 0, y: 0, width, height }
                },
            )
            &&& pass.draw matches DrawCall::Auto { vertex_count } ==> !drawn.indexed && drawn.count
                == vertex_count && with.index_buffer is None
            &&& pass.draw matches DrawCall::Indexed { buffer, index_count, index_type }
                ==> drawn.indexed && drawn.count == index_count && with.index_buffer == Some(
                (buffer, index_type),
            )
        }),
{
    let begin = Step::BeginPass { attachment, width, height, opaque_clear };
    let pipe = Step::BindPipeline { pipeline: pass.pipeline };
    let head = seq![begin, pipe];
    let desc = descriptor_steps(pass);
    let vp = Step::SetViewport(viewport_choice(pass.viewport, width, height));
    let sc = Step::SetScissor(scissor_choice(pass.scissor, width, height));
    let rects = seq![vp, sc];
    let verts = pass.vertex_buffers.map_values(|b: VertexBinding| vertex_bind(b));
    let draw = draw_steps(pass.draw);
    let end = seq![Step::EndPass];
    let all = pass_steps(pass, attachment, width, height, opaque_clear);
    assert(all =~= head + desc + rects + verts + draw + end);
    lemma_run_concat(d, head + desc + rects + verts + draw, end);
    lemma_run_concat(d, head + desc + rects + verts, draw);
    lemma_run_concat(d, head + desc + rects, verts);
    lemma_run_concat(d, head + desc, rects);
    lemma_run_concat(d, head, desc);
    lemma_run_two(d, begin, pipe);
    let d1 = run(d, head);
    lemma_run_descriptors(d1, pass);
    let d2 = run(d1, desc);
    lemma_run_two(d2, vp, sc);
    let d3 = run(d2, rects);
    lemma_run_vertices(d3, pass.vertex_buffers);
    let d4 = run(d3, verts);
    match pass.draw {
        DrawCall::Auto { vertex_count } => {
            lemma_run_one(d4, Step::Draw { vertex_count });
        },
        DrawCall::Indexed { buffer, index_count, index_type } => {
            lemma_run_two(
                d4,
                Step::BindIndexBuffer { buffer, index_type },
                Step::DrawIndexed { index_count },
            );
        },
    }
    let d5 = run(d4, draw);
    lemma_run_one(d5, Step::EndPass);
    assert(d5.drawn.drop_last() =~= d.drawn);
}

proof fn lemma_run_descriptors(d: Device, pass: PassView)
    requires
        d.now.set is None,
        d.now.bound_set is None,
        d.now.pushed == Map::<u32, (u64, StreamWords)>::empty(),
    ensures
        ({
            let out = run(d, descriptor_steps(pass));
            let set = SetState {
                layout: pass.set_layout->0,
                storage_count: (pass.storage_binds.len() + pass.const_binds.len()) as u32,
                sampler_count: pass.texture_binds.len() as u32,
                slots: put_all(
                    Map::empty(),
                    storage_entries(pass.storage_binds) + const_entries(pass.const_binds)
                        + texture_entries(pass.texture_binds),
                ),
            };
            out == if has_descriptors(pass) {
                Device {
                    now: Bound {
                        set: Some(set),
                        bound_set: Some((pass.pipeline_layout, set)),
                        pushed: put_all(
                            Map::empty(),
                            pushed_entries(pass.pipeline_layout, pass.storage_binds),
                        ),
                        ..d.now
                    },
                    ..d
                }
            } else {
                d
            }
        }),
{
    if has_descriptors(pass) {
        let alloc = Step::AllocateSet {
            set_layout: pass.set_layout->0,
            storage_count: (pass.storage_binds.len() + pass.const_binds.len()) as u32,
            sampler_count: pass.texture_binds.len() as u32,
        };
        let bind = Step::BindSet { pipeline_layout: pass.pipeline_layout };
        let storage = pass.storage_binds.map_values(|b: StorageBind| storage_write(b));
        let consts = pass.const_binds.map_values(|b: ConstBind| const_write(b));
        let textures = pass.texture_binds.map_values(|b: TextureBind| sampler_write(b));
        let streams = pass.storage_binds.map_values(
            |b: StorageBind| stream_push(pass.pipeline_layout, b),
        );
        assert(descriptor_steps(pass) =~= seq![alloc] + storage + consts + textures + seq![bind]
            + streams);
        lemma_run_concat(d, seq![alloc] + storage + consts + textures + seq![bind], streams);
        lemma_run_concat(d, seq![alloc] + storage + consts + textures, seq![bind]);
        lemma_run_concat(d, seq![alloc] + storage + consts, textures);
        lemma_run_concat(d, seq![alloc] + storage, consts);
        lemma_run_concat(d, seq![alloc], storage);
        lemma_run_one(d, alloc);
        let e0 = run(d, seq![alloc]);
        lemma_run_storage(e0, pass.storage_binds);
        let e1 = run(e0, storage);
        lemma_run_consts(e1, pass.const_binds);
        let e2 = run(e1, consts);
        lemma_run_textures(e2, pass.texture_binds);
        let e3 = run(e2, textures);
        let a = storage_entries(pass.storage_binds);
        let b = const_entries(pass.const_binds);
        let c = texture_entries(pass.texture_binds);
        lemma_put_concat(Map::<u32, Descriptor>::empty(), a, b);
        lemma_put_concat(Map::<u32, Descriptor>::empty(), a + b, c);
        lemma_run_one(e3, bind);
        let e4 = run(e3, seq![bind]);
        lemma_run_streams(e4, pass.pipeline_layout, pass.storage_binds);
    }
}

/// What the bound set holds.
pub open spec fn slots_of(b: Bound) -> Map<u32, Descriptor> {
    match b.bound_set {
        Some((_, set)) => set.slots,
        None => Map::empty(),
    }
}

/// The bind at place `i` of a list is the last one at its binding.
pub open spec fn last_texture(binds: Seq<TextureBind>, i: int) -> bool {
    forall|j: int| i < j < binds.len() ==> (#[trigger] binds[j]).binding != binds[i].binding
}

/// The walk holds all that a draw with its pipeline needs.
pub open spec fn complete(w: WalkView) -> bool {
    &&& w.bound is Some
    &&& w.bound->0.needs_const <= w.const_binds.len()
    &&& w.bound->0.needs_storage <= w.storage_binds.len()
    &&& w.bound->0.needs_texture <= w.texture_binds.len()
}

/// A draw that the guest commands is drawn as commanded: where all that its pipeline needs has
/// been bound there is one more pass, and running it draws once, with the bound pipeline and
/// the commanded number of vertices; an indexed one with the commanded number of indices of
/// the commanded type, out of the buffer that the id names.  The draws before stay.
pub proof fn law_draw_is_drawn_as_commanded(
    res: ResourcesView,
    w: WalkView,
    cmd: BackendCmd,
    d: Device,
    attachment: Attachment,
    width: u32,
    height: u32,
    opaque_clear: bool,
)
    requires
        complete(w),
        cmd is DrawAuto || (cmd is DrawIndexed && res.buffers.contains_key(cmd->DrawIndexed_id)),
    ensures
        ({
            let after = walk_step(res, w, cmd);
            let pass = after.passes.last();
            let out = run(d, pass_steps(pass, attachment, width, height, opaque_clear));
            let drawn = out.drawn.last();
            &&& after.passes.len() == w.passes.len() + 1
            &&& after.passes.drop_last() == w.passes
            &&& out.drawn.len() == d.drawn.len() + 1
            &&& out.drawn.drop_last() == d.drawn
            &&& drawn.with.pipeline == Some(w.bound->0.pipeline)
            &&& drawn.with.pass == Some(OpenPass { attachment, width, height, opaque_clear })
            &&& cmd matches BackendCmd::DrawAuto { vertex_count } ==> !drawn.indexed && drawn.count
                == vertex_count
            &&& cmd matches BackendCmd::DrawIndexed { id, index_count, index_type }
                ==> drawn.indexed && drawn.count == index_count && drawn.with.index_buffer == Some(
                (res.buffers[id].pooled.buffer, index_type),
            )
        }),
{
    let after = walk_step(res, w, cmd);
    assert(after.passes.drop_last() =~= w.passes);
    law_pass_draws_once_with_its_state(
        d,
        after.passes.last(),
        attachment,
        width,
        height,
        opaque_clear,
    );
}

/// A draw is dropped, and nothing is drawn for it, exactly where no pipeline is bound, where
/// fewer buffers or textures have been bound than the pipeline needs, or where its index
/// buffer is not known.
pub proof fn law_incomplete_draws_are_dropped(res: ResourcesView, w: WalkView, cmd: BackendCmd)
    requires
        cmd is DrawAuto || cmd is DrawIndexed,
    ensures
        ({
            let dropped = w.bound is None || w.const_binds.len() < w.bound->0.needs_const
                || w.storage_binds.len() < w.bound->0.needs_storage || w.texture_binds.len()
                < w.bound->0.needs_texture || (cmd is DrawIndexed && !res.buffers.contains_key(
                cmd->DrawIndexed_id,
            ));
            let after = walk_step(res, w, cmd).passes;
            &&& dropped ==> after == w.passes
            &&& !dropped ==> after.len() == w.passes.len() + 1
        }),
{
}

/// What was bound for a draw is what it is drawn with: running the pass of a draw, every
/// vertex buffer stands at its slot, every stream and every constant buffer and every texture
/// at its binding, unless a later one took the place; and every stream's words lie at their
/// offset.
pub proof fn law_draw_is_drawn_with_what_is_bound(
    res: ResourcesView,
    w: WalkView,
    vertex_count: u32,
    d: Device,
    attachment: Attachment,
    width: u32,
    height: u32,
    opaque_clear: bool,
)
    requires
        complete(w),
        w.bound->0.set_layout is Some,
    ensures
        ({
            let pass = walk_step(res, w, BackendCmd::DrawAuto { vertex_count }).passes.last();
            let out = run(d, pass_steps(pass, attachment, width, height, opaque_clear));
            let with = out.drawn.last().with;
            let slots = slots_of(with);
            &&& forall|i: int|
                0 <= i < w.vertex_buffers.len() && (forall|j: int|
                    i < j < w.vertex_buffers.len() ==> (#[trigger] w.vertex_buffers[j]).slot
                        != w.vertex_buffers[i].slot) ==> with.vertex_buffers.contains_key(
                    (#[trigger] w.vertex_buffers[i]).slot,
                ) && with.vertex_buffers[w.vertex_buffers[i].slot] == w.vertex_buffers[i].buffer
            &&& forall|i: int|
                0 <= i < w.texture_binds.len() && last_texture(w.texture_binds, i)
                    ==> with.bound_set is Some && slots.contains_key(
                    (#[trigger] w.texture_binds[i]).binding,
                ) && slots[w.texture_binds[i].binding] == (Descriptor::Sampled {
                    view: w.texture_binds[i].view,
                    sampler: w.texture_binds[i].sampler,
                })
            &&& forall|i: int|
                0 <= i < w.const_binds.len() && (forall|j: int|
                    i < j < w.const_binds.len() ==> (#[trigger] w.const_binds[j]).binding
                        != w.const_binds[i].binding) && (forall|j: int|
                    0 <= j < w.texture_binds.len() ==> (#[trigger] w.texture_binds[j]).binding
                        != w.const_binds[i].binding) ==> with.bound_set is Some
                    && slots.contains_key((#[trigger] w.const_binds[i]).binding)
                    && slots[w.const_binds[i].binding] == Descriptor::Storage(
                    w.const_binds[i].buffer,
                )
            &&& forall|i: int|
                0 <= i < w.storage_binds.len() && (forall|j: int|
                    i < j < w.storage_binds.len() ==> (#[trigger] w.storage_binds[j]).binding
                        != w.storage_binds[i].binding) && (forall|j: int|
                    0 <= j < w.const_binds.len() ==> (#[trigger] w.const_binds[j]).binding
                        != w.storage_binds[i].binding) && (forall|j: int|
                    0 <= j < w.texture_binds.len() ==> (#[trigger] w.texture_binds[j]).binding
                        != w.storage_binds[i].binding) ==> with.bound_set is Some
                    && slots.contains_key((#[trigger] w.storage_binds[i]).binding)
                    && slots[w.storage_binds[i].binding] == Descriptor::Storage(
                    w.storage_binds[i].buffer,
                )
            &&& forall|i: int|
                0 <= i < w.storage_binds.len() && (forall|j: int|
                    i < j < w.storage_binds.len() ==> (#[trigger] w.storage_binds[j]).pc_offset
                        != w.storage_binds[i].pc_offset) ==> {
                    let b = #[trigger] w.storage_binds[i];
                    &&& with.pushed.contains_key(b.pc_offset)
                    &&& with.pushed[b.pc_offset].0 == w.bound->0.layout
                    &&& with.pushed[b.pc_offset].1.num_records == b.num_records
                    &&& with.pushed[b.pc_offset].1.stride == b.stride
                    &&& with.pushed[b.pc_offset].1.dst_sel == b.dst_sel
                    &&& with.pushed[b.pc_offset].1.format == b.format
                }
            &&& with.bound_set matches Some((layout, set)) ==> layout == w.bound->0.layout
                && Some(set.layout) == w.bound->0.set_layout
        }),
{
    let after = walk_step(res, w, BackendCmd::DrawAuto { vertex_count });
    let pass = after.passes.last();
    law_pass_draws_once_with_its_state(d, pass, attachment, width, height, opaque_clear);
    let out = run(d, pass_steps(pass, attachment, width, height, opaque_clear));
    let with = out.drawn.last().with;
    let a = storage_entries(w.storage_binds);
    let b = const_entries(w.const_binds);
    let c = texture_entries(w.texture_binds);
    let all = a + b + c;
    let empty = Map::<u32, Descriptor>::empty();
    let ve = vertex_entries(w.vertex_buffers);
    assert forall|i: int|
        0 <= i < w.vertex_buffers.len() && (forall|j: int|
            i < j < w.vertex_buffers.len() ==> (#[trigger] w.vertex_buffers[j]).slot
                != w.vertex_buffers[i].slot) implies with.vertex_buffers.contains_key(
        (#[trigger] w.vertex_buffers[i]).slot,
    ) && with.vertex_buffers[w.vertex_buffers[i].slot] == w.vertex_buffers[i].buffer by {
        assert forall|j: int| i < j < ve.len() implies (#[trigger] ve[j]).0 != ve[i].0 by {
            assert(w.vertex_buffers[j].slot != w.vertex_buffers[i].slot);
        }
        lemma_last_put_holds(Map::<u32, u64>::empty(), ve, i);
    }
    assert forall|i: int|
        0 <= i < w.texture_binds.len() && last_texture(w.texture_binds, i) implies with.bound_set
        is Some && slots_of(with).contains_key((#[trigger] w.texture_binds[i]).binding)
        && slots_of(with)[w.texture_binds[i].binding] == (Descriptor::Sampled {
        view: w.texture_binds[i].view,
        sampler: w.texture_binds[i].sampler,
    }) by {
        let at = a.len() + b.len() + i;
        assert(all[at] == c[i]);
        assert forall|j: int| at < j < all.len() implies (#[trigger] all[j]).0 != all[at].0 by {
            let k = j - a.len() - b.len();
            assert(all[j] == c[k]);
            assert(w.texture_binds[k].binding != w.texture_binds[i].binding);
        }
        lemma_last_put_holds(empty, all, at);
    }
    assert forall|i: int|
        0 <= i < w.const_binds.len() && (forall|j: int|
            i < j < w.const_binds.len() ==> (#[trigger] w.const_binds[j]).binding
                != w.const_binds[i].binding) && (forall|j: int|
            0 <= j < w.texture_binds.len() ==> (#[trigger] w.texture_binds[j]).binding
                != w.const_binds[i].binding) implies with.bound_set is Some
        && slots_of(with).contains_key((#[trigger] w.const_binds[i]).binding)
        && slots_of(with)[w.const_binds[i].binding] == Descriptor::Storage(
        w.const_binds[i].buffer,
    ) by {
        let at = a.len() + i;
        assert(all[at] == b[i]);
        assert forall|j: int| at < j < all.len() implies (#[trigger] all[j]).0 != all[at].0 by {
            if j < a.len() + b.len() {
                assert(all[j] == b[j - a.len()]);
                assert(w.const_binds[j - a.len()].binding != w.const_binds[i].binding);
            } else {
                let k = j - a.len() - b.len();
                assert(all[j] == c[k]);
                assert(w.texture_binds[k].binding != w.const_binds[i].binding);
            }
        }
        lemma_last_put_holds(empty, all, at);
    }
    assert forall|i: int|
        0 <= i < w.storage_binds.len() && (forall|j: int|
            i < j < w.storage_binds.len() ==> (#[trigger] w.storage_binds[j]).binding
                != w.storage_binds[i].binding) && (forall|j: int|
            0 <= j < w.const_binds.len() ==> (#[trigger] w.const_binds[j]).binding
                != w.storage_binds[i].binding) && (forall|j: int|
            0 <= j < w.texture_binds.len() ==> (#[trigger] w.texture_binds[j]).binding
                != w.storage_binds[i].binding) implies with.bound_set is Some
        && slots_of(with).contains_key((#[trigger] w.storage_binds[i]).binding)
        && slots_of(with)[w.storage_binds[i].binding] == Descriptor::Storage(
        w.storage_binds[i].buffer,
    ) by {
        assert(all[i] == a[i]);
        assert forall|j: int| i < j < all.len() implies (#[trigger] all[j]).0 != all[i].0 by {
            if j < a.len() {
                assert(all[j] == a[j]);
                assert(w.storage_binds[j].binding != w.storage_binds[i].binding);
            } else if j < a.len() + b.len() {
                assert(all[j] == b[j - a.len()]);
                assert(w.const_binds[j - a.len()].binding != w.storage_binds[i].binding);
            } else {
                let k = j - a.len() - b.len();
                assert(all[j] == c[k]);
                assert(w.texture_binds[k].binding != w.storage_binds[i].binding);
            }
        }
        lemma_last_put_holds(empty, all, i);
    }
    let p = pushed_entries(w.bound->0.layout, w.storage_binds);
    assert forall|i: int|
        0 <= i < w.storage_binds.len() && (forall|j: int|
            i < j < w.storage_binds.len() ==> (#[trigger] w.storage_binds[j]).pc_offset
                != w.storage_binds[i].pc_offset) implies ({
        let s = #[trigger] w.storage_binds[i];
        &&& with.pushed.contains_key(s.pc_offset)
        &&& with.pushed[s.pc_offset].0 == w.bound->0.layout
        &&& with.pushed[s.pc_offset].1.num_records == s.num_records
        &&& with.pushed[s.pc_offset].1.stride == s.stride
        &&& with.pushed[s.pc_offset].1.dst_sel == s.dst_sel
        &&& with.pushed[s.pc_offset].1.format == s.format
    }) by {
        assert forall|j: int| i < j < p.len() implies (#[trigger] p[j]).0 != p[i].0 by {
            assert(w.storage_binds[j].pc_offset != w.storage_binds[i].pc_offset);
        }
        lemma_last_put_holds(Map::<u32, (u64, StreamWords)>::empty(), p, i);
    }
}

/// The rectangles of a draw are the ones that were set for it, where they have an area, and
/// else the whole target.
pub proof fn law_rectangles_are_the_guests(
    res: ResourcesView,
    w: WalkView,
    vertex_count: u32,
    d: Device,
    attachment: Attachment,
    width: u32,
    height: u32,
    opaque_clear: bool,
)
    requires
        complete(w),
    ensures
        ({
            let pass = walk_step(res, w, BackendCmd::DrawAuto { vertex_count }).passes.last();
            let with = run(
                d,
                pass_steps(pass, attachment, width, height, opaque_clear),
            ).drawn.last().with;
            &&& (w.viewport is Some && w.viewport->0.width != 0 && w.viewport->0.width
                != 0x8000_0000 && w.viewport->0.height != 0 && w.viewport->0.height != 0x8000_0000)
                ==> with.viewport == Some(ViewportChoice::Guest(w.viewport->0))
            &&& (w.viewport is None || w.viewport->0.width == 0 || w.viewport->0.width
                == 0x8000_0000 || w.viewport->0.height == 0 || w.viewport->0.height == 0x8000_0000)
                ==> with.viewport == Some(ViewportChoice::Full { width, height })
            &&& (w.scissor is Some && w.scissor->0.width != 0 && w.scissor->0.height != 0)
                ==> with.scissor == w.scissor
            &&& (w.scissor is None || w.scissor->0.width == 0 || w.scissor->0.height == 0)
                ==> with.scissor == Some(ScissorRect { x: 0, y: 0, width, height })
        }),
{
    let pass = walk_step(res, w, BackendCmd::DrawAuto { vertex_count }).passes.last();
    law_pass_draws_once_with_its_state(d, pass, attachment, width, height, opaque_clear);
}

/// The walks differ in nothing that a draw is made from, but for what the flags name.
pub open spec fn same_but(
    a: WalkView,
    b: WalkView,
    pipeline: bool,
    vertex: bool,
    storage: bool,
    consts: bool,
    textures: bool,
    viewport: bool,
    scissor: bool,
    target: bool,
) -> bool {
    &&& pipeline || a.bound == b.bound
    &&& vertex || a.vertex_buffers == b.vertex_buffers
    &&& storage || a.storage_binds == b.storage_binds
    &&& consts || a.const_binds == b.const_binds
    &&& textures || a.texture_binds == b.texture_binds
    &&& viewport || a.viewport == b.viewport
    &&& scissor || a.scissor == b.scissor
    &&& target || a.current_rt == b.current_rt
    &&& a.passes == b.passes
}

/// Every command that prepares a draw adds what it names, under the id's own handle, and
/// touches nothing else; one that names an id nobody knows changes nothing, except that
/// binding a pipeline nobody knows leaves none bound.
pub proof fn law_preparing_adds_what_is_named(res: ResourcesView, w: WalkView, cmd: BackendCmd)
    ensures
        ({
            let after = walk_step(res, w, cmd);
            &&& cmd matches BackendCmd::BindPipeline { id } ==> {
                &&& after.bound is Some <==> res.pipelines.contains_key(id)
                &&& after.bound matches Some(p) ==> p == res.pipelines[id]
                &&& same_but(after, w, true, false, false, false, false, false, false, false)
            }
            &&& cmd matches BackendCmd::BindVertexBuffer { slot, id, stride } ==> {
                &&& !res.buffers.contains_key(id) ==> after == w
                &&& res.buffers.contains_key(id) ==> {
                    &&& after.vertex_buffers.len() == w.vertex_buffers.len() + 1
                    &&& after.vertex_buffers.drop_last() == w.vertex_buffers
                    &&& after.vertex_buffers.last().slot == slot
                    &&& after.vertex_buffers.last().stride == stride
                    &&& after.vertex_buffers.last().buffer == res.buffers[id].pooled.buffer
                    &&& same_but(after, w, false, true, false, false, false, false, false, false)
                }
            }
            &&& cmd matches BackendCmd::BindStorageBuffer {
                set,
                binding,
                id,
                num_records,
                stride,
                dst_sel,
                format,
                pc_offset,
            } ==> {
                &&& !res.buffers.contains_key(id) ==> after == w
                &&& res.buffers.contains_key(id) ==> {
                    let b = after.storage_binds.last();
                    &&& after.storage_binds.len() == w.storage_binds.len() + 1
                    &&& after.storage_binds.drop_last() == w.storage_binds
                    &&& b.set == set && b.binding == binding
                    &&& b.buffer == res.buffers[id].pooled.buffer
                    &&& b.num_records == num_records && b.stride == stride
                    &&& b.dst_sel == dst_sel && b.format == format && b.pc_offset == pc_offset
                    &&& same_but(after, w, false, false, true, false, false, false, false, false)
                }
            }
            &&& cmd matches BackendCmd::BindConstBuffer { set, binding, id } ==> {
                &&& !res.buffers.contains_key(id) ==> after == w
                &&& res.buffers.contains_key(id) ==> {
                    &&& after.const_binds.len() == w.const_binds.len() + 1
                    &&& after.const_binds.drop_last() == w.const_binds
                    &&& after.const_binds.last().set == set
                    &&& after.const_binds.last().binding == binding
                    &&& after.const_binds.last().buffer == res.buffers[id].pooled.buffer
                    &&& same_but(after, w, false, false, false, true, false, false, false, false)
                }
            }
            &&& cmd matches BackendCmd::BindTexture { set, binding, image_id, sampler_id } ==> {
                let known = (res.images.contains_key(image_id) || res.render_targets.contains_key(
                    image_id,
                )) && res.samplers.contains_key(sampler_id);
                let view = if res.images.contains_key(image_id) {
                    res.images[image_id].view
                } else {
                    res.render_targets[image_id].view
                };
                &&& !known ==> after == w
                &&& known ==> {
                    &&& same_but(after, w, false, false, false, false, true, false, false, false)
                    &&& after.texture_binds.contains(
                        TextureBind { set, binding, view, sampler: res.samplers[sampler_id] },
                    )
                    &&& w.texture_binds.len() <= after.texture_binds.len()
                        <= w.texture_binds.len() + 1
                    &&& forall|i: int|
                        0 <= i < w.texture_binds.len() && (#[trigger] w.texture_binds[i]).binding
                            != binding ==> after.texture_binds[i] == w.texture_binds[i]
                }
            }
            &&& cmd matches BackendCmd::SetViewport(v) ==> after.viewport == Some(v) && same_but(
                after,
                w,
                false,
                false,
                false,
                false,
                false,
                true,
                false,
                false,
            )
            &&& cmd matches BackendCmd::SetScissor(s) ==> after.scissor == Some(s) && same_but(
                after,
                w,
                false,
                false,
                false,
                false,
                false,
                false,
                true,
                false,
            )
            &&& cmd matches BackendCmd::SetRenderTarget { id } ==> after.current_rt == Some(id)
                && same_but(after, w, false, false, false, false, false, false, false, true)
            &&& cmd matches BackendCmd::ReadbackRenderTarget { id, addr, size, pitch, tiling } ==> {
                &&& after.readbacks.len() == w.readbacks.len() + 1
                &&& after.readbacks.drop_last() == w.readbacks
                &&& after.readbacks.last().id == id && after.readbacks.last().addr == addr
                &&& after.readbacks.last().size == size && after.readbacks.last().pitch == pitch
                &&& after.readbacks.last().tiling == tiling
                &&& same_but(after, w, false, false, false, false, false, false, false, false)
            }
            &&& cmd matches BackendCmd::DumpRenderTargetPng { id, path } ==> {
                &&& after.rt_dumps.len() == w.rt_dumps.len() + 1
                &&& after.rt_dumps.drop_last() == w.rt_dumps
                &&& after.rt_dumps.last() == (id, path@)
                &&& same_but(after, w, false, false, false, false, false, false, false, false)
            }
            &&& !(cmd is BindPipeline || cmd is BindVertexBuffer || cmd is BindStorageBuffer || cmd
                is BindConstBuffer || cmd is BindTexture || cmd is SetViewport || cmd is SetScissor
                || cmd is SetRenderTarget || cmd is ReadbackRenderTarget || cmd
                is DumpRenderTargetPng || cmd is DrawAuto || cmd is DrawIndexed) ==> after == w
        }),
{
    let after = walk_step(res, w, cmd);
    match cmd {
        BackendCmd::BindVertexBuffer { id, .. } => {
            if res.buffers.contains_key(id) {
                assert(after.vertex_buffers.drop_last() =~= w.vertex_buffers);
            }
        },
        BackendCmd::BindStorageBuffer { id, .. } => {
            if res.buffers.contains_key(id) {
                assert(after.storage_binds.drop_last() =~= w.storage_binds);
            }
        },
        BackendCmd::BindConstBuffer { id, .. } => {
            if res.buffers.contains_key(id) {
                assert(after.const_binds.drop_last() =~= w.const_binds);
            }
        },
        BackendCmd::BindTexture { set, binding, image_id, sampler_id } => {
            crate::gpu::backend::lemma_bind_at(w.texture_binds, binding);
            match bind_at(w.texture_binds, binding) {
                Some(i) => {
                    if after != w {
                        assert(after.texture_binds[i].binding == binding);
                    }
                },
                None => {
                    if after != w {
                        assert(after.texture_binds[w.texture_binds.len() as int].binding
                            == binding);
                    }
                },
            }
        },
        BackendCmd::ReadbackRenderTarget { .. } => {
            assert(after.readbacks.drop_last() =~= w.readbacks);
        },
        BackendCmd::DumpRenderTargetPng { .. } => {
            assert(after.rt_dumps.drop_last() =~= w.rt_dumps);
        },
        _ => {},
    }
}

/// A draw goes into the render target that was set for it, and into the frame where none was;
/// what was set for it does not outlive it.
pub proof fn law_draw_goes_where_it_was_sent(res: ResourcesView, w: WalkView, cmd: BackendCmd)
    requires
        complete(w),
        cmd is DrawAuto || (cmd is DrawIndexed && res.buffers.contains_key(cmd->DrawIndexed_id)),
    ensures
        ({
            let after = walk_step(res, w, cmd);
            let target = after.passes.last().target;
            &&& w.current_rt matches Some(id) ==> target == PassTarget::RenderTarget(id)
            &&& w.current_rt is None ==> target == PassTarget::Videoout
            &&& after.current_rt is None
            &&& after.bound == w.bound
        }),
{
}

/// The passes whose target is there: the frame always is, a render target where it was made.
pub open spec fn kept(rts: Map<u32, CacheRenderTarget>, passes: Seq<PassView>) -> Seq<PassView>
    decreases passes.len(),
{
    if passes.len() == 0 {
        passes
    } else {
        let front = kept(rts, passes.drop_last());
        match passes.last().target {
            PassTarget::Videoout => front.push(passes.last()),
            PassTarget::RenderTarget(id) => if rts.contains_key(id) {
                front.push(passes.last())
            } else {
                front
            },
        }
    }
}

/// The draw is the one that the pass stands for, into the image of its target, over the whole
/// of it: the frame has 1920 by 1080 texels, a render target its own size.
pub open spec fn draws_pass(rts: Map<u32, CacheRenderTarget>, pass: PassView, drawn: Drawn) -> bool {
    &&& drawn.with.pipeline == Some(pass.pipeline)
    &&& drawn.indexed == (pass.draw is Indexed)
    &&& pass.draw matches DrawCall::Auto { vertex_count } ==> drawn.count == vertex_count
    &&& pass.draw matches DrawCall::Indexed { buffer, index_count, index_type } ==> drawn.count
        == index_count && drawn.with.index_buffer == Some((buffer, index_type))
    &&& drawn.with.pass matches Some(open)
    &&& pass.target is Videoout ==> {
        &&& open.attachment.image == ImageRef::Videoout
        &&& open.width == 1920 && open.height == 1080
        &&& open.attachment.width == 1920 && open.attachment.height == 1080
    }
    &&& pass.target matches PassTarget::RenderTarget(id) ==> {
        &&& rts.contains_key(id)
        &&& open.attachment.image == ImageRef::Handle(rts[id].image)
        &&& open.attachment.view == rts[id].view
        &&& open.width == rts[id].width && open.height == rts[id].height
    }
}

/// A pass clears its target where nothing is in it that is to be kept: the frame where it was
/// not cleared yet, a render target where it is undefined, and either only if no earlier pass
/// of the submit drew into it.
pub open spec fn clears_when_fresh(
    rts: Map<u32, CacheRenderTarget>,
    cleared: bool,
    passes: Seq<PassView>,
    i: int,
    load_op: LoadOp,
) -> bool {
    let fresh = match passes[i].target {
        PassTarget::Videoout => !cleared,
        PassTarget::RenderTarget(id) => rts[id].current_layout == ImageLayout::Undefined,
    };
    let earlier = exists|j: int| 0 <= j < i && (#[trigger] passes[j]).target == passes[i].target;
    load_op == (if fresh && !earlier {
        LoadOp::Clear
    } else {
        LoadOp::Load
    })
}

/// Running a submit draws every pass whose target is there, once each, in order, each into its
/// own target with its own draw; a target is cleared by the first pass that finds nothing to
/// keep in it, and by no other.  Nothing else is drawn.
pub proof fn law_submit_draws_every_pass(
    rts: Map<u32, CacheRenderTarget>,
    cleared: bool,
    passes: Seq<PassView>,
    knobs: Knobs,
)
    ensures
        ({
            let r = record_all(recording_start(rts, cleared), passes, knobs);
            let out = run(idle(), r.steps);
            let done = kept(rts, passes);
            &&& out.now == nothing_bound()
            &&& out.drawn.len() == done.len()
            &&& r.draws == done.len()
            &&& r.videoout_drawn <==> exists|i: int|
                0 <= i < done.len() && (#[trigger] done[i]).target is Videoout
            &&& forall|i: int|
                0 <= i < done.len() ==> draws_pass(rts, done[i], #[trigger] out.drawn[i])
                    && out.drawn[i].with.pass->0.opaque_clear == !knobs.clear_alpha_zero
                    && clears_when_fresh(
                    rts,
                    cleared,
                    done,
                    i,
                    out.drawn[i].with.pass->0.attachment.load_op,
                )
        }),
    decreases passes.len(),
{
    let start = recording_start(rts, cleared);
    let r = record_all(start, passes, knobs);
    if passes.len() == 0 {
        assert(run(idle(), r.steps) == idle());
        assert(kept(rts, passes).len() == 0);
    } else {
        let front = passes.drop_last();
        let pass = passes.last();
        law_submit_draws_every_pass(rts, cleared, front, knobs);
        crate::gpu::passes::law_touched_targets(rts, cleared, front, knobs);
        crate::gpu::passes::law_one_clear_per_frame(rts, cleared, front, knobs);
        let r0 = record_all(start, front, knobs);
        let d0 = run(idle(), r0.steps);
        let before = kept(rts, front);
        let done = kept(rts, passes);
        lemma_touched_kept(rts, cleared, front, knobs);
        lemma_run_record_one(r0, pass, knobs);
        let out = run(idle(), r.steps);
        if done.len() > before.len() {
            let n = before.len() as int;
            assert forall|i: int| 0 <= i < done.len() implies draws_pass(
                rts,
                done[i],
                #[trigger] out.drawn[i],
            ) && out.drawn[i].with.pass->0.opaque_clear == !knobs.clear_alpha_zero
                && clears_when_fresh(
                rts,
                cleared,
                done,
                i,
                out.drawn[i].with.pass->0.attachment.load_op,
            ) by {
                if i < n {
                    assert(out.drawn.drop_last()[i] == out.drawn[i]);
                    assert(done[i] == before[i]);
                    assert forall|j: int| 0 <= j < i implies (#[trigger] done[j]).target
                        == before[j].target by {}
                    assert((exists|j: int|
                        0 <= j < i && (#[trigger] done[j]).target == done[i].target) == (exists|
                        j: int,
                    |
                        0 <= j < i && (#[trigger] before[j]).target == before[i].target)) by {
                        if exists|j: int|
                            0 <= j < i && (#[trigger] done[j]).target == done[i].target {
                            let j = choose|j: int|
                                0 <= j < i && (#[trigger] done[j]).target == done[i].target;
                            assert(before[j].target == before[i].target);
                        }
                        if exists|j: int|
                            0 <= j < i && (#[trigger] before[j]).target == before[i].target {
                            let j = choose|j: int|
                                0 <= j < i && (#[trigger] before[j]).target == before[i].target;
                            assert(done[j].target == done[i].target);
                        }
                    }
                } else {
                    assert((exists|j: int|
                        0 <= j < n && (#[trigger] done[j]).target == pass.target) == (exists|
                        j: int,
                    |
                        0 <= j < n && (#[trigger] before[j]).target == pass.target)) by {
                        if exists|j: int|
                            0 <= j < n && (#[trigger] done[j]).target == pass.target {
                            let j = choose|j: int|
                                0 <= j < n && (#[trigger] done[j]).target == pass.target;
                            assert(before[j].target == pass.target);
                        }
                        if exists|j: int|
                            0 <= j < n && (#[trigger] before[j]).target == pass.target {
                            let j = choose|j: int|
                                0 <= j < n && (#[trigger] before[j]).target == pass.target;
                            assert(done[j].target == pass.target);
                        }
                    }
                }
            }
            assert(r.videoout_drawn <==> exists|i: int|
                0 <= i < done.len() && (#[trigger] done[i]).target is Videoout) by {
                if r0.videoout_drawn {
                    let i = choose|i: int|
                        0 <= i < before.len() && (#[trigger] before[i]).target is Videoout;
                    assert(done[i].target is Videoout);
                }
                if pass.target is Videoout {
                    assert(done[n].target is Videoout);
                }
                if exists|i: int| 0 <= i < done.len() && (#[trigger] done[i]).target is Videoout {
                    let i = choose|i: int|
                        0 <= i < done.len() && (#[trigger] done[i]).target is Videoout;
                    if i < n {
                        assert(before[i].target is Videoout);
                    }
                }
            }
        }
    }
}

/// A render target has been touched exactly where a pass into it was kept.
proof fn lemma_touched_kept(
    rts: Map<u32, CacheRenderTarget>,
    cleared: bool,
    passes: Seq<PassView>,
    knobs: Knobs,
)
    ensures
        ({
            let r = record_all(recording_start(rts, cleared), passes, knobs);
            let done = kept(rts, passes);
            forall|id: u32| #[trigger]
                r.touched.contains(id) <==> exists|i: int|
                    0 <= i < done.len() && (#[trigger] done[i]).target == PassTarget::RenderTarget(
                        id,
                    )
        }),
    decreases passes.len(),
{
    if passes.len() > 0 {
        let front = passes.drop_last();
        lemma_touched_kept(rts, cleared, front, knobs);
        crate::gpu::passes::law_touched_targets(rts, cleared, front, knobs);
        let r0 = record_all(recording_start(rts, cleared), front, knobs);
        let r = record_all(recording_start(rts, cleared), passes, knobs);
        let before = kept(rts, front);
        let done = kept(rts, passes);
        assert forall|id: u32| #[trigger] r.touched.contains(id) <==> exists|i: int|
            0 <= i < done.len() && (#[trigger] done[i]).target == PassTarget::RenderTarget(id) by {
            if r.touched.contains(id) {
                let k = choose|k: int| 0 <= k < r.touched.len() && r.touched[k] == id;
                if k < r0.touched.len() {
                    assert(r0.touched[k] == id);
                    assert(r0.touched.contains(id));
                    let i = choose|i: int|
                        0 <= i < before.len() && (#[trigger] before[i]).target
                            == PassTarget::RenderTarget(id);
                    assert(done[i].target == PassTarget::RenderTarget(id));
                } else {
                    assert(done[before.len() as int].target == PassTarget::RenderTarget(id));
                }
            }
            if exists|i: int|
                0 <= i < done.len() && (#[trigger] done[i]).target == PassTarget::RenderTarget(id) {
                let i = choose|i: int|
                    0 <= i < done.len() && (#[trigger] done[i]).target == PassTarget::RenderTarget(
                        id,
                    );
                if i < before.len() {
                    assert(before[i].target == PassTarget::RenderTarget(id));
                    assert(r0.touched.contains(id));
                    let k = choose|k: int| 0 <= k < r0.touched.len() && r0.touched[k] == id;
                    assert(r.touched[k] == id);
                } else {
                    assert(r.touched[r0.touched.len() as int] == id);
                }
            }
        }
    } else {
        assert(kept(rts, passes).len() == 0);
    }
}

/// One more pass of a submit draws one draw more, or none where its target is missing.
proof fn lemma_run_record_one(r: Recording, pass: PassView, knobs: Knobs)
    requires
        run(idle(), r.steps).now == nothing_bound(),
    ensures
        ({
            let d0 = run(idle(), r.steps);
            let out = run(idle(), record_one(r, pass, knobs).steps);
            let there = match pass.target {
                PassTarget::Videoout => true,
                PassTarget::RenderTarget(id) => r.render_targets.contains_key(id),
            };
            &&& out.now == nothing_bound()
            &&& !there ==> out == d0
            &&& there ==> {
                &&& out.drawn.len() == d0.drawn.len() + 1
                &&& out.drawn.drop_last() == d0.drawn
                &&& draws_pass(r.render_targets, pass, out.drawn.last())
                &&& out.drawn.last().with.pass->0.opaque_clear == !knobs.clear_alpha_zero
                &&& out.drawn.last().with.pass->0.attachment.load_op == (match pass.target {
                    PassTarget::Videoout => if r.cleared {
                        LoadOp::Load
                    } else {
                        LoadOp::Clear
                    },
                    PassTarget::RenderTarget(id) => if r.render_targets[id].current_layout
                        == ImageLayout::Undefined {
                        LoadOp::Clear
                    } else {
                        LoadOp::Load
                    },
                })
            }
        }),
{
    let tail = crate::gpu::passes::pass_tail(knobs);
    let opaque = !knobs.clear_alpha_zero;
    match pass.target {
        PassTarget::Videoout => {
            let lead = if r.cleared {
                seq![crate::gpu::passes::accumulate_barrier()]
            } else {
                Seq::empty()
            };
            let attachment = if r.cleared {
                crate::gpu::passes::videoout_load_attachment()
            } else {
                crate::gpu::passes::embedded_attachment()
            };
            let body = pass_steps(
                pass,
                attachment,
                crate::gpu::vk::RES_W,
                crate::gpu::vk::RES_H,
                opaque,
            );
            let d0 = run(idle(), r.steps);
            lemma_run_concat(idle(), r.steps + lead + body, tail);
            lemma_run_concat(idle(), r.steps + lead, body);
            lemma_run_concat(idle(), r.steps, lead);
            if r.cleared {
                lemma_run_one(d0, crate::gpu::passes::accumulate_barrier());
            }
            law_pass_draws_once_with_its_state(
                d0,
                pass,
                attachment,
                crate::gpu::vk::RES_W,
                crate::gpu::vk::RES_H,
                opaque,
            );
            let d2 = run(d0, body);
            if knobs.full_barrier {
                lemma_run_one(d2, crate::gpu::passes::full_barrier());
            }
        },
        PassTarget::RenderTarget(id) => {
            if r.render_targets.contains_key(id) {
                let rt = r.render_targets[id];
                let attachment = crate::gpu::passes::rt_attachment(rt);
                let body = pass_steps(pass, attachment, rt.width, rt.height, opaque);
                let after = seq![crate::gpu::passes::sample_barrier(rt.image)];
                let d0 = run(idle(), r.steps);
                lemma_run_concat(idle(), r.steps + body + after, tail);
                lemma_run_concat(idle(), r.steps + body, after);
                lemma_run_concat(idle(), r.steps, body);
                law_pass_draws_once_with_its_state(
                    d0,
                    pass,
                    attachment,
                    rt.width,
                    rt.height,
                    opaque,
                );
                let d2 = run(d0, body);
                lemma_run_one(d2, crate::gpu::passes::sample_barrier(rt.image));
                if knobs.full_barrier {
                    lemma_run_one(d2, crate::gpu::passes::full_barrier());
                }
            }
        },
    }
}

} // verus!
