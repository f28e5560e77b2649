//! One submit: every resolved draw of a list, recorded in order behind one fence.
//!
//! Two things outlive a submit and decide how the next one starts.  A render target
//! keeps the layout its last pass left it in: a first use clears, a later one loads.
//! The videoout target is cleared by the first pass of a guest frame only, so the
//! draws of a frame add up over however many submits the guest splits it into.
//!
//! Where the fence does not signal in time, nothing the submit was to do can be counted
//! on: the targets it touched fall back to undefined, and the frame is as clear, or as
//! uncleared, as it was before.

use std::collections::HashMap;
use vstd::prelude::*;

use crate::gpu::record::{binds_countable, has_descriptors, lemma_pass_tail, pass_steps, record_pass_into};
use crate::gpu::resources::CacheRenderTarget;
use crate::gpu::steps::{
    append_steps, layout_after, layout_step, leaves_alone, lemma_layout_concat, lemma_layout_kept,
    Attachment, ImageBarrier, ImageRef, Step,
};
use crate::gpu::vk::{
    ImageLayout, LoadOp, ACCESS_COLOR_ATTACHMENT_READ_WRITE, ACCESS_COLOR_ATTACHMENT_WRITE,
    ACCESS_MEMORY_READ_WRITE, ACCESS_MEMORY_WRITE, ACCESS_SHADER_READ, RES_H, RES_W,
    STAGE_ALL_COMMANDS, STAGE_COLOR_ATTACHMENT_OUTPUT, STAGE_FRAGMENT_SHADER,
};
use crate::gpu::walk::{pass_views, PassTarget, PassView, RecordedPass};

verus! {

broadcast use vstd::std_specs::hash::group_hash_axioms;

/// The render pass every frame's first videoout pass goes through: it clears.
pub open spec fn embedded_attachment() -> Attachment {
    Attachment {
        image: ImageRef::Videoout,
        view: 0,
        load_op: LoadOp::Clear,
        initial_layout: ImageLayout::Undefined,
        final_layout: ImageLayout::ShaderReadOnly,
        width: RES_W,
        height: RES_H,
        transient: false,
    }
}

pub fn create_embedded_target() -> (a: Attachment)
    ensures
        a == embedded_attachment(),
{
    Attachment {
        image: ImageRef::Videoout,
        view: 0,
        load_op: LoadOp::Clear,
        initial_layout: ImageLayout::Undefined,
        final_layout: ImageLayout::ShaderReadOnly,
        width: RES_W,
        height: RES_H,
        transient: false,
    }
}

/// The render pass every later videoout pass of a frame goes through: it keeps what the
/// passes before it drew.
pub open spec fn videoout_load_attachment() -> Attachment {
    Attachment {
        image: ImageRef::Videoout,
        view: 0,
        load_op: LoadOp::Load,
        initial_layout: ImageLayout::ShaderReadOnly,
        final_layout: ImageLayout::ShaderReadOnly,
        width: RES_W,
        height: RES_H,
        transient: true,
    }
}

pub fn create_videoout_load_target() -> (a: Attachment)
    ensures
        a == videoout_load_attachment(),
{
    Attachment {
        image: ImageRef::Videoout,
        view: 0,
        load_op: LoadOp::Load,
        initial_layout: ImageLayout::ShaderReadOnly,
        final_layout: ImageLayout::ShaderReadOnly,
        width: RES_W,
        height: RES_H,
        transient: true,
    }
}

/// The render pass into an offscreen target: from nothing on its first use, else from
/// the layout it was left in.
pub open spec fn rt_attachment(rt: CacheRenderTarget) -> Attachment {
    let first_use = rt.current_layout == ImageLayout::Undefined;
    Attachment {
        image: ImageRef::Handle(rt.image),
        view: rt.view,
        load_op: if first_use {
            LoadOp::Clear
        } else {
            LoadOp::Load
        },
        initial_layout: rt.current_layout,
        final_layout: ImageLayout::ColorAttachment,
        width: if rt.width == 0 {
            1
        } else {
            rt.width
        },
        height: if rt.height == 0 {
            1
        } else {
            rt.height
        },
        transient: true,
    }
}

pub fn create_rt_target(rt: &CacheRenderTarget) -> (a: Attachment)
    ensures
        a == rt_attachment(*rt),
{
    let load_op = match rt.current_layout {
        ImageLayout::Undefined => LoadOp::Clear,
        _ => LoadOp::Load,
    };
    let width: u32 = if rt.width == 0 {
        1
    } else {
        rt.width
    };
    let height: u32 = if rt.height == 0 {
        1
    } else {
        rt.height
    };
    Attachment {
        image: ImageRef::Handle(rt.image),
        view: rt.view,
        load_op,
        initial_layout: rt.current_layout,
        final_layout: ImageLayout::ColorAttachment,
        width,
        height,
        transient: true,
    }
}

/// The draws before are visible to the next pass that adds to the frame.
pub open spec fn accumulate_barrier() -> Step {
    Step::Barrier(
        ImageBarrier {
            image: ImageRef::Videoout,
            old_layout: ImageLayout::ShaderReadOnly,
            new_layout: ImageLayout::ShaderReadOnly,
            src_access: ACCESS_COLOR_ATTACHMENT_WRITE,
            dst_access: ACCESS_COLOR_ATTACHMENT_READ_WRITE,
            src_stage: STAGE_COLOR_ATTACHMENT_OUTPUT,
            dst_stage: STAGE_COLOR_ATTACHMENT_OUTPUT,
        },
    )
}

/// A target that was drawn into may be sampled.
pub open spec fn sample_barrier(image: u64) -> Step {
    Step::Barrier(
        ImageBarrier {
            image: ImageRef::Handle(image),
            old_layout: ImageLayout::ColorAttachment,
            new_layout: ImageLayout::ShaderReadOnly,
            src_access: ACCESS_COLOR_ATTACHMENT_WRITE,
            dst_access: ACCESS_SHADER_READ,
            src_stage: STAGE_COLOR_ATTACHMENT_OUTPUT,
            dst_stage: STAGE_FRAGMENT_SHADER,
        },
    )
}

/// The widest barrier there is, a debugging aid.
pub open spec fn full_barrier() -> Step {
    Step::FullBarrier {
        src_access: ACCESS_MEMORY_WRITE,
        dst_access: ACCESS_MEMORY_READ_WRITE,
        src_stage: STAGE_ALL_COMMANDS,
        dst_stage: STAGE_ALL_COMMANDS,
    }
}

/// Debugging aids of the recorder, both off by default.
#[derive(Clone, Copy, Debug, PartialEq, Eq, Structural)]
pub struct Knobs {
    /// Put the widest barrier behind every pass.
    pub full_barrier: bool,
    /// Clear to transparent instead of opaque black.
    pub clear_alpha_zero: bool,
}

/// What recording has come to.
#[verifier::ext_equal]
pub struct Recording {
    pub steps: Seq<Step>,
    pub render_targets: Map<u32, CacheRenderTarget>,
    /// The frame has been cleared.
    pub cleared: bool,
    /// This submit draws into the videoout target.
    pub videoout_drawn: bool,
    /// The render targets this submit draws into, in order, one entry per pass.
    pub touched: Seq<u32>,
    pub transients: nat,
    pub descriptor_pools: nat,
    pub draws: nat,
}

/// The commands behind a recorded pass.
pub open spec fn pass_tail(knobs: Knobs) -> Seq<Step> {
    if knobs.full_barrier {
        seq![full_barrier()]
    } else {
        Seq::empty()
    }
}

pub open spec fn pool_count(pass: PassView) -> nat {
    if has_descriptors(pass) {
        1
    } else {
        0
    }
}

/// One more pass.  A pass into a target nobody made is dropped.
pub open spec fn record_one(r: Recording, pass: PassView, knobs: Knobs) -> Recording {
    match pass.target {
        PassTarget::Videoout => {
            let attachment = if r.cleared {
                videoout_load_attachment()
            } else {
                embedded_attachment()
            };
            Recording {
                steps: r.steps + (if r.cleared {
                    seq![accumulate_barrier()]
                } else {
                    Seq::empty()
                }) + pass_steps(pass, attachment, RES_W, RES_H, !knobs.clear_alpha_zero)
                    + pass_tail(knobs),
                cleared: true,
                videoout_drawn: true,
                transients: r.transients + (if r.cleared {
                    1nat
                } else {
                    0
                }),
                descriptor_pools: r.descriptor_pools + pool_count(pass),
                draws: r.draws + 1,
                ..r
            }
        },
        PassTarget::RenderTarget(id) => if r.render_targets.contains_key(id) {
            let rt = r.render_targets[id];
            Recording {
                steps: r.steps + pass_steps(
                    pass,
                    rt_attachment(rt),
                    rt.width,
                    rt.height,
                    !knobs.clear_alpha_zero,
                ) + seq![sample_barrier(rt.image)] + pass_tail(knobs),
                render_targets: r.render_targets.insert(
                    id,
                    CacheRenderTarget { current_layout: ImageLayout::ShaderReadOnly, ..rt },
                ),
                touched: r.touched.push(id),
                transients: r.transients + 1,
                descriptor_pools: r.descriptor_pools + pool_count(pass),
                draws: r.draws + 1,
                ..r
            }
        } else {
            r
        },
    }
}

/// Before the first pass of a submit.
pub open spec fn recording_start(
    render_targets: Map<u32, CacheRenderTarget>,
    cleared: bool,
) -> Recording {
    Recording {
        steps: Seq::empty(),
        render_targets,
        cleared,
        videoout_drawn: false,
        touched: Seq::empty(),
        transients: 0,
        descriptor_pools: 0,
        draws: 0,
    }
}

/// All the passes of a submit.
pub open spec fn record_all(r: Recording, passes: Seq<PassView>, knobs: Knobs) -> Recording
    decreases passes.len(),
{
    if passes.len() == 0 {
        r
    } else {
        record_one(record_all(r, passes.drop_last(), knobs), passes.last(), knobs)
    }
}

/// A submit ready to be handed to the device.
#[derive(Debug)]
pub struct SubmitPlan {
    pub steps: Vec<Step>,
    pub touched: Vec<u32>,
    pub videoout_drawn: bool,
    pub cleared_at_entry: bool,
    pub passes: u64,
    pub draws: u64,
    pub transients: u64,
    pub descriptor_pools: u64,
}

/// Record every pass of a list: the commands of the submit, and the tracked layouts and
/// the frame's clear latch as they are once it has run.
pub fn record_passes(
    render_targets: &mut HashMap<u32, CacheRenderTarget>,
    cleared: &mut bool,
    passes: &Vec<RecordedPass>,
    knobs: Knobs,
) -> (plan: SubmitPlan)
    requires
        forall|i: int| 0 <= i < passes@.len() ==> binds_countable(#[trigger] passes@[i]@),
        passes@.len() <= u32::MAX,
    ensures
        ({
            let r = record_all(
                recording_start(old(render_targets)@, *old(cleared)),
                pass_views(passes@),
                knobs,
            );
            &&& plan.steps@ == r.steps
            &&& plan.touched@ == r.touched
            &&& plan.videoout_drawn == r.videoout_drawn
            &&& plan.cleared_at_entry == *old(cleared)
            &&& plan.passes == passes@.len()
            &&& plan.draws == r.draws
            &&& plan.transients == r.transients
            &&& plan.descriptor_pools == r.descriptor_pools
            &&& final(render_targets)@ == r.render_targets
            &&& *final(cleared) == r.cleared
        }),
{
    let ghost views = pass_views(passes@);
    let ghost start = recording_start(render_targets@, *cleared);
    let cleared_at_entry: bool = *cleared;
    let mut steps: Vec<Step> = Vec::new();
    let mut touched: Vec<u32> = Vec::new();
    let mut videoout_drawn: bool = false;
    let mut draws: u64 = 0;
    let mut transients: u64 = 0;
    let mut descriptor_pools: u64 = 0;
    let mut i: usize = 0;
    assert(views.take(0) == Seq::<PassView>::empty());
    while i < passes.len()
        invariant
            i <= passes@.len(),
            passes@.len() <= u32::MAX,
            views == pass_views(passes@),
            forall|j: int| 0 <= j < passes@.len() ==> binds_countable(#[trigger] passes@[j]@),
            draws <= i,
            transients <= i,
            descriptor_pools <= i,
            record_all(start, views.take(i as int), knobs) == (Recording {
                steps: steps@,
                render_targets: render_targets@,
                cleared: *cleared,
                videoout_drawn,
                touched: touched@,
                transients: transients as nat,
                descriptor_pools: descriptor_pools as nat,
                draws: draws as nat,
            }),
        decreases passes@.len() - i,
    {
        let pass = &passes[i];
        let ghost before = record_all(start, views.take(i as int), knobs);
        proof {
            assert(views.take(i + 1).drop_last() == views.take(i as int));
            assert(views.take(i + 1).last() == pass@);
        }
        let ghost begun = steps@;
        let mut recorded: bool = true;
        match pass.target {
            PassTarget::Videoout => {
                let attachment = if *cleared {
                    steps.push(
                        Step::Barrier(
                            ImageBarrier {
                                image: ImageRef::Videoout,
                                old_layout: ImageLayout::ShaderReadOnly,
                                new_layout: ImageLayout::ShaderReadOnly,
                                src_access: ACCESS_COLOR_ATTACHMENT_WRITE,
                                dst_access: ACCESS_COLOR_ATTACHMENT_READ_WRITE,
                                src_stage: STAGE_COLOR_ATTACHMENT_OUTPUT,
                                dst_stage: STAGE_COLOR_ATTACHMENT_OUTPUT,
                            },
                        ),
                    );
                    transients = transients + 1;
                    create_videoout_load_target()
                } else {
                    create_embedded_target()
                };
                let drawn = record_pass_into(
                    pass,
                    attachment,
                    RES_W,
                    RES_H,
                    !knobs.clear_alpha_zero,
                );
                append_steps(&mut steps, &drawn);
                videoout_drawn = true;
                *cleared = true;
            },
            PassTarget::RenderTarget(id) => {
                match render_targets.get(&id) {
                    Some(found) => {
                        let rt = *found;
                        let drawn = record_pass_into(
                            pass,
                            create_rt_target(&rt),
                            rt.width,
                            rt.height,
                            !knobs.clear_alpha_zero,
                        );
                        append_steps(&mut steps, &drawn);
                        steps.push(
                            Step::Barrier(
                                ImageBarrier {
                                    image: ImageRef::Handle(rt.image),
                                    old_layout: ImageLayout::ColorAttachment,
                                    new_layout: ImageLayout::ShaderReadOnly,
                                    src_access: ACCESS_COLOR_ATTACHMENT_WRITE,
                                    dst_access: ACCESS_SHADER_READ,
                                    src_stage: STAGE_COLOR_ATTACHMENT_OUTPUT,
                                    dst_stage: STAGE_FRAGMENT_SHADER,
                                },
                            ),
                        );
                        render_targets.insert(
                            id,
                            CacheRenderTarget {
                                image: rt.image,
                                view: rt.view,
                                mem: rt.mem,
                                width: rt.width,
                                height: rt.height,
                                current_layout: ImageLayout::ShaderReadOnly,
                            },
                        );
                        touched.push(id);
                        transients = transients + 1;
                    },
                    None => {
                        recorded = false;
                    },
                }
            },
        }
        if recorded {
            let bound: bool = pass.storage_binds.len() > 0 || pass.const_binds.len() > 0
                || pass.texture_binds.len() > 0;
            if bound && pass.set_layout.is_some() {
                descriptor_pools = descriptor_pools + 1;
            }
            draws = draws + 1;
            if knobs.full_barrier {
                steps.push(
                    Step::FullBarrier {
                        src_access: ACCESS_MEMORY_WRITE,
                        dst_access: ACCESS_MEMORY_READ_WRITE,
                        src_stage: STAGE_ALL_COMMANDS,
                        dst_stage: STAGE_ALL_COMMANDS,
                    },
                );
            }
        }
        proof {
            let after = Recording {
                steps: steps@,
                render_targets: render_targets@,
                cleared: *cleared,
                videoout_drawn,
                touched: touched@,
                transients: transients as nat,
                descriptor_pools: descriptor_pools as nat,
                draws: draws as nat,
            };
            let expected = record_one(before, pass@, knobs);
            assert(after.steps =~= expected.steps);
            assert(after =~= expected);
        }
        i = i + 1;
    }
    assert(views.take(i as int) == views);
    SubmitPlan {
        steps,
        touched,
        videoout_drawn,
        cleared_at_entry,
        passes: passes.len() as u64,
        draws,
        transients,
        descriptor_pools,
    }
}

/// The tracked layouts once a submit is known not to have run.
pub open spec fn rolled_back(
    render_targets: Map<u32, CacheRenderTarget>,
    touched: Seq<u32>,
) -> Map<u32, CacheRenderTarget> {
    render_targets.map_entries(
        |id: u32, rt: CacheRenderTarget|
            if touched.contains(id) {
                CacheRenderTarget { current_layout: ImageLayout::Undefined, ..rt }
            } else {
                rt
            },
    )
}

/// Take back what a submit was to do, after its fence did not signal in time.
pub fn roll_back(
    render_targets: &mut HashMap<u32, CacheRenderTarget>,
    cleared: &mut bool,
    plan: &SubmitPlan,
)
    ensures
        final(render_targets)@ == rolled_back(old(render_targets)@, plan.touched@),
        *final(cleared) == (*old(cleared) && !(plan.videoout_drawn && !plan.cleared_at_entry)),
{
    let ghost before = render_targets@;
    let ghost all = plan.touched@;
    let mut i: usize = 0;
    assert(render_targets@ =~= rolled_back(before, all.take(0)));
    while i < plan.touched.len()
        invariant
            i <= all.len(),
            all == plan.touched@,
            render_targets@ == rolled_back(before, all.take(i as int)),
        decreases all.len() - i,
    {
        let id: u32 = plan.touched[i];
        let ghost now = render_targets@;
        if let Some(found) = render_targets.get(&id) {
            let rt = *found;
            render_targets.insert(
                id,
                CacheRenderTarget {
                    image: rt.image,
                    view: rt.view,
                    mem: rt.mem,
                    width: rt.width,
                    height: rt.height,
                    current_layout: ImageLayout::Undefined,
                },
            );
        }
        proof {
            let more = all.take(i + 1);
            assert(more == all.take(i as int).push(id));
            assert forall|k: u32| more.contains(k) == (all.take(i as int).contains(k) || k == id) by {
                if all.take(i as int).contains(k) {
                    let j = choose|j: int| 0 <= j < i && all.take(i as int)[j] == k;
                    assert(more[j] == k);
                }
                if k == id {
                    assert(more[i as int] == k);
                }
            }
            assert(render_targets@ =~= rolled_back(before, more));
        }
        i = i + 1;
    }
    assert(all.take(i as int) == all);
    if plan.videoout_drawn && !plan.cleared_at_entry {
        *cleared = false;
    }
}

/// The step clears the videoout target.
pub open spec fn clears_videoout(step: Step) -> bool {
    match step {
        Step::BeginPass { attachment, .. } => attachment.image == ImageRef::Videoout
            && attachment.load_op == LoadOp::Clear,
        _ => false,
    }
}

/// How often a list of steps clears the videoout target.
pub open spec fn videoout_clears(steps: Seq<Step>) -> nat
    decreases steps.len(),
{
    if steps.len() == 0 {
        0
    } else {
        videoout_clears(steps.drop_last()) + (if clears_videoout(steps.last()) {
            1nat
        } else {
            0
        })
    }
}

proof fn lemma_clears_concat(a: Seq<Step>, b: Seq<Step>)
    ensures
        videoout_clears(a + b) == videoout_clears(a) + videoout_clears(b),
    decreases b.len(),
{
    if b.len() == 0 {
        assert(a + b == a);
    } else {
        assert((a + b).drop_last() == a + b.drop_last());
        lemma_clears_concat(a, b.drop_last());
    }
}

proof fn lemma_no_clears(steps: Seq<Step>)
    requires
        forall|i: int| 0 <= i < steps.len() ==> !clears_videoout(#[trigger] steps[i]),
    ensures
        videoout_clears(steps) == 0,
    decreases steps.len(),
{
    if steps.len() > 0 {
        lemma_no_clears(steps.drop_last());
        assert(!clears_videoout(steps[steps.len() - 1]));
    }
}

proof fn lemma_pass_clears(
    pass: PassView,
    attachment: Attachment,
    width: u32,
    height: u32,
    opaque_clear: bool,
)
    ensures
        videoout_clears(pass_steps(pass, attachment, width, height, opaque_clear)) == (if
            attachment.image == ImageRef::Videoout && attachment.load_op == LoadOp::Clear {
            1nat
        } else {
            0
        }),
{
    let steps = pass_steps(pass, attachment, width, height, opaque_clear);
    lemma_pass_tail(pass, attachment, width, height, opaque_clear, ImageRef::Videoout);
    let head = steps.take(1);
    let tail = steps.skip(1);
    assert(steps == head + tail);
    assert forall|i: int| 0 <= i < tail.len() implies !clears_videoout(#[trigger] tail[i]) by {
        assert(tail[i] == steps[i + 1]);
        assert(leaves_alone(steps[i + 1], ImageRef::Videoout));
    }
    lemma_no_clears(tail);
    lemma_clears_concat(head, tail);
    assert(head.drop_last() == Seq::<Step>::empty());
    assert(head.last() == steps[0]);
    assert(videoout_clears(head.drop_last()) == 0);
}

/// A frame is cleared once: by its first videoout pass, and by no submit that finds it
/// cleared already.
pub proof fn law_one_clear_per_frame(
    render_targets: Map<u32, CacheRenderTarget>,
    cleared: bool,
    passes: Seq<PassView>,
    knobs: Knobs,
)
    ensures
        ({
            let r = record_all(recording_start(render_targets, cleared), passes, knobs);
            &&& r.cleared == (cleared || r.videoout_drawn)
            &&& videoout_clears(r.steps) == (if !cleared && r.videoout_drawn {
                1nat
            } else {
                0
            })
        }),
    decreases passes.len(),
{
    if passes.len() > 0 {
        law_one_clear_per_frame(render_targets, cleared, passes.drop_last(), knobs);
        let r = record_all(recording_start(render_targets, cleared), passes.drop_last(), knobs);
        let pass = passes.last();
        let tail = pass_tail(knobs);
        lemma_no_clears(tail);
        match pass.target {
            PassTarget::Videoout => {
                let attachment = if r.cleared {
                    videoout_load_attachment()
                } else {
                    embedded_attachment()
                };
                let lead = if r.cleared {
                    seq![accumulate_barrier()]
                } else {
                    Seq::empty()
                };
                let body = pass_steps(pass, attachment, RES_W, RES_H, !knobs.clear_alpha_zero);
                lemma_no_clears(lead);
                lemma_pass_clears(pass, attachment, RES_W, RES_H, !knobs.clear_alpha_zero);
                lemma_clears_concat(r.steps, lead);
                lemma_clears_concat(r.steps + lead, body);
                lemma_clears_concat(r.steps + lead + body, tail);
            },
            PassTarget::RenderTarget(id) => {
                if r.render_targets.contains_key(id) {
                    let rt = r.render_targets[id];
                    let body = pass_steps(
                        pass,
                        rt_attachment(rt),
                        rt.width,
                        rt.height,
                        !knobs.clear_alpha_zero,
                    );
                    let after = seq![sample_barrier(rt.image)];
                    lemma_no_clears(after);
                    lemma_pass_clears(
                        pass,
                        rt_attachment(rt),
                        rt.width,
                        rt.height,
                        !knobs.clear_alpha_zero,
                    );
                    lemma_clears_concat(r.steps, body);
                    lemma_clears_concat(r.steps + body, after);
                    lemma_clears_concat(r.steps + body + after, tail);
                }
            },
        }
    } else {
        assert(videoout_clears(Seq::<Step>::empty()) == 0);
    }
}

/// The draws of one frame add up: where a submit has drawn into the frame, no later
/// submit of the frame clears it.
pub proof fn law_frame_accumulates(
    render_targets: Map<u32, CacheRenderTarget>,
    cleared: bool,
    first: Seq<PassView>,
    second: Seq<PassView>,
    knobs: Knobs,
)
    ensures
        ({
            let a = record_all(recording_start(render_targets, cleared), first, knobs);
            let b = record_all(recording_start(a.render_targets, a.cleared), second, knobs);
            a.videoout_drawn ==> videoout_clears(b.steps) == 0
        }),
{
    law_one_clear_per_frame(render_targets, cleared, first, knobs);
    let a = record_all(recording_start(render_targets, cleared), first, knobs);
    law_one_clear_per_frame(a.render_targets, a.cleared, second, knobs);
}

/// A submit changes no target it does not draw into; one it does draw into can be
/// sampled after it.
pub proof fn law_touched_targets(
    render_targets: Map<u32, CacheRenderTarget>,
    cleared: bool,
    passes: Seq<PassView>,
    knobs: Knobs,
)
    ensures
        ({
            let r = record_all(recording_start(render_targets, cleared), passes, knobs);
            &&& r.render_targets.dom() == render_targets.dom()
            &&& forall|id: u32| #[trigger]
                render_targets.contains_key(id) ==> r.render_targets[id] == (
                CacheRenderTarget {
                    current_layout: if r.touched.contains(id) {
                        ImageLayout::ShaderReadOnly
                    } else {
                        render_targets[id].current_layout
                    },
                    ..render_targets[id]
                })
            &&& forall|i: int|
                0 <= i < r.touched.len() ==> render_targets.contains_key(#[trigger] r.touched[i])
        }),
    decreases passes.len(),
{
    if passes.len() > 0 {
        law_touched_targets(render_targets, cleared, passes.drop_last(), knobs);
        let r0 = record_all(recording_start(render_targets, cleared), passes.drop_last(), knobs);
        let r = record_all(recording_start(render_targets, cleared), passes, knobs);
        match passes.last().target {
            PassTarget::Videoout => {},
            PassTarget::RenderTarget(k) => {
                if r0.render_targets.contains_key(k) {
                    assert(r.touched == r0.touched.push(k));
                    assert(r.touched[r0.touched.len() as int] == k);
                    assert forall|id: u32| #[trigger] r0.touched.contains(id) implies r.touched.contains(
                        id,
                    ) by {
                        let i = choose|i: int| 0 <= i < r0.touched.len() && r0.touched[i] == id;
                        assert(r.touched[i] == id);
                    }
                    assert forall|id: u32|
                        #[trigger] r.touched.contains(id) implies r0.touched.contains(id) || id
                        == k by {
                        let i = choose|i: int| 0 <= i < r.touched.len() && r.touched[i] == id;
                        if i < r0.touched.len() {
                            assert(r0.touched[i] == id);
                        }
                    }
                    assert(r.render_targets.dom() =~= render_targets.dom());
                }
            },
        }
    }
}

/// A submit that did not run leaves no trace but this: the targets it was to draw into
/// are undefined, so that the next pass into one clears it.  The frame is cleared where
/// it was cleared before, and nowhere else.
pub proof fn law_timeout_rolls_back(
    render_targets: Map<u32, CacheRenderTarget>,
    cleared: bool,
    passes: Seq<PassView>,
    knobs: Knobs,
)
    ensures
        ({
            let r = record_all(recording_start(render_targets, cleared), passes, knobs);
            let back = rolled_back(r.render_targets, r.touched);
            &&& (r.cleared && !(r.videoout_drawn && !cleared)) == cleared
            &&& back.dom() == render_targets.dom()
            &&& forall|id: u32| #[trigger]
                render_targets.contains_key(id) ==> back[id] == (if r.touched.contains(id) {
                    CacheRenderTarget {
                        current_layout: ImageLayout::Undefined,
                        ..render_targets[id]
                    }
                } else {
                    render_targets[id]
                })
        }),
{
    law_one_clear_per_frame(render_targets, cleared, passes, knobs);
    law_touched_targets(render_targets, cleared, passes, knobs);
    let r = record_all(recording_start(render_targets, cleared), passes, knobs);
    assert(rolled_back(r.render_targets, r.touched).dom() =~= render_targets.dom());
}

/// No two render targets are one image.
pub open spec fn images_distinct(render_targets: Map<u32, CacheRenderTarget>) -> bool {
    forall|a: u32, b: u32|
        render_targets.contains_key(a) && render_targets.contains_key(b) && a != b ==> (
        #[trigger] render_targets[a]).image != (#[trigger] render_targets[b]).image
}

proof fn lemma_pass_layout(
    pass: PassView,
    attachment: Attachment,
    width: u32,
    height: u32,
    opaque_clear: bool,
    image: ImageRef,
    layout: ImageLayout,
)
    ensures
        layout_after(
            pass_steps(pass, attachment, width, height, opaque_clear),
            image,
            layout,
        ) == layout_step(
            Step::BeginPass { attachment, width, height, opaque_clear },
            image,
            layout,
        ),
{
    let steps = pass_steps(pass, attachment, width, height, opaque_clear);
    lemma_pass_tail(pass, attachment, width, height, opaque_clear, image);
    let head = steps.take(1);
    let tail = steps.skip(1);
    assert(steps == head + tail);
    assert(head.drop_last() == Seq::<Step>::empty());
    assert(head.last() == steps[0]);
    assert(layout_after(head.drop_last(), image, layout) == Some(layout));
    lemma_layout_concat(head, tail, image, layout);
    assert forall|i: int| 0 <= i < tail.len() implies leaves_alone(#[trigger] tail[i], image) by {
        assert(tail[i] == steps[i + 1]);
    }
    match layout_step(steps[0], image, layout) {
        Some(l) => lemma_layout_kept(tail, image, l),
        None => {},
    }
}

proof fn lemma_one_layout(step: Step, image: ImageRef, layout: ImageLayout)
    ensures
        layout_after(seq![step], image, layout) == layout_step(step, image, layout),
{
    assert(seq![step].drop_last() == Seq::<Step>::empty());
    assert(layout_after(seq![step].drop_last(), image, layout) == Some(layout));
}

/// The tracked layout of every render target is the one its image is in: each pass and
/// barrier of a submit finds the image as it expects it, and leaves it as tracked.
pub proof fn law_render_target_layouts(
    render_targets: Map<u32, CacheRenderTarget>,
    cleared: bool,
    passes: Seq<PassView>,
    knobs: Knobs,
    id: u32,
)
    requires
        images_distinct(render_targets),
        render_targets.contains_key(id),
    ensures
        ({
            let r = record_all(recording_start(render_targets, cleared), passes, knobs);
            layout_after(
                r.steps,
                ImageRef::Handle(render_targets[id].image),
                render_targets[id].current_layout,
            ) == Some(r.render_targets[id].current_layout)
        }),
    decreases passes.len(),
{
    let image = ImageRef::Handle(render_targets[id].image);
    let layout = render_targets[id].current_layout;
    if passes.len() > 0 {
        law_render_target_layouts(render_targets, cleared, passes.drop_last(), knobs, id);
        law_touched_targets(render_targets, cleared, passes.drop_last(), knobs);
        let r0 = record_all(recording_start(render_targets, cleared), passes.drop_last(), knobs);
        let pass = passes.last();
        let tail = pass_tail(knobs);
        let now = r0.render_targets[id].current_layout;
        match pass.target {
            PassTarget::Videoout => {
                let attachment = if r0.cleared {
                    videoout_load_attachment()
                } else {
                    embedded_attachment()
                };
                let lead = if r0.cleared {
                    seq![accumulate_barrier()]
                } else {
                    Seq::empty()
                };
                let body = pass_steps(pass, attachment, RES_W, RES_H, !knobs.clear_alpha_zero);
                lemma_layout_kept(lead, image, now);
                lemma_pass_layout(
                    pass,
                    attachment,
                    RES_W,
                    RES_H,
                    !knobs.clear_alpha_zero,
                    image,
                    now,
                );
                lemma_layout_kept(tail, image, now);
                lemma_layout_concat(r0.steps, lead, image, layout);
                lemma_layout_concat(r0.steps + lead, body, image, layout);
                lemma_layout_concat(r0.steps + lead + body, tail, image, layout);
            },
            PassTarget::RenderTarget(k) => {
                if r0.render_targets.contains_key(k) {
                    let rt = r0.render_targets[k];
                    let body = pass_steps(
                        pass,
                        rt_attachment(rt),
                        rt.width,
                        rt.height,
                        !knobs.clear_alpha_zero,
                    );
                    let after = seq![sample_barrier(rt.image)];
                    lemma_pass_layout(
                        pass,
                        rt_attachment(rt),
                        rt.width,
                        rt.height,
                        !knobs.clear_alpha_zero,
                        image,
                        now,
                    );
                    assert(render_targets.contains_key(k));
                    let drawn = if k == id {
                        ImageLayout::ColorAttachment
                    } else {
                        now
                    };
                    lemma_one_layout(sample_barrier(rt.image), image, drawn);
                    let end = if k == id {
                        ImageLayout::ShaderReadOnly
                    } else {
                        now
                    };
                    lemma_layout_kept(tail, image, end);
                    lemma_layout_concat(r0.steps, body, image, layout);
                    lemma_layout_concat(r0.steps + body, after, image, layout);
                    lemma_layout_concat(r0.steps + body + after, tail, image, layout);
                }
            },
        }
    } else {
        assert(layout_after(Seq::<Step>::empty(), image, layout) == Some(layout));
    }
}

/// The videoout target is ready to be sampled whenever the frame is cleared: a submit
/// that finds a cleared frame finds it so and leaves it so, and the first draw of a
/// frame makes it so whatever layout it was in.
pub proof fn law_videoout_layout(
    render_targets: Map<u32, CacheRenderTarget>,
    cleared: bool,
    passes: Seq<PassView>,
    knobs: Knobs,
    layout: ImageLayout,
)
    requires
        cleared ==> layout == ImageLayout::ShaderReadOnly,
    ensures
        ({
            let r = record_all(recording_start(render_targets, cleared), passes, knobs);
            layout_after(r.steps, ImageRef::Videoout, layout) == Some(
                if r.cleared {
                    ImageLayout::ShaderReadOnly
                } else {
                    layout
                },
            )
        }),
    decreases passes.len(),
{
    let image = ImageRef::Videoout;
    if passes.len() > 0 {
        law_videoout_layout(render_targets, cleared, passes.drop_last(), knobs, layout);
        let r0 = record_all(recording_start(render_targets, cleared), passes.drop_last(), knobs);
        let pass = passes.last();
        let tail = pass_tail(knobs);
        let now = if r0.cleared {
            ImageLayout::ShaderReadOnly
        } else {
            layout
        };
        match pass.target {
            PassTarget::Videoout => {
                let attachment = if r0.cleared {
                    videoout_load_attachment()
                } else {
                    embedded_attachment()
                };
                let lead = if r0.cleared {
                    seq![accumulate_barrier()]
                } else {
                    Seq::empty()
                };
                let body = pass_steps(pass, attachment, RES_W, RES_H, !knobs.clear_alpha_zero);
                if r0.cleared {
                    lemma_one_layout(accumulate_barrier(), image, now);
                } else {
                    lemma_layout_kept(lead, image, now);
                }
                lemma_pass_layout(
                    pass,
                    attachment,
                    RES_W,
                    RES_H,
                    !knobs.clear_alpha_zero,
                    image,
                    now,
                );
                lemma_layout_kept(tail, image, ImageLayout::ShaderReadOnly);
                lemma_layout_concat(r0.steps, lead, image, layout);
                lemma_layout_concat(r0.steps + lead, body, image, layout);
                lemma_layout_concat(r0.steps + lead + body, tail, image, layout);
            },
            PassTarget::RenderTarget(k) => {
                if r0.render_targets.contains_key(k) {
                    let rt = r0.render_targets[k];
                    let body = pass_steps(
                        pass,
                        rt_attachment(rt),
                        rt.width,
                        rt.height,
                        !knobs.clear_alpha_zero,
                    );
                    let after = seq![sample_barrier(rt.image)];
                    lemma_pass_layout(
                        pass,
                        rt_attachment(rt),
                        rt.width,
                        rt.height,
                        !knobs.clear_alpha_zero,
                        image,
                        now,
                    );
                    lemma_layout_kept(after, image, now);
                    lemma_layout_kept(tail, image, now);
                    lemma_layout_concat(r0.steps, body, image, layout);
                    lemma_layout_concat(r0.steps + body, after, image, layout);
                    lemma_layout_concat(r0.steps + body + after, tail, image, layout);
                }
            },
        }
    } else {
        assert(layout_after(Seq::<Step>::empty(), image, layout) == Some(layout));
    }
}

/// Passes are kept apart on the device.  A pass that adds to the frame waits until what was
/// drawn into it before has been written (access 0x100 before 0x180, both at stage 0x400); a
/// render target is made ready to be sampled right behind its pass (access 0x100 at stage 0x400
/// before 0x20 at stage 0x80).  With the widest barrier asked for, one stands behind every
/// pass: all writes (0x10000) before all reads and writes (0x18000).
pub proof fn law_passes_are_kept_apart(r: Recording, pass: PassView, knobs: Knobs)
    ensures
        ({
            let after = record_one(r, pass, knobs).steps;
            let n = after.len() as int;
            let ready = if knobs.full_barrier {
                n - 2
            } else {
                n - 1
            };
            &&& after.take(r.steps.len() as int) == r.steps
            &&& pass.target is Videoout && r.cleared ==> after[r.steps.len() as int]
                == Step::Barrier(
                ImageBarrier {
                    image: ImageRef::Videoout,
                    old_layout: ImageLayout::ShaderReadOnly,
                    new_layout: ImageLayout::ShaderReadOnly,
                    src_access: 0x100,
                    dst_access: 0x180,
                    src_stage: 0x400,
                    dst_stage: 0x400,
                },
            )
            &&& pass.target matches PassTarget::RenderTarget(id) ==> (
            r.render_targets.contains_key(id) ==> after[ready] == Step::Barrier(
                ImageBarrier {
                    image: ImageRef::Handle(r.render_targets[id].image),
                    old_layout: ImageLayout::ColorAttachment,
                    new_layout: ImageLayout::ShaderReadOnly,
                    src_access: 0x100,
                    dst_access: 0x20,
                    src_stage: 0x400,
                    dst_stage: 0x80,
                },
            ))
            &&& knobs.full_barrier && n > r.steps.len() ==> after[n - 1] == (Step::FullBarrier {
                src_access: 0x1_0000,
                dst_access: 0x1_8000,
                src_stage: 0x1_0000,
                dst_stage: 0x1_0000,
            })
        }),
{
    let after = record_one(r, pass, knobs).steps;
    assert(after.take(r.steps.len() as int) =~= r.steps);
}

/// What a pass costs is counted once: a draw; a set where the pipeline has one and something
/// was bound; and a render pass of its own, for every target but the first pass of a frame.
pub proof fn law_costs_are_counted(r: Recording, pass: PassView, knobs: Knobs)
    requires
        pass.target is Videoout || r.render_targets.contains_key(pass.target->RenderTarget_0),
    ensures
        ({
            let after = record_one(r, pass, knobs);
            let binds = pass.storage_binds.len() + pass.const_binds.len() + pass.texture_binds.len();
            &&& after.draws == r.draws + 1
            &&& after.descriptor_pools == r.descriptor_pools + (if pass.set_layout is Some && binds
                > 0 {
                1nat
            } else {
                0nat
            })
            &&& after.transients == r.transients + (if pass.target is Videoout && !r.cleared {
                0nat
            } else {
                1nat
            })
            &&& pass.target matches PassTarget::RenderTarget(id) ==> after.touched.len()
                == r.touched.len() + 1 && after.touched.last() == id
            &&& pass.target is Videoout ==> after.touched == r.touched && after.cleared
        }),
{
}

/// What a pass draws into: the videoout target has 1920 by 1080 texels and is cleared by the
/// frame's first pass alone; a target of its own has its own size, one texel at least, and is
/// cleared by the first pass into it; and what is not cleared is kept, from the layout that it
/// was left in.
pub proof fn law_attachments(rt: CacheRenderTarget)
    ensures
        ({
            let first = embedded_attachment();
            let next = videoout_load_attachment();
            let own = rt_attachment(rt);
            &&& first.image is Videoout && next.image is Videoout
            &&& first.width == 1920 && first.height == 1080 && next.width == 1920 && next.height
                == 1080
            &&& first.load_op is Clear && first.initial_layout is Undefined
            &&& next.load_op is Load && next.initial_layout is ShaderReadOnly
            &&& first.final_layout is ShaderReadOnly && next.final_layout is ShaderReadOnly
            &&& !first.transient && next.transient && own.transient
            &&& own.image == ImageRef::Handle(rt.image) && own.view == rt.view
            &&& own.load_op is Clear <==> rt.current_layout is Undefined
            &&& own.initial_layout == rt.current_layout && own.final_layout is ColorAttachment
            &&& rt.width > 0 ==> own.width == rt.width
            &&& rt.height > 0 ==> own.height == rt.height
            &&& rt.width == 0 ==> own.width == 1
            &&& rt.height == 0 ==> own.height == 1
        }),
{
}

/// After a submit that did not run, what it was to draw into counts as never drawn, and every
/// other target is as it was.
pub proof fn law_rolled_back(targets: Map<u32, CacheRenderTarget>, touched: Seq<u32>, id: u32)
    ensures
        ({
            let t = rolled_back(targets, touched);
            &&& t.contains_key(id) <==> targets.contains_key(id)
            &&& targets.contains_key(id) && !touched.contains(id) ==> t[id] == targets[id]
            &&& targets.contains_key(id) && touched.contains(id) ==> t[id].current_layout
                is Undefined && t[id].image == targets[id].image && t[id].view == targets[id].view
                && t[id].mem == targets[id].mem && t[id].width == targets[id].width && t[id].height
                == targets[id].height
        }),
{
}

} // verus!
