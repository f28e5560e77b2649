//! The commands one resolved draw becomes.

use vstd::prelude::*;

use crate::bytes::{le32, push_le32};
use crate::gpu::commands::{ScissorRect, ViewportRect};
use crate::gpu::steps::{leaves_alone, Attachment, Step, StreamWords, ViewportChoice};
use crate::gpu::walk::{
    ConstBind, DrawCall, PassView, RecordedPass, StorageBind, TextureBind, VertexBinding,
};

verus! {

/// The bit pattern of a single is neither of the two zeros.
pub open spec fn is_nonzero_single(bits: u32) -> bool {
    bits != 0 && bits != 0x8000_0000
}

/// The viewport of a draw into a `width` by `height` target: one with no area counts as
/// not programmed.
pub open spec fn viewport_choice(
    viewport: Option<ViewportRect>,
    width: u32,
    height: u32,
) -> ViewportChoice {
    match viewport {
        Some(v) if is_nonzero_single(v.width) && is_nonzero_single(v.height) => {
            ViewportChoice::Guest(v)
        },
        _ => ViewportChoice::Full { width, height },
    }
}

/// The scissor of a draw, likewise.
pub open spec fn scissor_choice(scissor: Option<ScissorRect>, width: u32, height: u32) -> ScissorRect {
    match scissor {
        Some(s) if s.width != 0 && s.height != 0 => s,
        _ => ScissorRect { x: 0, y: 0, width, height },
    }
}

pub open spec fn storage_write(b: StorageBind) -> Step {
    Step::WriteStorage { binding: b.binding, buffer: b.buffer }
}

pub open spec fn const_write(b: ConstBind) -> Step {
    Step::WriteStorage { binding: b.binding, buffer: b.buffer }
}

pub open spec fn sampler_write(b: TextureBind) -> Step {
    Step::WriteSampler { binding: b.binding, view: b.view, sampler: b.sampler }
}

pub open spec fn stream_words(b: StorageBind) -> StreamWords {
    StreamWords {
        num_records: b.num_records,
        stride: b.stride,
        dst_sel: b.dst_sel,
        format: b.format,
    }
}

pub open spec fn stream_push(pipeline_layout: u64, b: StorageBind) -> Step {
    Step::PushStream { pipeline_layout, offset: b.pc_offset, words: stream_words(b) }
}

pub open spec fn vertex_bind(b: VertexBinding) -> Step {
    Step::BindVertexBuffer { slot: b.slot, buffer: b.buffer }
}

/// The draw itself.
pub open spec fn draw_steps(draw: DrawCall) -> Seq<Step> {
    match draw {
        DrawCall::Auto { vertex_count } => seq![Step::Draw { vertex_count }],
        DrawCall::Indexed { buffer, index_count, index_type } => seq![
            Step::BindIndexBuffer { buffer, index_type },
            Step::DrawIndexed { index_count },
        ],
    }
}

/// A pass writes descriptors where its pipeline has a set and something was bound.
pub open spec fn has_descriptors(pass: PassView) -> bool {
    pass.set_layout is Some && pass.storage_binds.len() + pass.const_binds.len()
        + pass.texture_binds.len() > 0
}

/// The descriptor part of a pass: one set with a slot per bind, every bind written at
/// its binding, and each stream's words pushed at its offset.
pub open spec fn descriptor_steps(pass: PassView) -> Seq<Step> {
    if has_descriptors(pass) {
        seq![
            Step::AllocateSet {
                set_layout: pass.set_layout->0,
                storage_count: (pass.storage_binds.len() + pass.const_binds.len()) as u32,
                sampler_count: pass.texture_binds.len() as u32,
            },
        ] + pass.storage_binds.map_values(|b: StorageBind| storage_write(b))
            + pass.const_binds.map_values(|b: ConstBind| const_write(b))
            + pass.texture_binds.map_values(|b: TextureBind| sampler_write(b)) + seq![
            Step::BindSet { pipeline_layout: pass.pipeline_layout },
        ] + pass.storage_binds.map_values(|b: StorageBind| stream_push(pass.pipeline_layout, b))
    } else {
        Seq::empty()
    }
}

/// Everything recorded for one pass into a `width` by `height` target.
pub open spec fn pass_steps(
    pass: PassView,
    attachment: Attachment,
    width: u32,
    height: u32,
    opaque_clear: bool,
) -> Seq<Step> {
    seq![
        Step::BeginPass { attachment, width, height, opaque_clear },
        Step::BindPipeline { pipeline: pass.pipeline },
    ] + descriptor_steps(pass) + seq![
        Step::SetViewport(viewport_choice(pass.viewport, width, height)),
        Step::SetScissor(scissor_choice(pass.scissor, width, height)),
    ] + pass.vertex_buffers.map_values(|b: VertexBinding| vertex_bind(b)) + draw_steps(pass.draw)
        + seq![Step::EndPass]
}

/// The binds of a pass can be counted in 32 bits.
pub open spec fn binds_countable(pass: PassView) -> bool {
    pass.storage_binds.len() + pass.const_binds.len() <= u32::MAX && pass.texture_binds.len()
        <= u32::MAX
}

/// The bytes of a stream's words, as the shader reads them.
pub fn push_constant_bytes(words: StreamWords) -> (bytes: Vec<u8>)
    ensures
        bytes@ == le32(words.num_records) + le32(words.stride) + le32(words.dst_sel) + le32(
            words.format,
        ),
{
    let mut out: Vec<u8> = Vec::new();
    push_le32(&mut out, words.num_records);
    push_le32(&mut out, words.stride);
    push_le32(&mut out, words.dst_sel);
    push_le32(&mut out, words.format);
    assert(out@ =~= le32(words.num_records) + le32(words.stride) + le32(words.dst_sel) + le32(
        words.format,
    ));
    out
}

fn push_storage_writes(steps: &mut Vec<Step>, binds: &Vec<StorageBind>)
    ensures
        final(steps)@ == old(steps)@ + binds@.map_values(|b: StorageBind| storage_write(b)),
{
    let ghost all = binds@.map_values(|b: StorageBind| storage_write(b));
    let mut i: usize = 0;
    while i < binds.len()
        invariant
            i <= binds@.len(),
            all == binds@.map_values(|b: StorageBind| storage_write(b)),
            steps@ == old(steps)@ + all.take(i as int),
        decreases binds@.len() - i,
    {
        steps.push(Step::WriteStorage { binding: binds[i].binding, buffer: binds[i].buffer });
        assert(all.take(i + 1) == all.take(i as int).push(all[i as int]));
        i = i + 1;
    }
    assert(all.take(i as int) == all);
}

fn push_const_writes(steps: &mut Vec<Step>, binds: &Vec<ConstBind>)
    ensures
        final(steps)@ == old(steps)@ + binds@.map_values(|b: ConstBind| const_write(b)),
{
    let ghost all = binds@.map_values(|b: ConstBind| const_write(b));
    let mut i: usize = 0;
    while i < binds.len()
        invariant
            i <= binds@.len(),
            all == binds@.map_values(|b: ConstBind| const_write(b)),
            steps@ == old(steps)@ + all.take(i as int),
        decreases binds@.len() - i,
    {
        steps.push(Step::WriteStorage { binding: binds[i].binding, buffer: binds[i].buffer });
        assert(all.take(i + 1) == all.take(i as int).push(all[i as int]));
        i = i + 1;
    }
    assert(all.take(i as int) == all);
}

fn push_sampler_writes(steps: &mut Vec<Step>, binds: &Vec<TextureBind>)
    ensures
        final(steps)@ == old(steps)@ + binds@.map_values(|b: TextureBind| sampler_write(b)),
{
    let ghost all = binds@.map_values(|b: TextureBind| sampler_write(b));
    let mut i: usize = 0;
    while i < binds.len()
        invariant
            i <= binds@.len(),
            all == binds@.map_values(|b: TextureBind| sampler_write(b)),
            steps@ == old(steps)@ + all.take(i as int),
        decreases binds@.len() - i,
    {
        let b = binds[i];
        steps.push(Step::WriteSampler { binding: b.binding, view: b.view, sampler: b.sampler });
        assert(all.take(i + 1) == all.take(i as int).push(all[i as int]));
        i = i + 1;
    }
    assert(all.take(i as int) == all);
}

fn push_streams(steps: &mut Vec<Step>, pipeline_layout: u64, binds: &Vec<StorageBind>)
    ensures
        final(steps)@ == old(steps)@ + binds@.map_values(
            |b: StorageBind| stream_push(pipeline_layout, b),
        ),
{
    let ghost all = binds@.map_values(|b: StorageBind| stream_push(pipeline_layout, b));
    let mut i: usize = 0;
    while i < binds.len()
        invariant
            i <= binds@.len(),
            all == binds@.map_values(|b: StorageBind| stream_push(pipeline_layout, b)),
            steps@ == old(steps)@ + all.take(i as int),
        decreases binds@.len() - i,
    {
        let b = binds[i];
        steps.push(
            Step::PushStream {
                pipeline_layout,
                offset: b.pc_offset,
                words: StreamWords {
                    num_records: b.num_records,
                    stride: b.stride,
                    dst_sel: b.dst_sel,
                    format: b.format,
                },
            },
        );
        assert(all.take(i + 1) == all.take(i as int).push(all[i as int]));
        i = i + 1;
    }
    assert(all.take(i as int) == all);
}

fn push_vertex_binds(steps: &mut Vec<Step>, binds: &Vec<VertexBinding>)
    ensures
        final(steps)@ == old(steps)@ + binds@.map_values(|b: VertexBinding| vertex_bind(b)),
{
    let ghost all = binds@.map_values(|b: VertexBinding| vertex_bind(b));
    let mut i: usize = 0;
    while i < binds.len()
        invariant
            i <= binds@.len(),
            all == binds@.map_values(|b: VertexBinding| vertex_bind(b)),
            steps@ == old(steps)@ + all.take(i as int),
        decreases binds@.len() - i,
    {
        steps.push(Step::BindVertexBuffer { slot: binds[i].slot, buffer: binds[i].buffer });
        assert(all.take(i + 1) == all.take(i as int).push(all[i as int]));
        i = i + 1;
    }
    assert(all.take(i as int) == all);
}

/// Whether the bit pattern of a single stands for a number other than zero, or for none.
pub fn single_is_nonzero(bits: u32) -> (b: bool)
    ensures
        b == is_nonzero_single(bits),
{
    bits != 0 && bits != 0x8000_0000
}

/// Record one pass: begin it, bind its pipeline and descriptors, set the dynamic
/// rectangles, bind its vertex buffers, draw, and end it.
pub fn record_pass_into(
    pass: &RecordedPass,
    attachment: Attachment,
    width: u32,
    height: u32,
    opaque_clear: bool,
) -> (steps: Vec<Step>)
    requires
        binds_countable(pass@),
    ensures
        steps@ == pass_steps(pass@, attachment, width, height, opaque_clear),
{
    let ghost p = pass@;
    let mut steps: Vec<Step> = Vec::new();
    steps.push(Step::BeginPass { attachment, width, height, opaque_clear });
    steps.push(Step::BindPipeline { pipeline: pass.pipeline });
    let ghost head = steps@;
    assert(head =~= seq![
        Step::BeginPass { attachment, width, height, opaque_clear },
        Step::BindPipeline { pipeline: pass.pipeline },
    ]);
    let bound: bool = pass.storage_binds.len() > 0 || pass.const_binds.len() > 0
        || pass.texture_binds.len() > 0;
    match pass.set_layout {
        Some(set_layout) if bound => {
            let storage_count: u32 = pass.storage_binds.len() as u32
                + pass.const_binds.len() as u32;
            let sampler_count: u32 = pass.texture_binds.len() as u32;
            steps.push(Step::AllocateSet { set_layout, storage_count, sampler_count });
            push_storage_writes(&mut steps, &pass.storage_binds);
            push_const_writes(&mut steps, &pass.const_binds);
            push_sampler_writes(&mut steps, &pass.texture_binds);
            steps.push(Step::BindSet { pipeline_layout: pass.pipeline_layout });
            push_streams(&mut steps, pass.pipeline_layout, &pass.storage_binds);
        },
        _ => {},
    }
    assert(steps@ =~= head + descriptor_steps(p));
    let viewport = match pass.viewport {
        Some(v) if single_is_nonzero(v.width) && single_is_nonzero(v.height) => {
            ViewportChoice::Guest(v)
        },
        _ => ViewportChoice::Full { width, height },
    };
    steps.push(Step::SetViewport(viewport));
    let scissor = match pass.scissor {
        Some(s) if s.width != 0 && s.height != 0 => s,
        _ => ScissorRect { x: 0, y: 0, width, height },
    };
    steps.push(Step::SetScissor(scissor));
    let ghost rects = seq![
        Step::SetViewport(viewport_choice(p.viewport, width, height)),
        Step::SetScissor(scissor_choice(p.scissor, width, height)),
    ];
    assert(steps@ =~= head + descriptor_steps(p) + rects);
    push_vertex_binds(&mut steps, &pass.vertex_buffers);
    let ghost before_draw = steps@;
    match pass.draw {
        DrawCall::Auto { vertex_count } => {
            steps.push(Step::Draw { vertex_count });
        },
        DrawCall::Indexed { buffer, index_count, index_type } => {
            steps.push(Step::BindIndexBuffer { buffer, index_type });
            steps.push(Step::DrawIndexed { index_count });
        },
    }
    assert(steps@ =~= before_draw + draw_steps(p.draw));
    steps.push(Step::EndPass);
    assert(steps@ =~= pass_steps(p, attachment, width, height, opaque_clear));
    steps
}

/// After its first step, a pass touches the layout of no image.
pub proof fn lemma_pass_tail(
    pass: PassView,
    attachment: Attachment,
    width: u32,
    height: u32,
    opaque_clear: bool,
    image: crate::gpu::steps::ImageRef,
)
    ensures
        pass_steps(pass, attachment, width, height, opaque_clear).len() > 0,
        pass_steps(pass, attachment, width, height, opaque_clear)[0] == (Step::BeginPass {
            attachment,
            width,
            height,
            opaque_clear,
        }),
        forall|i: int|
            0 < i < pass_steps(pass, attachment, width, height, opaque_clear).len()
                ==> leaves_alone(
                #[trigger] pass_steps(pass, attachment, width, height, opaque_clear)[i],
                image,
            ),
{
    let storage = pass.storage_binds.map_values(|b: StorageBind| storage_write(b));
    let consts = pass.const_binds.map_values(|b: ConstBind| const_write(b));
    let samplers = pass.texture_binds.map_values(|b: TextureBind| sampler_write(b));
    let streams = pass.storage_binds.map_values(
        |b: StorageBind| stream_push(pass.pipeline_layout, b),
    );
    assert forall|i: int| 0 <= i < descriptor_steps(pass).len() implies leaves_alone(
        #[trigger] descriptor_steps(pass)[i],
        image,
    ) by {
        let s = storage.len() as int;
        let c = consts.len() as int;
        let t = samplers.len() as int;
        if i == 0 {
        } else if i < 1 + s {
            assert(descriptor_steps(pass)[i] == storage[i - 1]);
        } else if i < 1 + s + c {
            assert(descriptor_steps(pass)[i] == consts[i - 1 - s]);
        } else if i < 1 + s + c + t {
            assert(descriptor_steps(pass)[i] == samplers[i - 1 - s - c]);
        } else if i == 1 + s + c + t {
        } else {
            assert(descriptor_steps(pass)[i] == streams[i - 2 - s - c - t]);
        }
    }
}

} // verus!
