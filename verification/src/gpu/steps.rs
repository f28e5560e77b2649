//! The device commands a plan is made of.
//!
//! A plan is a list of steps.  The caller issues each step as the one device command it
//! names, in order, into the command buffer at hand.  `layout_after` follows an image
//! through a list of steps: it says which layout the image ends up in, or that some step
//! expected another layout than the one the image was in.

use vstd::prelude::*;

use crate::gpu::commands::{IndexType, ScissorRect, ViewportRect};
use crate::gpu::vk::{ImageLayout, LoadOp};

verus! {

/// An image a step names: the videoout target, or any other by its handle.
#[derive(Clone, Copy, Debug, PartialEq, Eq, Structural)]
pub enum ImageRef {
    Videoout,
    Handle(u64),
}

/// A buffer a step names: the staging buffer of the plan, or any other by its handle.
#[derive(Clone, Copy, Debug, PartialEq, Eq, Structural)]
pub enum BufferRef {
    Staging,
    Handle(u64),
}

#[derive(Clone, Copy, Debug, PartialEq, Eq, Structural)]
pub struct ImageBarrier {
    pub image: ImageRef,
    pub old_layout: ImageLayout,
    pub new_layout: ImageLayout,
    pub src_access: u32,
    pub dst_access: u32,
    pub src_stage: u32,
    pub dst_stage: u32,
}

/// The render pass and framebuffer a pass draws through.
#[derive(Clone, Copy, Debug, PartialEq, Eq, Structural)]
pub struct Attachment {
    pub image: ImageRef,
    /// The image view, for an image other than the videoout target.
    pub view: u64,
    pub load_op: LoadOp,
    pub initial_layout: ImageLayout,
    pub final_layout: ImageLayout,
    pub width: u32,
    pub height: u32,
    /// Made for one submit and destroyed with it, rather than shared by all.
    pub transient: bool,
}

/// What a vertex-pulling shader is told of one stream, in the order it reads it.
#[derive(Clone, Copy, Debug, PartialEq, Eq, Structural)]
pub struct StreamWords {
    pub num_records: u32,
    pub stride: u32,
    pub dst_sel: u32,
    pub format: u32,
}

/// The viewport of a draw: the one the guest programmed, or the whole target.
#[derive(Clone, Copy, Debug, PartialEq, Eq, Structural)]
pub enum ViewportChoice {
    Guest(ViewportRect),
    Full { width: u32, height: u32 },
}

/// One device command.
#[derive(Clone, Copy, Debug, PartialEq, Eq, Structural)]
#[allow(inconsistent_fields)]
pub enum Step {
    Barrier(ImageBarrier),
    /// A barrier over all memory.
    FullBarrier { src_access: u32, dst_access: u32, src_stage: u32, dst_stage: u32 },
    CopyBufferToImage { buffer: BufferRef, image: ImageRef, width: u32, height: u32 },
    CopyImageToBuffer { image: ImageRef, buffer: BufferRef, width: u32, height: u32 },
    /// Begin a render pass over `width` by `height` texels; a clearing attachment starts
    /// as black, opaque or not.
    BeginPass { attachment: Attachment, width: u32, height: u32, opaque_clear: bool },
    BindPipeline { pipeline: u64 },
    /// Make a pool for one set of these descriptors, and allocate the set.
    AllocateSet { set_layout: u64, storage_count: u32, sampler_count: u32 },
    WriteStorage { binding: u32, buffer: u64 },
    WriteSampler { binding: u32, view: u64, sampler: u64 },
    BindSet { pipeline_layout: u64 },
    /// Push one vertex stream's words to the vertex stage.
    PushStream { pipeline_layout: u64, offset: u32, words: StreamWords },
    SetViewport(ViewportChoice),
    SetScissor(ScissorRect),
    BindVertexBuffer { slot: u32, buffer: u64 },
    BindIndexBuffer { buffer: u64, index_type: IndexType },
    /// Begin the presenting pass into a swapchain image, over its clear color.
    BeginPresent { image_index: u32, width: u32, height: u32 },
    BindPresentPipeline,
    /// Bind the set that samples the videoout target.
    BindPresentSet,
    /// Push the presenting shader's two flags to the fragment stage.
    PushPresent { swap_rb: u32, decode_srgb: u32 },
    Draw { vertex_count: u32 },
    DrawIndexed { index_count: u32 },
    EndPass,
}

/// The layout of `image` after one step from `layout`; `None` where the step expects
/// another one.  An image whose contents are not wanted may be in any layout.
pub open spec fn layout_step(step: Step, image: ImageRef, layout: ImageLayout) -> Option<
    ImageLayout,
> {
    match step {
        Step::Barrier(b) if b.image == image => if b.old_layout == layout || b.old_layout
            == ImageLayout::Undefined {
            Some(b.new_layout)
        } else {
            None
        },
        Step::BeginPass { attachment, .. } if attachment.image == image => if
            attachment.initial_layout == layout || attachment.initial_layout
            == ImageLayout::Undefined {
            Some(attachment.final_layout)
        } else {
            None
        },
        Step::CopyBufferToImage { image: dst, .. } if dst == image => if layout
            == ImageLayout::TransferDst {
            Some(layout)
        } else {
            None
        },
        Step::CopyImageToBuffer { image: src, .. } if src == image => if layout
            == ImageLayout::TransferSrc {
            Some(layout)
        } else {
            None
        },
        _ => Some(layout),
    }
}

/// The layout of `image` after all the steps, from `layout` before the first.
pub open spec fn layout_after(steps: Seq<Step>, image: ImageRef, layout: ImageLayout) -> Option<
    ImageLayout,
>
    decreases steps.len(),
{
    if steps.len() == 0 {
        Some(layout)
    } else {
        match layout_after(steps.drop_last(), image, layout) {
            Some(l) => layout_step(steps.last(), image, l),
            None => None,
        }
    }
}

/// `layout_after` over two lists in a row.
pub proof fn lemma_layout_concat(a: Seq<Step>, b: Seq<Step>, image: ImageRef, layout: ImageLayout)
    ensures
        layout_after(a + b, image, layout) == (match layout_after(a, image, layout) {
            Some(l) => layout_after(b, image, l),
            None => None,
        }),
    decreases b.len(),
{
    if b.len() == 0 {
        assert(a + b == a);
    } else {
        assert((a + b).drop_last() == a + b.drop_last());
        assert((a + b).last() == b.last());
        lemma_layout_concat(a, b.drop_last(), image, layout);
    }
}

/// A step that leaves the image alone.
pub open spec fn leaves_alone(step: Step, image: ImageRef) -> bool {
    match step {
        Step::Barrier(b) => b.image != image,
        Step::BeginPass { attachment, .. } => attachment.image != image,
        Step::CopyBufferToImage { image: dst, .. } => dst != image,
        Step::CopyImageToBuffer { image: src, .. } => src != image,
        _ => true,
    }
}

/// Steps that leave an image alone keep its layout.
pub proof fn lemma_layout_kept(steps: Seq<Step>, image: ImageRef, layout: ImageLayout)
    requires
        forall|i: int| 0 <= i < steps.len() ==> leaves_alone(#[trigger] steps[i], image),
    ensures
        layout_after(steps, image, layout) == Some(layout),
    decreases steps.len(),
{
    if steps.len() > 0 {
        lemma_layout_kept(steps.drop_last(), image, layout);
        assert(leaves_alone(steps[steps.len() - 1], image));
    }
}

/// Append one list of steps to another.
pub fn append_steps(steps: &mut Vec<Step>, more: &Vec<Step>)
    ensures
        final(steps)@ == old(steps)@ + more@,
{
    let mut i: usize = 0;
    while i < more.len()
        invariant
            i <= more@.len(),
            steps@ == old(steps)@ + more@.take(i as int),
        decreases more@.len() - i,
    {
        steps.push(more[i]);
        i = i + 1;
    }
    assert(more@.take(i as int) == more@);
}

} // verus!
