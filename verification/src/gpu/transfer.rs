//! Copies between images and host memory: reading a picture back, and uploading one.
//!
//! A copy runs in a command buffer of its own behind a fence of its own.  The caller
//! goes through the stages in order; `copy_cleanup` says what it has to release once it
//! stops, whether a stage failed or all of them went well.

use vstd::prelude::*;

use crate::gpu::steps::{layout_after, layout_step, BufferRef, ImageBarrier, ImageRef, Step};
use crate::gpu::vk::{
    ImageLayout, ACCESS_MEMORY_READ, ACCESS_NONE, ACCESS_SHADER_READ, ACCESS_TRANSFER_READ,
    ACCESS_TRANSFER_WRITE, STAGE_BOTTOM_OF_PIPE, STAGE_FRAGMENT_SHADER, STAGE_TOP_OF_PIPE,
    STAGE_TRANSFER,
};

verus! {

/// The bytes of a `w` by `h` picture of 32-bit texels.
pub fn picture_bytes(w: u32, h: u32) -> (n: u64)
    requires
        w * h * 4 <= u64::MAX,
    ensures
        n == w * h * 4,
{
    assert(w * h <= u64::MAX);
    let texels: u64 = (w as u64) * (h as u64);
    texels * 4
}

/// Read a rendered target back: from sampling to copying, the copy, and back again.
pub open spec fn rt_copy(image: u64, w: u32, h: u32) -> Seq<Step> {
    seq![
        Step::Barrier(
            ImageBarrier {
                image: ImageRef::Handle(image),
                old_layout: ImageLayout::ShaderReadOnly,
                new_layout: ImageLayout::TransferSrc,
                src_access: ACCESS_SHADER_READ,
                dst_access: ACCESS_TRANSFER_READ,
                src_stage: STAGE_FRAGMENT_SHADER,
                dst_stage: STAGE_TRANSFER,
            },
        ),
        Step::CopyImageToBuffer {
            image: ImageRef::Handle(image),
            buffer: BufferRef::Staging,
            width: w,
            height: h,
        },
        Step::Barrier(
            ImageBarrier {
                image: ImageRef::Handle(image),
                old_layout: ImageLayout::TransferSrc,
                new_layout: ImageLayout::ShaderReadOnly,
                src_access: ACCESS_TRANSFER_READ,
                dst_access: ACCESS_SHADER_READ,
                src_stage: STAGE_TRANSFER,
                dst_stage: STAGE_FRAGMENT_SHADER,
            },
        ),
    ]
}

pub fn copy_rt_to_host(image: u64, w: u32, h: u32) -> (steps: Vec<Step>)
    ensures
        steps@ == rt_copy(image, w, h),
{
    let mut steps: Vec<Step> = Vec::new();
    steps.push(
        Step::Barrier(
            ImageBarrier {
                image: ImageRef::Handle(image),
                old_layout: ImageLayout::ShaderReadOnly,
                new_layout: ImageLayout::TransferSrc,
                src_access: ACCESS_SHADER_READ,
                dst_access: ACCESS_TRANSFER_READ,
                src_stage: STAGE_FRAGMENT_SHADER,
                dst_stage: STAGE_TRANSFER,
            },
        ),
    );
    steps.push(
        Step::CopyImageToBuffer {
            image: ImageRef::Handle(image),
            buffer: BufferRef::Staging,
            width: w,
            height: h,
        },
    );
    steps.push(
        Step::Barrier(
            ImageBarrier {
                image: ImageRef::Handle(image),
                old_layout: ImageLayout::TransferSrc,
                new_layout: ImageLayout::ShaderReadOnly,
                src_access: ACCESS_TRANSFER_READ,
                dst_access: ACCESS_SHADER_READ,
                src_stage: STAGE_TRANSFER,
                dst_stage: STAGE_FRAGMENT_SHADER,
            },
        ),
    );
    assert(steps@ =~= rt_copy(image, w, h));
    steps
}

/// Read a composited swapchain image back before it is handed to the display.
pub open spec fn present_copy(image: u64, w: u32, h: u32) -> Seq<Step> {
    seq![
        Step::Barrier(
            ImageBarrier {
                image: ImageRef::Handle(image),
                old_layout: ImageLayout::PresentSrc,
                new_layout: ImageLayout::TransferSrc,
                src_access: ACCESS_MEMORY_READ,
                dst_access: ACCESS_TRANSFER_READ,
                src_stage: STAGE_TRANSFER,
                dst_stage: STAGE_TRANSFER,
            },
        ),
        Step::CopyImageToBuffer {
            image: ImageRef::Handle(image),
            buffer: BufferRef::Staging,
            width: w,
            height: h,
        },
        Step::Barrier(
            ImageBarrier {
                image: ImageRef::Handle(image),
                old_layout: ImageLayout::TransferSrc,
                new_layout: ImageLayout::PresentSrc,
                src_access: ACCESS_TRANSFER_READ,
                dst_access: ACCESS_MEMORY_READ,
                src_stage: STAGE_TRANSFER,
                dst_stage: STAGE_BOTTOM_OF_PIPE,
            },
        ),
    ]
}

pub fn copy_present_to_host(image: u64, w: u32, h: u32) -> (steps: Vec<Step>)
    ensures
        steps@ == present_copy(image, w, h),
{
    let mut steps: Vec<Step> = Vec::new();
    steps.push(
        Step::Barrier(
            ImageBarrier {
                image: ImageRef::Handle(image),
                old_layout: ImageLayout::PresentSrc,
                new_layout: ImageLayout::TransferSrc,
                src_access: ACCESS_MEMORY_READ,
                dst_access: ACCESS_TRANSFER_READ,
                src_stage: STAGE_TRANSFER,
                dst_stage: STAGE_TRANSFER,
            },
        ),
    );
    steps.push(
        Step::CopyImageToBuffer {
            image: ImageRef::Handle(image),
            buffer: BufferRef::Staging,
            width: w,
            height: h,
        },
    );
    steps.push(
        Step::Barrier(
            ImageBarrier {
                image: ImageRef::Handle(image),
                old_layout: ImageLayout::TransferSrc,
                new_layout: ImageLayout::PresentSrc,
                src_access: ACCESS_TRANSFER_READ,
                dst_access: ACCESS_MEMORY_READ,
                src_stage: STAGE_TRANSFER,
                dst_stage: STAGE_BOTTOM_OF_PIPE,
            },
        ),
    );
    assert(steps@ =~= present_copy(image, w, h));
    steps
}

/// Upload a picture: what the image held is not wanted, and it ends up ready to be
/// sampled.
pub open spec fn image_upload(
    image: ImageRef,
    buffer: BufferRef,
    w: u32,
    h: u32,
) -> Seq<Step> {
    seq![
        Step::Barrier(
            ImageBarrier {
                image,
                old_layout: ImageLayout::Undefined,
                new_layout: ImageLayout::TransferDst,
                src_access: ACCESS_NONE,
                dst_access: ACCESS_TRANSFER_WRITE,
                src_stage: STAGE_TOP_OF_PIPE,
                dst_stage: STAGE_TRANSFER,
            },
        ),
        Step::CopyBufferToImage { buffer, image, width: w, height: h },
        Step::Barrier(
            ImageBarrier {
                image,
                old_layout: ImageLayout::TransferDst,
                new_layout: ImageLayout::ShaderReadOnly,
                src_access: ACCESS_TRANSFER_WRITE,
                dst_access: ACCESS_SHADER_READ,
                src_stage: STAGE_TRANSFER,
                dst_stage: STAGE_FRAGMENT_SHADER,
            },
        ),
    ]
}

pub fn upload_image(image: ImageRef, buffer: BufferRef, w: u32, h: u32) -> (steps: Vec<Step>)
    ensures
        steps@ == image_upload(image, buffer, w, h),
{
    let mut steps: Vec<Step> = Vec::new();
    steps.push(
        Step::Barrier(
            ImageBarrier {
                image,
                old_layout: ImageLayout::Undefined,
                new_layout: ImageLayout::TransferDst,
                src_access: ACCESS_NONE,
                dst_access: ACCESS_TRANSFER_WRITE,
                src_stage: STAGE_TOP_OF_PIPE,
                dst_stage: STAGE_TRANSFER,
            },
        ),
    );
    steps.push(Step::CopyBufferToImage { buffer, image, width: w, height: h });
    steps.push(
        Step::Barrier(
            ImageBarrier {
                image,
                old_layout: ImageLayout::TransferDst,
                new_layout: ImageLayout::ShaderReadOnly,
                src_access: ACCESS_TRANSFER_WRITE,
                dst_access: ACCESS_SHADER_READ,
                src_stage: STAGE_TRANSFER,
                dst_stage: STAGE_FRAGMENT_SHADER,
            },
        ),
    );
    assert(steps@ =~= image_upload(image, buffer, w, h));
    steps
}

proof fn lemma_three_layouts(a: Step, b: Step, c: Step, image: ImageRef, layout: ImageLayout)
    ensures
        layout_after(seq![a, b, c], image, layout) == (match layout_step(a, image, layout) {
            Some(l) => match layout_step(b, image, l) {
                Some(m) => layout_step(c, image, m),
                None => None,
            },
            None => None,
        }),
{
    let three = seq![a, b, c];
    assert(three.drop_last() =~= seq![a, b]);
    assert(seq![a, b].drop_last() =~= seq![a]);
    assert(seq![a].drop_last() =~= Seq::<Step>::empty());
    reveal_with_fuel(layout_after, 4);
}

/// A target that was read back can be sampled again, and a swapchain image shown.  An
/// upload leaves its image ready to be sampled, whatever it was before.
pub proof fn law_copies_restore_layouts(image: u64, w: u32, h: u32, layout: ImageLayout)
    ensures
        layout_after(
            rt_copy(image, w, h),
            ImageRef::Handle(image),
            ImageLayout::ShaderReadOnly,
        ) == Some(ImageLayout::ShaderReadOnly),
        layout_after(
            present_copy(image, w, h),
            ImageRef::Handle(image),
            ImageLayout::PresentSrc,
        ) == Some(ImageLayout::PresentSrc),
        layout_after(
            image_upload(ImageRef::Handle(image), BufferRef::Staging, w, h),
            ImageRef::Handle(image),
            layout,
        ) == Some(ImageLayout::ShaderReadOnly),
{
    let rt = rt_copy(image, w, h);
    let present = present_copy(image, w, h);
    let upload = image_upload(ImageRef::Handle(image), BufferRef::Staging, w, h);
    lemma_three_layouts(
        rt[0],
        rt[1],
        rt[2],
        ImageRef::Handle(image),
        ImageLayout::ShaderReadOnly,
    );
    lemma_three_layouts(
        present[0],
        present[1],
        present[2],
        ImageRef::Handle(image),
        ImageLayout::PresentSrc,
    );
    lemma_three_layouts(upload[0], upload[1], upload[2], ImageRef::Handle(image), layout);
    assert(rt =~= seq![rt[0], rt[1], rt[2]]);
    assert(present =~= seq![present[0], present[1], present[2]]);
    assert(upload =~= seq![upload[0], upload[1], upload[2]]);
}

/// The stages of a copy to the host, in order.
#[derive(Clone, Copy, Debug, PartialEq, Eq, Structural)]
pub enum CopyStage {
    MakeBuffer,
    MakeCommandBuffer,
    Begin,
    End,
    MakeFence,
    Submit,
    Wait,
    MapMemory,
}

/// Something a copy has made and has to release.
#[derive(Clone, Copy, Debug, PartialEq, Eq, Structural)]
pub enum CopyObject {
    Fence,
    CommandBuffer,
    Buffer,
    Memory,
}

/// What is to be released when `failed` is the stage that failed, or no stage did.
/// Where the wait fails the submit is still pending and may use everything: nothing is
/// released.
pub open spec fn cleanup_of(failed: Option<CopyStage>) -> Seq<CopyObject> {
    match failed {
        Some(CopyStage::MakeBuffer) => Seq::empty(),
        Some(CopyStage::MakeCommandBuffer) => seq![CopyObject::Buffer, CopyObject::Memory],
        Some(CopyStage::Begin) | Some(CopyStage::End) | Some(CopyStage::MakeFence) => seq![
            CopyObject::CommandBuffer,
            CopyObject::Buffer,
            CopyObject::Memory,
        ],
        Some(CopyStage::Wait) => Seq::empty(),
        Some(CopyStage::Submit) | Some(CopyStage::MapMemory) | None => seq![
            CopyObject::Fence,
            CopyObject::CommandBuffer,
            CopyObject::Buffer,
            CopyObject::Memory,
        ],
    }
}

pub fn copy_cleanup(failed: Option<CopyStage>) -> (release: Vec<CopyObject>)
    ensures
        release@ == cleanup_of(failed),
{
    let (fence, command_buffer, buffer): (bool, bool, bool) = match failed {
        Some(CopyStage::MakeBuffer) | Some(CopyStage::Wait) => (false, false, false),
        Some(CopyStage::MakeCommandBuffer) => (false, false, true),
        Some(CopyStage::Begin) | Some(CopyStage::End) | Some(CopyStage::MakeFence) => {
            (false, true, true)
        },
        Some(CopyStage::Submit) | Some(CopyStage::MapMemory) | None => (true, true, true),
    };
    let mut release: Vec<CopyObject> = Vec::new();
    if fence {
        release.push(CopyObject::Fence);
    }
    if command_buffer {
        release.push(CopyObject::CommandBuffer);
    }
    if buffer {
        release.push(CopyObject::Buffer);
        release.push(CopyObject::Memory);
    }
    assert(release@ =~= cleanup_of(failed));
    release
}

/// The object exists once the stages before `failed` have gone well.
pub open spec fn made_before(object: CopyObject, failed: Option<CopyStage>) -> bool {
    match object {
        CopyObject::Buffer | CopyObject::Memory => failed != Some(CopyStage::MakeBuffer),
        CopyObject::CommandBuffer => failed != Some(CopyStage::MakeBuffer) && failed != Some(
            CopyStage::MakeCommandBuffer,
        ),
        CopyObject::Fence => matches!(
            failed,
            Some(CopyStage::Submit) | Some(CopyStage::Wait) | Some(CopyStage::MapMemory) | None
        ),
    }
}

/// Every copy releases exactly what it made, once, unless its submit is still pending;
/// then it releases nothing.
pub proof fn law_copy_releases_what_it_made(failed: Option<CopyStage>, object: CopyObject)
    ensures
        failed != Some(CopyStage::Wait) ==> cleanup_of(failed).contains(object) == made_before(
            object,
            failed,
        ),
        failed == Some(CopyStage::Wait) ==> cleanup_of(failed).len() == 0,
        cleanup_of(failed).no_duplicates(),
{
    let c = cleanup_of(failed);
    if c.len() == 4 {
        assert(c[0] == CopyObject::Fence && c[1] == CopyObject::CommandBuffer && c[2]
            == CopyObject::Buffer && c[3] == CopyObject::Memory);
    } else if c.len() == 3 {
        assert(c[0] == CopyObject::CommandBuffer && c[1] == CopyObject::Buffer && c[2]
            == CopyObject::Memory);
    } else if c.len() == 2 {
        assert(c[0] == CopyObject::Buffer && c[1] == CopyObject::Memory);
    }
}

/// A readback copies the whole picture once, from the image into the buffer, once what was
/// sampled (access 0x20 at stage 0x80) or shown (0x8000) is done with, and hands the image back
/// to the same use once it has been read (0x800 at stage 0x1000).
pub proof fn law_readbacks_copy_the_picture(image: u64, w: u32, h: u32)
    ensures
        ({
            let rt = rt_copy(image, w, h);
            let shown = present_copy(image, w, h);
            let copy = Step::CopyImageToBuffer {
                image: ImageRef::Handle(image),
                buffer: BufferRef::Staging,
                width: w,
                height: h,
            };
            &&& rt.len() == 3 && shown.len() == 3
            &&& rt[1] == copy && shown[1] == copy
            &&& is_barrier(
                rt[0],
                ImageRef::Handle(image),
                0x20,
                0x80,
                0x800,
                0x1000,
            )
            &&& is_barrier(rt[2], ImageRef::Handle(image), 0x800, 0x1000, 0x20, 0x80)
            &&& is_barrier(shown[0], ImageRef::Handle(image), 0x8000, 0x1000, 0x800, 0x1000)
            &&& is_barrier(shown[2], ImageRef::Handle(image), 0x800, 0x1000, 0x8000, 0x2000)
        }),
{
}

/// The step is a barrier on the image, from one access and stage to another.
pub open spec fn is_barrier(
    step: Step,
    image: ImageRef,
    src_access: u32,
    src_stage: u32,
    dst_access: u32,
    dst_stage: u32,
) -> bool {
    step matches Step::Barrier(b) && b.image == image && b.src_access == src_access && b.src_stage
        == src_stage && b.dst_access == dst_access && b.dst_stage == dst_stage
}

/// An upload copies the whole picture once, from the buffer into the image, and lets shaders
/// read it (access 0x20 at stage 0x80) only once it has been written (0x1000 at stage 0x1000).
pub proof fn law_uploads_copy_the_picture(image: ImageRef, buffer: BufferRef, w: u32, h: u32)
    ensures
        ({
            let steps = image_upload(image, buffer, w, h);
            &&& steps.len() == 3
            &&& steps[1] == (Step::CopyBufferToImage { buffer, image, width: w, height: h })
            &&& is_barrier(steps[0], image, 0, 0x1, 0x1000, 0x1000)
            &&& is_barrier(steps[2], image, 0x1000, 0x1000, 0x20, 0x80)
            &&& steps[0]->Barrier_0.old_layout is Undefined
            &&& steps[0]->Barrier_0.new_layout is TransferDst
            &&& steps[2]->Barrier_0.old_layout is TransferDst
            &&& steps[2]->Barrier_0.new_layout is ShaderReadOnly
        }),
{
}

/// A copy that failed while it waited releases nothing; any other releases all four objects once
/// it has been submitted or its fence was made, and before that those that came before the stage
/// that failed.
pub proof fn law_copies_clean_up(failed: Option<CopyStage>, o: CopyObject)
    ensures
        ({
            let c = cleanup_of(failed);
            &&& failed == Some(CopyStage::Wait) || failed == Some(CopyStage::MakeBuffer) ==> c.len()
                == 0
            &&& failed is None || failed == Some(CopyStage::Submit) || failed == Some(
                CopyStage::MapMemory,
            ) ==> c.contains(o)
            &&& failed == Some(CopyStage::MakeCommandBuffer) ==> (c.contains(o) <==> o is Buffer || o
                is Memory)
            &&& failed == Some(CopyStage::Begin) || failed == Some(CopyStage::End) || failed == Some(
                CopyStage::MakeFence,
            ) ==> (c.contains(o) <==> !(o is Fence))
        }),
{
    law_copy_releases_what_it_made(failed, o);
}

} // verus!
