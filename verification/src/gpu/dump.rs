//! Pictures of what is shown, written to files.
//!
//! A dump reads the composited swapchain image back before it is handed to the display.  It
//! must never disturb the presentation: where a stage fails the dump is given up, and what
//! it has made is left alone, since a submit may be pending that uses it.

use vstd::prelude::*;

use crate::gpu::pixels::{rgba8_of, swapchain_to_rgba8};
use crate::gpu::png::{encode_rgba_png, frame_file, png_file, DumpPng};
use crate::gpu::steps::{layout_after, ImageRef, Step};
use crate::gpu::transfer::{
    copy_present_to_host, law_copies_restore_layouts, picture_bytes, present_copy, CopyObject,
    CopyStage,
};
use crate::gpu::vk::{Format, ImageLayout};

verus! {

/// A dump of one frame: the file in the directory, or `None` for the path itself, the size
/// of the buffer the picture is read back through, and the steps that copy it there.
#[derive(Debug)]
pub struct PresentDump {
    pub name: Option<String>,
    pub bytes: u64,
    pub steps: Vec<Step>,
}

/// Plan the dump of a composited image, which counts as a frame whether or not it succeeds.
pub fn dump_present_png(dump: &mut DumpPng, image: u64, w: u32, h: u32) -> (plan: PresentDump)
    requires
        w * h * 4 <= u64::MAX,
    ensures
        *final(dump) == (DumpPng { frame: final(dump).frame, ..*old(dump) }),
        final(dump).frame == (old(dump).frame + 1) % 0x1_0000_0000,
        match plan.name {
            Some(name) => old(dump).is_dir && name@ == frame_file(old(dump).frame),
            None => !old(dump).is_dir,
        },
        plan.bytes == w * h * 4,
        plan.steps@ == present_copy(image, w, h),
{
    PresentDump {
        name: dump.next_file(),
        bytes: picture_bytes(w, h),
        steps: copy_present_to_host(image, w, h),
    }
}

/// What a dump releases when `failed` is the stage that failed, or no stage did.  The fence
/// and the command buffer have served once the wait is over.
pub open spec fn dump_cleanup_of(failed: Option<CopyStage>) -> Seq<CopyObject> {
    match failed {
        None => seq![
            CopyObject::Fence,
            CopyObject::CommandBuffer,
            CopyObject::Buffer,
            CopyObject::Memory,
        ],
        Some(CopyStage::MapMemory) => seq![CopyObject::Fence, CopyObject::CommandBuffer],
        Some(_) => Seq::empty(),
    }
}

pub fn dump_cleanup(failed: Option<CopyStage>) -> (release: Vec<CopyObject>)
    ensures
        release@ == dump_cleanup_of(failed),
{
    let mut release: Vec<CopyObject> = Vec::new();
    let waited: bool = match failed {
        None | Some(CopyStage::MapMemory) => true,
        Some(_) => false,
    };
    if waited {
        release.push(CopyObject::Fence);
        release.push(CopyObject::CommandBuffer);
    }
    if failed.is_none() {
        release.push(CopyObject::Buffer);
        release.push(CopyObject::Memory);
    }
    assert(release@ =~= dump_cleanup_of(failed));
    release
}

/// The file of a picture that was read back.
pub fn present_png(raw: &[u8], format: Format, w: u32, h: u32) -> (png: Vec<u8>)
    requires
        raw@.len() == w * h * 4,
    ensures
        png@ == png_file(w, h, rgba8_of(raw@, format)),
{
    let pixels = swapchain_to_rgba8(raw, format);
    proof {
        lemma_rgba8_keeps_its_size(raw@, format);
        assert(h * (w * 4) == w * h * 4) by (nonlinear_arith);
    }
    encode_rgba_png(w, h, pixels.as_slice())
}

/// A picture of whole texels has as many bytes in 8-bit RGBA.
pub proof fn lemma_rgba8_keeps_its_size(raw: Seq<u8>, format: Format)
    requires
        raw.len() % 4 == 0,
    ensures
        rgba8_of(raw, format).len() == raw.len(),
{
}

/// A dump does not disturb the presentation: the image is handed to the display in the
/// layout that the presenting pass left it in.
pub proof fn law_dump_restores_the_image(image: u64, w: u32, h: u32)
    ensures
        layout_after(present_copy(image, w, h), ImageRef::Handle(image), ImageLayout::PresentSrc)
            == Some(ImageLayout::PresentSrc),
{
    law_copies_restore_layouts(image, w, h, ImageLayout::PresentSrc);
}

/// A dump releases nothing that a pending submit may use, and nothing twice.
pub proof fn law_dump_keeps_what_is_pending(failed: Option<CopyStage>)
    ensures
        failed == Some(CopyStage::Wait) ==> dump_cleanup_of(failed).len() == 0,
        dump_cleanup_of(failed).no_duplicates(),
{
}

/// A dump releases the fence and the command buffer exactly where the wait for them is over, and
/// the buffer and its memory exactly where nothing failed.
pub proof fn law_dump_releases(failed: Option<CopyStage>, o: CopyObject)
    ensures
        dump_cleanup_of(failed).contains(o) <==> (if o is Fence || o is CommandBuffer {
            failed is None || failed == Some(CopyStage::MapMemory)
        } else {
            failed is None
        }),
{
    let list = dump_cleanup_of(failed);
    if failed is None {
        assert(list[0] is Fence && list[1] is CommandBuffer && list[2] is Buffer && list[3]
            is Memory);
    } else if failed == Some(CopyStage::MapMemory) {
        assert(list[0] is Fence && list[1] is CommandBuffer);
    }
}

} // verus!
