//! Registering framebuffers, flipping, and presenting a frame.

use vstd::prelude::*;

use crate::bytes::{le32, push_le32};
use crate::gpu::backend::{AshBackend, BackendView, DisplayBuffer};
use crate::gpu::commands::ScissorRect;
use crate::gpu::formats::{format_is_srgb, scanout_swap_rb, DEFAULT_SCANOUT_FORMAT};
use crate::gpu::resources::{ImportedBuf, ResourcesView};
use crate::gpu::steps::{
    layout_after, lemma_layout_concat, lemma_layout_kept, BufferRef, ImageRef, Step,
    ViewportChoice,
};
use crate::gpu::transfer::{image_upload, upload_image};
use crate::gpu::vk::{Format, ImageLayout, RES_H, RES_W};

verus! {

/// What is to be done about a registered framebuffer's memory.
#[derive(Clone, Copy, Debug, PartialEq, Eq, Structural)]
pub struct ImportPlan {
    /// An import of other memory under this key: wait until the device is idle and
    /// destroy it.
    pub stale: Option<ImportedBuf>,
    /// Import this many bytes; where the device declines, the frame is copied instead.
    pub import: Option<u64>,
}

/// Where a presented frame comes from.
#[derive(Clone, Copy, Debug, PartialEq, Eq, Structural)]
pub enum FrameSource {
    /// The videoout target as it was drawn.
    Drawn,
    /// The guest's own memory, read by the device.
    Imported(u64),
    /// The staging buffer.
    Staging,
}

/// How asking the swapchain for an image went.
#[derive(Clone, Copy, Debug, PartialEq, Eq, Structural)]
pub enum Acquired {
    Image(u32),
    OutOfDate,
    Failed,
}

/// One thing to do for a present, in order.
#[derive(Clone, Copy, Debug, PartialEq, Eq, Structural)]
pub enum PresentOp {
    ResetFence,
    /// Copy the guest's frame to the staging buffer, as far as its memory can be read.
    CopyFrame(DisplayBuffer),
    /// Tell the waiting guest that its flip is done with.
    Signal(u64),
    /// Record and submit the frame.
    RecordAndSubmit { source: FrameSource, image_index: u32, swap_rb: u32, decode_srgb: u32 },
    /// Read the composited image back to a picture file.
    DumpPicture { image_index: u32 },
    /// Hand the image to the display.
    Present { image_index: u32 },
}

/// The current flip target's buffer, if it is registered.
pub open spec fn current_buffer(b: BackendView) -> Option<DisplayBuffer> {
    match b.current_target {
        Some(key) if b.buffers.contains_key(key) => Some(b.buffers[key]),
        _ => None,
    }
}

/// The scanout format of the frame on its way to the display.
pub open spec fn scanout_format(b: BackendView) -> u32 {
    match current_buffer(b) {
        Some(buf) => buf.pixel_format,
        None => DEFAULT_SCANOUT_FORMAT,
    }
}

/// Drawn pixels are shown in place of the guest's frame; guest memory the device can
/// read is read in place; any other frame is copied.
pub open spec fn frame_source(b: BackendView) -> FrameSource {
    if b.embedded_drawn {
        FrameSource::Drawn
    } else {
        match b.current_target {
            Some(key) if b.resources.imported.contains_key(key) => FrameSource::Imported(
                b.resources.imported[key].buffer,
            ),
            _ => FrameSource::Staging,
        }
    }
}

/// The swap undoes the byte order of guest memory, so it concerns frames that come from
/// there, and not drawn ones.
pub open spec fn swap_flag(b: BackendView) -> u32 {
    if !b.embedded_drawn && scanout_format(b) == 0x8000_0000 {
        1
    } else {
        0
    }
}

pub open spec fn decode_flag(format: Format) -> u32 {
    if format == Format::R8G8B8A8Srgb || format == Format::B8G8R8A8Srgb {
        1
    } else {
        0
    }
}

pub open spec fn opt_op(op: Option<PresentOp>) -> Seq<PresentOp> {
    match op {
        Some(op) => seq![op],
        None => Seq::empty(),
    }
}

/// The frame to copy, on the path that copies one.
pub open spec fn copy_op(b: BackendView) -> Option<PresentOp> {
    match (frame_source(b), current_buffer(b)) {
        (FrameSource::Staging, Some(buf)) => Some(PresentOp::CopyFrame(buf)),
        _ => None,
    }
}

/// The waiting guest, if there is one.
pub open spec fn signal_op(b: BackendView) -> Option<PresentOp> {
    match b.pending_vsync_signal {
        Some(signal) => Some(PresentOp::Signal(signal)),
        None => None,
    }
}

/// What a present does once it has an image.  A guest whose frame was copied, or is not
/// used, may go on at once; one whose memory the device reads waits for the submit.
pub open spec fn present_ops(b: BackendView, image_index: u32, format: Format, dump: bool) -> Seq<
    PresentOp,
> {
    let late = frame_source(b) is Imported;
    seq![PresentOp::ResetFence] + opt_op(copy_op(b)) + (if late {
        Seq::empty()
    } else {
        opt_op(signal_op(b))
    }) + seq![
        PresentOp::RecordAndSubmit {
            source: frame_source(b),
            image_index,
            swap_rb: swap_flag(b),
            decode_srgb: decode_flag(format),
        },
    ] + (if late {
        opt_op(signal_op(b))
    } else {
        Seq::empty()
    }) + (if dump {
        seq![PresentOp::DumpPicture { image_index }]
    } else {
        Seq::empty()
    }) + seq![PresentOp::Present { image_index }]
}

impl AshBackend {
    /// Note a framebuffer the guest registers under a handle and index, and decide about
    /// importing its memory.  Only a full frame is imported, where the device can and
    /// the memory has a host address.
    pub fn register_buffer(
        &mut self,
        ptr: u64,
        w: u32,
        h: u32,
        pixel_format: u32,
        handle: i32,
        index: u32,
        can_import: bool,
        host_ptr: Option<u64>,
    ) -> (plan: ImportPlan)
        requires
            old(self).wf(),
        ensures
            final(self).wf(),
            ({
                let key = (handle, index);
                let b = old(self)@;
                let eligible = w == RES_W && h == RES_H && can_import && host_ptr is Some;
                let had = b.resources.imported.contains_key(key);
                let stale = eligible && had && b.resources.imported[key].host_ptr != host_ptr->0;
                &&& plan.stale == (if stale {
                    Some(b.resources.imported[key])
                } else {
                    None
                })
                &&& plan.import == (if eligible && (!had || stale) {
                    Some((w * h * 4) as u64)
                } else {
                    None
                })
                &&& final(self)@ == (BackendView {
                    buffers: b.buffers.insert(
                        key,
                        DisplayBuffer { guest_ptr: ptr, width: w, height: h, pixel_format },
                    ),
                    resources: ResourcesView {
                        imported: if stale {
                            b.resources.imported.remove(key)
                        } else {
                            b.resources.imported
                        },
                        ..b.resources
                    },
                    ..b
                })
            }),
    {
        let key = (handle, index);
        self.buffers.insert(
            key,
            DisplayBuffer { guest_ptr: ptr, width: w, height: h, pixel_format },
        );
        let mut plan = ImportPlan { stale: None, import: None };
        if w == RES_W && h == RES_H && can_import {
            if let Some(host) = host_ptr {
                let held = match self.resources.imported.get(&key) {
                    Some(b) => Some(*b),
                    None => None,
                };
                let bytes: u64 = (w as u64) * (h as u64) * 4;
                match held {
                    Some(b) => {
                        if b.host_ptr != host {
                            self.resources.imported.remove(&key);
                            plan = ImportPlan { stale: Some(b), import: Some(bytes) };
                        }
                    },
                    None => {
                        plan = ImportPlan { stale: None, import: Some(bytes) };
                    },
                }
            }
        }
        plan
    }

    /// Note a framebuffer import the device has made.
    pub fn note_import(&mut self, handle: i32, index: u32, buf: ImportedBuf)
        requires
            old(self).wf(),
        ensures
            final(self).wf(),
            final(self)@ == (BackendView {
                resources: ResourcesView {
                    imported: old(self)@.resources.imported.insert((handle, index), buf),
                    ..old(self)@.resources
                },
                ..old(self)@
            }),
    {
        self.resources.imported.insert((handle, index), buf);
    }

    /// A guest flip ends the frame: the next draw clears.  The flip before, if its guest
    /// still waits, is to be signalled now.
    pub fn submit_flip(&mut self, handle: i32, index: u32, signal: u64) -> (superseded: Option<u64>)
        requires
            old(self).wf(),
        ensures
            final(self).wf(),
            superseded == old(self)@.pending_vsync_signal,
            final(self)@ == (BackendView {
                videoout_cleared_this_frame: false,
                current_target: Some((handle, index)),
                pending_vsync_signal: Some(signal),
                ..old(self)@
            }),
    {
        self.videoout_cleared_this_frame = false;
        self.current_target = Some((handle, index));
        let superseded = self.pending_vsync_signal;
        self.pending_vsync_signal = Some(signal);
        superseded
    }

    /// The flip whose guest waits, if any.  It is handed out once.
    pub fn signal_vsync(&mut self) -> (signal: Option<u64>)
        requires
            old(self).wf(),
        ensures
            final(self).wf(),
            signal == old(self)@.pending_vsync_signal,
            final(self)@ == (BackendView { pending_vsync_signal: None, ..old(self)@ }),
    {
        self.pending_vsync_signal.take()
    }

    /// What a present does after asking for an image, in order.  Without an image it
    /// does nothing, and the guest goes on waiting.
    pub fn present(&mut self, acquired: Acquired, format: Format, dump: bool) -> (ops: Vec<
        PresentOp,
    >)
        requires
            old(self).wf(),
        ensures
            final(self).wf(),
            acquired matches Acquired::Image(image_index) ==> ops@ == present_ops(
                old(self)@,
                image_index,
                format,
                dump,
            ) && final(self)@ == (BackendView { pending_vsync_signal: None, ..old(self)@ }),
            !(acquired is Image) ==> ops@.len() == 0 && *final(self) == *old(self),
    {
        let mut ops: Vec<PresentOp> = Vec::new();
        let image_index: u32 = match acquired {
            Acquired::Image(i) => i,
            _ => {
                return ops;
            },
        };
        let ghost b = self@;
        let buffer = match self.current_target {
            Some(key) => match self.buffers.get(&key) {
                Some(buf) => Some(*buf),
                None => None,
            },
            None => None,
        };
        assert(buffer == current_buffer(b));
        let scanout: u32 = match buffer {
            Some(buf) => buf.pixel_format,
            None => DEFAULT_SCANOUT_FORMAT,
        };
        let swap_rb: u32 = if !self.embedded_drawn && scanout_swap_rb(scanout) {
            1
        } else {
            0
        };
        let decode_srgb: u32 = if format_is_srgb(format) {
            1
        } else {
            0
        };
        let source = if self.embedded_drawn {
            FrameSource::Drawn
        } else {
            match self.current_target {
                Some(key) => match self.resources.imported.get(&key) {
                    Some(imported) => FrameSource::Imported(imported.buffer),
                    None => FrameSource::Staging,
                },
                None => FrameSource::Staging,
            }
        };
        assert(source == frame_source(b));
        ops.push(PresentOp::ResetFence);
        if let (FrameSource::Staging, Some(buf)) = (source, buffer) {
            ops.push(PresentOp::CopyFrame(buf));
        }
        assert(ops@ =~= seq![PresentOp::ResetFence] + opt_op(copy_op(b)));
        let late: bool = match source {
            FrameSource::Imported(_) => true,
            _ => false,
        };
        let signal = self.pending_vsync_signal.take();
        if !late {
            if let Some(token) = signal {
                ops.push(PresentOp::Signal(token));
            }
        }
        ops.push(PresentOp::RecordAndSubmit { source, image_index, swap_rb, decode_srgb });
        if late {
            if let Some(token) = signal {
                ops.push(PresentOp::Signal(token));
            }
        }
        if dump {
            ops.push(PresentOp::DumpPicture { image_index });
        }
        ops.push(PresentOp::Present { image_index });
        assert(ops@ =~= present_ops(b, image_index, format, dump));
        ops
    }
}

/// How many bytes of a `w` by `h` frame are copied to the staging buffer: the frame's
/// own, at most a full frame's, and at most what is mapped behind it where that is known.
pub fn frame_copy_size(w: u32, h: u32, mapped: Option<u64>) -> (n: u64)
    ensures
        ({
            let frame = w * h * 4;
            let full = RES_W * RES_H * 4;
            let bounded = if frame < full {
                frame
            } else {
                full
            };
            n == (match mapped {
                Some(m) if m < bounded => m as int,
                _ => bounded,
            })
        }),
{
    let full: u64 = 8_294_400;
    assert(full == RES_W * RES_H * 4);
    assert(w * h <= 0xFFFF_FFFE_0000_0001) by (nonlinear_arith)
        requires
            w <= 0xFFFF_FFFF,
            h <= 0xFFFF_FFFF,
    ;
    let texels: u64 = (w as u64) * (h as u64);
    let frame: u64 = if texels < full / 4 {
        texels * 4
    } else {
        full
    };
    match mapped {
        Some(m) if m < frame => m,
        _ => frame,
    }
}

/// How many mapped bytes lie between a guest address and the end of its mapping.
pub fn mapped_bytes(end: u64, guest_ptr: u64) -> (n: u64)
    ensures
        n == (if guest_ptr <= end {
            end - guest_ptr
        } else {
            0
        }),
{
    end.saturating_sub(guest_ptr)
}

/// The commands of a presented frame: the frame is uploaded to the videoout target
/// unless it was drawn there, and then sampled into the swapchain image.
pub open spec fn present_steps(
    source: FrameSource,
    image_index: u32,
    width: u32,
    height: u32,
    swap_rb: u32,
    decode_srgb: u32,
) -> Seq<Step> {
    (match source {
        FrameSource::Drawn => Seq::empty(),
        FrameSource::Imported(buffer) => image_upload(
            ImageRef::Videoout,
            BufferRef::Handle(buffer),
            RES_W,
            RES_H,
        ),
        FrameSource::Staging => image_upload(
            ImageRef::Videoout,
            BufferRef::Staging,
            RES_W,
            RES_H,
        ),
    }) + seq![
        Step::BeginPresent { image_index, width, height },
        Step::BindPresentPipeline,
        Step::SetViewport(ViewportChoice::Full { width, height }),
        Step::SetScissor(ScissorRect { x: 0, y: 0, width, height }),
        Step::BindPresentSet,
        Step::PushPresent { swap_rb, decode_srgb },
        Step::Draw { vertex_count: 3 },
        Step::EndPass,
    ]
}

/// Record a present into a `width` by `height` swapchain image.
pub fn record_command_buffer(
    source: FrameSource,
    image_index: u32,
    width: u32,
    height: u32,
    swap_rb: u32,
    decode_srgb: u32,
) -> (steps: Vec<Step>)
    ensures
        steps@ == present_steps(source, image_index, width, height, swap_rb, decode_srgb),
{
    let mut steps = match source {
        FrameSource::Drawn => Vec::new(),
        FrameSource::Imported(buffer) => upload_image(
            ImageRef::Videoout,
            BufferRef::Handle(buffer),
            RES_W,
            RES_H,
        ),
        FrameSource::Staging => upload_image(ImageRef::Videoout, BufferRef::Staging, RES_W, RES_H),
    };
    steps.push(Step::BeginPresent { image_index, width, height });
    steps.push(Step::BindPresentPipeline);
    steps.push(Step::SetViewport(ViewportChoice::Full { width, height }));
    steps.push(Step::SetScissor(ScissorRect { x: 0, y: 0, width, height }));
    steps.push(Step::BindPresentSet);
    steps.push(Step::PushPresent { swap_rb, decode_srgb });
    steps.push(Step::Draw { vertex_count: 3 });
    steps.push(Step::EndPass);
    assert(steps@ =~= present_steps(source, image_index, width, height, swap_rb, decode_srgb));
    steps
}

/// The bytes of the presenting shader's flags.
pub fn present_flag_bytes(swap_rb: u32, decode_srgb: u32) -> (bytes: Vec<u8>)
    ensures
        bytes@ == le32(swap_rb) + le32(decode_srgb),
{
    let mut out: Vec<u8> = Vec::new();
    push_le32(&mut out, swap_rb);
    push_le32(&mut out, decode_srgb);
    assert(out@ =~= le32(swap_rb) + le32(decode_srgb));
    out
}

/// A present signals the waiting guest once, and no other.
pub proof fn law_present_signals_once(b: BackendView, image_index: u32, format: Format, dump: bool)
    ensures
        ({
            let ops = present_ops(b, image_index, format, dump);
            &&& forall|i: int|
                0 <= i < ops.len() && #[trigger] ops[i] is Signal ==> signal_op(b) == Some(ops[i])
            &&& b.pending_vsync_signal matches Some(s) ==> ops.contains(PresentOp::Signal(s))
            &&& forall|i: int, j: int|
                0 <= i < j < ops.len() ==> !(#[trigger] ops[i] is Signal && #[trigger] ops[j]
                    is Signal)
        }),
{
    let ops = present_ops(b, image_index, format, dump);
    let c = opt_op(copy_op(b)).len();
    let s = opt_op(signal_op(b)).len();
    let late = frame_source(b) is Imported;
    if s == 1 {
        let at = if late {
            2 + c
        } else {
            1 + c
        };
        assert(ops[at as int] == PresentOp::Signal(b.pending_vsync_signal->0));
    }
}

/// A guest whose memory the device reads is not signalled before the submit that reads
/// it.
pub proof fn law_zero_copy_signals_late(
    b: BackendView,
    image_index: u32,
    format: Format,
    dump: bool,
    i: int,
    j: int,
)
    requires
        frame_source(b) is Imported,
        0 <= i < present_ops(b, image_index, format, dump).len(),
        0 <= j < present_ops(b, image_index, format, dump).len(),
        present_ops(b, image_index, format, dump)[i] is RecordAndSubmit,
        present_ops(b, image_index, format, dump)[j] is Signal,
    ensures
        i < j,
{
}

/// Whatever a frame's source, the videoout target is ready to be sampled when the
/// presenting pass begins: an upload makes it so, and a draw has left it so.
pub proof fn law_present_samples_a_ready_target(
    source: FrameSource,
    image_index: u32,
    width: u32,
    height: u32,
    swap_rb: u32,
    decode_srgb: u32,
    layout: ImageLayout,
)
    requires
        source is Drawn ==> layout == ImageLayout::ShaderReadOnly,
    ensures
        layout_after(
            present_steps(source, image_index, width, height, swap_rb, decode_srgb),
            ImageRef::Videoout,
            layout,
        ) == Some(ImageLayout::ShaderReadOnly),
{
    let steps = present_steps(source, image_index, width, height, swap_rb, decode_srgb);
    let tail = steps.skip(steps.len() - 8);
    let head = steps.take(steps.len() - 8);
    assert(steps =~= head + tail);
    lemma_layout_concat(head, tail, ImageRef::Videoout, layout);
    lemma_layout_kept(tail, ImageRef::Videoout, ImageLayout::ShaderReadOnly);
    match source {
        FrameSource::Drawn => {
            assert(head =~= Seq::<Step>::empty());
            lemma_layout_kept(head, ImageRef::Videoout, layout);
        },
        FrameSource::Imported(buffer) => {
            assert(head =~= image_upload(
                ImageRef::Videoout,
                BufferRef::Handle(buffer),
                RES_W,
                RES_H,
            ));
            lemma_upload_layout(BufferRef::Handle(buffer), layout);
        },
        FrameSource::Staging => {
            assert(head =~= image_upload(ImageRef::Videoout, BufferRef::Staging, RES_W, RES_H));
            lemma_upload_layout(BufferRef::Staging, layout);
        },
    }
}

proof fn lemma_upload_layout(buffer: BufferRef, layout: ImageLayout)
    ensures
        layout_after(
            image_upload(ImageRef::Videoout, buffer, RES_W, RES_H),
            ImageRef::Videoout,
            layout,
        ) == Some(ImageLayout::ShaderReadOnly),
{
    let up = image_upload(ImageRef::Videoout, buffer, RES_W, RES_H);
    let two = up.drop_last();
    let one = two.drop_last();
    assert(one.drop_last() =~= Seq::<Step>::empty());
    assert(one.last() == up[0]);
    assert(two.last() == up[1]);
    assert(layout_after(one.drop_last(), ImageRef::Videoout, layout) == Some(layout));
    assert(layout_after(one, ImageRef::Videoout, layout) == Some(ImageLayout::TransferDst));
    assert(layout_after(two, ImageRef::Videoout, layout) == Some(ImageLayout::TransferDst));
}

/// The frame that is shown is the one that was drawn, wherever one was; else the guest's own
/// memory where the device can read it; else a copy of the buffer that the guest flipped to.
/// Exactly one frame is recorded and submitted, and a buffer is copied for it only where it is
/// the copy that is shown.
pub proof fn law_present_shows_the_right_frame(
    b: BackendView,
    image_index: u32,
    format: Format,
    dump: bool,
    at: int,
)
    requires
        0 <= at < present_ops(b, image_index, format, dump).len(),
        present_ops(b, image_index, format, dump)[at] is RecordAndSubmit,
    ensures
        ({
            let ops = present_ops(b, image_index, format, dump);
            let source = ops[at]->RecordAndSubmit_source;
            let key = b.current_target->0;
            let imported = b.current_target is Some && b.resources.imported.contains_key(key);
            let registered = b.current_target is Some && b.buffers.contains_key(key);
            &&& forall|i: int|
                0 <= i < ops.len() && i != at ==> !((#[trigger] ops[i]) is RecordAndSubmit)
            &&& ops[at]->RecordAndSubmit_image_index == image_index
            &&& b.embedded_drawn ==> source is Drawn
            &&& !b.embedded_drawn && imported ==> source == FrameSource::Imported(
                b.resources.imported[key].buffer,
            )
            &&& !b.embedded_drawn && !imported ==> source is Staging
            &&& b.embedded_drawn || imported || !registered ==> forall|i: int|
                0 <= i < ops.len() ==> !((#[trigger] ops[i]) is CopyFrame)
            &&& !b.embedded_drawn && !imported && registered ==> {
                &&& at >= 1
                &&& ops.take(at).contains(PresentOp::CopyFrame(b.buffers[key]))
                &&& forall|i: int|
                    0 <= i < ops.len() && (#[trigger] ops[i]) is CopyFrame ==> ops[i]
                        == PresentOp::CopyFrame(b.buffers[key])
            }
        }),
{
    let ops = present_ops(b, image_index, format, dump);
    if copy_op(b) is Some {
        assert(ops[1] == copy_op(b)->0);
        assert(ops.take(at)[1] == ops[1]);
    }
}

/// The colours of a frame come out right.  Red and blue change places exactly for a frame out
/// of guest memory in the format 0x80000000, which is also what a flip to no registered buffer
/// counts as; a frame is decoded exactly where the surface encodes it again.
pub proof fn law_present_flags(b: BackendView, image_index: u32, format: Format, dump: bool, at: int)
    requires
        0 <= at < present_ops(b, image_index, format, dump).len(),
        present_ops(b, image_index, format, dump)[at] is RecordAndSubmit,
    ensures
        ({
            let op = present_ops(b, image_index, format, dump)[at];
            let registered = b.current_target is Some && b.buffers.contains_key(
                b.current_target->0,
            );
            let swapped = !b.embedded_drawn && (!registered || b.buffers[
                b.current_target->0
            ].pixel_format == 0x8000_0000);
            &&& op->RecordAndSubmit_swap_rb == (if swapped {
                1u32
            } else {
                0u32
            })
            &&& op->RecordAndSubmit_decode_srgb == (if format is R8G8B8A8Srgb || format
                is B8G8R8A8Srgb {
                1u32
            } else {
                0u32
            })
        }),
{
}

/// A present begins by resetting the fence and ends by handing its image to the display; the
/// picture is dumped, where it is to be, in between and once the frame is submitted.  The guest
/// may go on before the submit, unless the submit reads its memory.
pub proof fn law_present_is_in_order(
    b: BackendView,
    image_index: u32,
    format: Format,
    dump: bool,
    at: int,
)
    requires
        0 <= at < present_ops(b, image_index, format, dump).len(),
        present_ops(b, image_index, format, dump)[at] is RecordAndSubmit,
    ensures
        ({
            let ops = present_ops(b, image_index, format, dump);
            let n = ops.len() as int;
            let reads_guest = !b.embedded_drawn && b.current_target is Some
                && b.resources.imported.contains_key(b.current_target->0);
            &&& ops[0] is ResetFence
            &&& ops[n - 1] == (PresentOp::Present { image_index })
            &&& dump ==> ops[n - 2] == (PresentOp::DumpPicture { image_index }) && at < n - 2
            &&& !dump ==> forall|i: int| 0 <= i < n ==> !((#[trigger] ops[i]) is DumpPicture)
            &&& forall|i: int|
                0 <= i < n && (#[trigger] ops[i]) is Signal ==> {
                    &&& reads_guest ==> at < i
                    &&& !reads_guest ==> i < at
                }
            &&& b.pending_vsync_signal matches Some(token) ==> ops.contains(
                PresentOp::Signal(token),
            )
            &&& b.pending_vsync_signal is None ==> forall|i: int|
                0 <= i < n ==> !((#[trigger] ops[i]) is Signal)
            &&& forall|i: int| 0 <= i < n - 1 ==> !((#[trigger] ops[i]) is Present)
        }),
{
    law_present_signals_once(b, image_index, format, dump);
}

/// A frame that was drawn is shown as it is: nothing is copied into the videoout target.  Any
/// other is copied there once, whole, from the memory it comes from: 1920 by 1080 texels.
pub proof fn law_drawn_frames_are_not_overwritten(
    source: FrameSource,
    image_index: u32,
    width: u32,
    height: u32,
    swap_rb: u32,
    decode_srgb: u32,
)
    ensures
        ({
            let steps = present_steps(source, image_index, width, height, swap_rb, decode_srgb);
            &&& source is Drawn ==> forall|i: int|
                0 <= i < steps.len() ==> !((#[trigger] steps[i]) is CopyBufferToImage)
                    && !(steps[i] is Barrier)
            &&& source !is Drawn ==> exists|at: int|
                #![trigger steps[at]]
                0 <= at < steps.len() - 8 && steps[at] == (Step::CopyBufferToImage {
                    buffer: match source {
                        FrameSource::Imported(buffer) => BufferRef::Handle(buffer),
                        _ => BufferRef::Staging,
                    },
                    image: ImageRef::Videoout,
                    width: 1920,
                    height: 1080,
                }) && forall|i: int|
                    0 <= i < steps.len() && i != at ==> !((#[trigger] steps[i])
                        is CopyBufferToImage)
        }),
{
    let steps = present_steps(source, image_index, width, height, swap_rb, decode_srgb);
    if source !is Drawn {
        assert(steps[1] is CopyBufferToImage);
    }
}

/// A present draws the frame over the whole of the swapchain image it was given: one triangle
/// that covers it, by the presenting pipeline with the target's set, with the flags it was
/// given, in a pass of its own.
pub proof fn law_present_covers_its_image(
    source: FrameSource,
    image_index: u32,
    width: u32,
    height: u32,
    swap_rb: u32,
    decode_srgb: u32,
)
    ensures
        ({
            let steps = present_steps(source, image_index, width, height, swap_rb, decode_srgb);
            let n = steps.len() as int;
            &&& n >= 8
            &&& steps[n - 8] == (Step::BeginPresent { image_index, width, height })
            &&& steps[n - 1] is EndPass
            &&& steps[n - 2] == (Step::Draw { vertex_count: 3 })
            &&& steps.skip(n - 7).contains(Step::BindPresentPipeline)
            &&& steps.skip(n - 7).contains(Step::BindPresentSet)
            &&& steps.skip(n - 7).contains(Step::PushPresent { swap_rb, decode_srgb })
            &&& steps.skip(n - 7).contains(
                Step::SetViewport(ViewportChoice::Full { width, height }),
            )
            &&& steps.skip(n - 7).contains(
                Step::SetScissor(ScissorRect { x: 0, y: 0, width, height }),
            )
            &&& forall|i: int|
                0 <= i < n && i != n - 2 ==> !((#[trigger] steps[i]) is Draw || steps[i]
                    is DrawIndexed)
        }),
{
    let steps = present_steps(source, image_index, width, height, swap_rb, decode_srgb);
    let n = steps.len() as int;
    let tail = steps.skip(n - 7);
    assert(tail[0] == Step::BindPresentPipeline);
    assert(tail[1] == Step::SetViewport(ViewportChoice::Full { width, height }));
    assert(tail[2] == Step::SetScissor(ScissorRect { x: 0, y: 0, width, height }));
    assert(tail[3] == Step::BindPresentSet);
    assert(tail[4] == (Step::PushPresent { swap_rb, decode_srgb }));
}

/// Every present that gets an image records and submits exactly one frame.
pub proof fn law_present_submits_once(b: BackendView, image_index: u32, format: Format, dump: bool)
    ensures
        ({
            let ops = present_ops(b, image_index, format, dump);
            exists|at: int|
                #![trigger ops[at]]
                0 <= at < ops.len() && ops[at] is RecordAndSubmit && forall|i: int|
                    0 <= i < ops.len() && i != at ==> !((#[trigger] ops[i]) is RecordAndSubmit)
        }),
{
    let ops = present_ops(b, image_index, format, dump);
    let none = Seq::<PresentOp>::empty();
    let late = frame_source(b) is Imported;
    let signal = opt_op(signal_op(b));
    let head = seq![PresentOp::ResetFence] + opt_op(copy_op(b)) + (if late {
        none
    } else {
        signal
    });
    let dumps = if dump {
        seq![PresentOp::DumpPicture { image_index }]
    } else {
        none
    };
    let tail = (if late {
        signal
    } else {
        none
    }) + dumps + seq![PresentOp::Present { image_index }];
    let submit = PresentOp::RecordAndSubmit {
        source: frame_source(b),
        image_index,
        swap_rb: swap_flag(b),
        decode_srgb: decode_flag(format),
    };
    assert(ops =~= head + seq![submit] + tail);
    assert(forall|i: int| 0 <= i < head.len() ==> !((#[trigger] head[i]) is RecordAndSubmit));
    assert(forall|i: int| 0 <= i < tail.len() ==> !((#[trigger] tail[i]) is RecordAndSubmit));
    let at = head.len() as int;
    assert(ops[at] is RecordAndSubmit);
    assert forall|i: int| 0 <= i < ops.len() && i != at implies !((
    #[trigger] ops[i]) is RecordAndSubmit) by {
        if i < at {
            assert(ops[i] == head[i]);
        } else {
            assert(ops[i] == tail[i - at - 1]);
        }
    }
}

/// Once a submit has drawn into the videoout target, a present neither copies the guest's frame
/// nor lets the device copy anything over what was drawn; and what it shows is the target.
pub proof fn law_drawn_frames_are_shown(
    b: BackendView,
    image_index: u32,
    format: Format,
    dump: bool,
    width: u32,
    height: u32,
)
    requires
        b.embedded_drawn,
    ensures
        ({
            let ops = present_ops(b, image_index, format, dump);
            forall|i: int|
                0 <= i < ops.len() ==> {
                    &&& !((#[trigger] ops[i]) is CopyFrame)
                    &&& ops[i] matches PresentOp::RecordAndSubmit {
                        source,
                        image_index: index,
                        swap_rb,
                        decode_srgb,
                    } ==> {
                        let steps = present_steps(
                            source,
                            index,
                            width,
                            height,
                            swap_rb,
                            decode_srgb,
                        );
                        &&& swap_rb == 0
                        &&& forall|k: int|
                            0 <= k < steps.len() ==> !((#[trigger] steps[k]) is CopyBufferToImage)
                    }
                }
        }),
{
    let ops = present_ops(b, image_index, format, dump);
    assert forall|i: int| 0 <= i < ops.len() implies ({
        &&& !((#[trigger] ops[i]) is CopyFrame)
        &&& ops[i] matches PresentOp::RecordAndSubmit {
            source,
            image_index: index,
            swap_rb,
            decode_srgb,
        } ==> {
            let steps = present_steps(source, index, width, height, swap_rb, decode_srgb);
            &&& swap_rb == 0
            &&& forall|k: int|
                0 <= k < steps.len() ==> !((#[trigger] steps[k]) is CopyBufferToImage)
        }
    }) by {
        if ops[i] is RecordAndSubmit {
            law_present_shows_the_right_frame(b, image_index, format, dump, i);
            law_present_flags(b, image_index, format, dump, i);
            law_drawn_frames_are_not_overwritten(
                ops[i]->RecordAndSubmit_source,
                ops[i]->RecordAndSubmit_image_index,
                width,
                height,
                ops[i]->RecordAndSubmit_swap_rb,
                ops[i]->RecordAndSubmit_decode_srgb,
            );
        }
    }
}

} // verus!
