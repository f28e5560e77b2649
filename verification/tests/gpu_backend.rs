use unemups4::gpu::backend::{AshBackend, DumpPlan, ReadbackPlan};
use unemups4::gpu::buffer_pool::{PooledBuffer, Region};
use unemups4::gpu::commands::{
    BackendCmd, BlendKey, ColorFormat, IndexType, PipelineDesc, PrimitiveTopology,
    PushConstantRange, ScissorRect, StorageBinding, TextureBinding, Tiling, ViewportRect,
};
use unemups4::gpu::passes::Knobs;
use unemups4::gpu::pipeline::create_host_pipeline;
use unemups4::gpu::present::{
    frame_copy_size, mapped_bytes, present_flag_bytes, record_command_buffer, Acquired,
    FrameSource, PresentOp,
};
use unemups4::gpu::record::{push_constant_bytes, single_is_nonzero};
use unemups4::gpu::resources::{ImportedBuf, NewImage, Reply, Request};
use unemups4::gpu::steps::{BufferRef, ImageRef, Step, StreamWords};
use unemups4::gpu::surface::{guest_surface_layout, pack_guest_surface, SurfaceTiling, TileOrder};
use unemups4::gpu::transfer::{
    copy_cleanup, copy_present_to_host, copy_rt_to_host, picture_bytes, upload_image, CopyObject,
    CopyStage,
};
use unemups4::gpu::vk::{DescriptorType, Format, ImageLayout, LoadOp};
use unemups4::gpu::walk::{draw_guards_ok, Readback, Walk};

const PLAIN: Knobs = Knobs { full_barrier: false, clear_alpha_zero: false };

fn desc(textures: usize, storage: usize) -> PipelineDesc {
    PipelineDesc {
        vertex_layout: None,
        blend: BlendKey { enable: false, control: 0, write_mask: 0xF },
        topology: PrimitiveTopology::TriangleList,
        vertex_storage: (0..storage as u32).map(|b| StorageBinding { set: 0, binding: b }).collect(),
        push_constants: None,
        textures: (0..textures as u32).map(|b| TextureBinding { set: 0, binding: 8 + b }).collect(),
        const_storage: None,
        const_storage_fragment: None,
    }
}

fn pipeline_cmd(id: u32, textures: usize) -> BackendCmd {
    BackendCmd::CreatePipeline {
        id,
        vs_spirv: Vec::new(),
        ps_spirv: Vec::new(),
        desc: desc(textures, 0),
    }
}

fn pipeline_reply(n: u64) -> Reply {
    Reply::Pipeline { pipeline: n, layout: n + 1, set_layout: Some(n + 2) }
}

fn image(n: u64) -> Reply {
    Reply::Image(Some(NewImage { image: n, view: n + 1, mem: n + 2 }))
}

fn rt_cmd(id: u32, width: u32, height: u32) -> BackendCmd {
    BackendCmd::CreateRenderTarget { id, width, height, format: ColorFormat::R8G8B8A8Unorm }
}

/// A backend with one pipeline, bound in the walk.
fn ready() -> (AshBackend, Walk) {
    let mut backend = AshBackend::new();
    let cmds = vec![pipeline_cmd(1, 0), BackendCmd::BindPipeline { id: 1 }];
    let walk = backend.replay_command_list(&cmds, &vec![pipeline_reply(100), Reply::Done]);
    (backend, walk)
}

fn begin_ops(steps: &[Step]) -> Vec<LoadOp> {
    steps
        .iter()
        .filter_map(|s| match s {
            Step::BeginPass { attachment, .. } => Some(attachment.load_op),
            _ => None,
        })
        .collect()
}

#[test]
fn draw_guards_require_every_declared_binding_not_just_one() {
    let pipe = Some(0u64);
    assert!(!draw_guards_ok(pipe, 2, 1, 0, 0, 0, 0));
    assert!(draw_guards_ok(pipe, 2, 2, 0, 0, 0, 0));
    assert!(!draw_guards_ok(pipe, 0, 0, 3, 1, 0, 0));
    assert!(draw_guards_ok(pipe, 0, 0, 3, 3, 0, 0));
    assert!(draw_guards_ok(pipe, 0, 0, 0, 0, 0, 0));
    assert!(!draw_guards_ok(None, 0, 0, 0, 0, 0, 0));
    assert!(!draw_guards_ok(pipe, 0, 0, 0, 0, 1, 0));
    assert!(draw_guards_ok(pipe, 0, 0, 0, 0, 1, 1));
    assert!(!draw_guards_ok(pipe, 0, 0, 0, 0, 2, 1));
    assert!(draw_guards_ok(pipe, 0, 0, 0, 0, 2, 2));
}

/// Every texel is different, and none is zero.
fn unique_pattern(w: u32, h: u32) -> Vec<u8> {
    let mut px = Vec::with_capacity((w * h * 4) as usize);
    for y in 0..h {
        for x in 0..w {
            px.extend_from_slice(&[
                (x + 1) as u8,
                (y + 1) as u8,
                ((x * 7 + y * 13) % 251 + 1) as u8,
                0xFF,
            ]);
        }
    }
    px
}

fn guest_texel_linear(bytes: &[u8], pitch: u32, x: u32, y: u32) -> [u8; 4] {
    let off = ((y * pitch + x) * 4) as usize;
    [bytes[off], bytes[off + 1], bytes[off + 2], bytes[off + 3]]
}

/// The texels of a tile along a Z: the bits of `x` and `y` take turns.
fn z_order() -> TileOrder {
    let rank = (0..64usize)
        .map(|i| {
            let (x, y) = (i % 8, i / 8);
            (0..3).map(|b| ((x >> b) & 1) << (2 * b) | ((y >> b) & 1) << (2 * b + 1)).sum()
        })
        .collect();
    TileOrder::new(rank).expect("a permutation")
}

/// The rows of a surface in thin tiles.
fn detile(tiled: &[u8], width: u32, height: u32, order: &TileOrder) -> Vec<u8> {
    let across = ((width + 7) / 8) as usize;
    let mut rows = Vec::new();
    for y in 0..height as usize {
        for x in 0..width as usize {
            let tile = (y / 8) * across + x / 8;
            let at = (tile * 64 + order.rank[(y % 8) * 8 + x % 8]) * 4;
            rows.extend_from_slice(&tiled[at..at + 4]);
        }
    }
    rows
}

#[test]
fn readback_of_a_tiled_surface_detiles_back_to_the_rendered_content() {
    let (w, h, pitch) = (10u32, 8u32, 16u32);
    let content = unique_pattern(w, h);
    let layout = guest_surface_layout(w, h, pitch, Tiling::Tiled { tile_mode_index: 2 })
        .expect("1D-thin is expressible");
    let guest = pack_guest_surface(&content, w, h, &layout, &z_order()).expect("packs");

    let linear_layout =
        guest_surface_layout(w, h, pitch, Tiling::Linear).expect("linear is expressible");
    let as_linear = pack_guest_surface(&content, w, h, &linear_layout, &z_order()).expect("packs");
    assert_ne!(
        guest, as_linear,
        "a tiled pack must actually swizzle: identical bytes would mean the tiling was ignored"
    );

    let decoded = detile(&guest, pitch, h, &z_order());
    for y in 0..h {
        for x in 0..w {
            let want = {
                let o = ((y * w + x) * 4) as usize;
                [content[o], content[o + 1], content[o + 2], content[o + 3]]
            };
            assert_eq!(
                guest_texel_linear(&decoded, pitch, x, y),
                want,
                "tiled texel ({x},{y}) must survive the round trip"
            );
        }
    }
}

#[test]
fn a_tile_past_the_picture_is_zeros() {
    let layout = guest_surface_layout(3, 9, 9, Tiling::Tiled { tile_mode_index: 7 }).unwrap();
    let guest = pack_guest_surface(&[0xEE; 3 * 9 * 4], 3, 9, &layout, &z_order()).unwrap();
    assert_eq!(guest.len(), 2 * 2 * 64 * 4);
    assert_eq!(guest.iter().filter(|b| **b == 0xEE).count(), 3 * 9 * 4);
    let rows = detile(&guest, 9, 9, &z_order());
    assert_eq!(&rows[0..12], &[0xEE; 12]);
    assert_eq!(&rows[12..36], &[0; 24]);
}

#[test]
fn an_order_gives_every_texel_a_place_of_its_own() {
    assert!(TileOrder::new((0..64).rev().collect()).is_some());
    assert!(TileOrder::new((0..63).collect()).is_none());
    assert!(TileOrder::new((1..65).collect()).is_none());
    assert!(TileOrder::new((0..64).map(|i| i / 2).collect()).is_none());
}

#[test]
fn readback_strides_rows_by_the_guest_pitch_not_the_content_width() {
    let (w, h, pitch) = (10u32, 6u32, 16u32);
    let content = unique_pattern(w, h);
    let layout = guest_surface_layout(w, h, pitch, Tiling::Linear)
        .expect("a linear padded surface is expressible");
    let guest = pack_guest_surface(&content, w, h, &layout, &z_order()).expect("packs");

    assert_eq!(
        guest.len(),
        (pitch * h * 4) as usize,
        "the packed surface spans the PADDED allocation, not the content"
    );
    for y in 0..h {
        for x in 0..w {
            let want = {
                let o = ((y * w + x) * 4) as usize;
                [content[o], content[o + 1], content[o + 2], content[o + 3]]
            };
            assert_eq!(
                guest_texel_linear(&guest, pitch, x, y),
                want,
                "texel ({x},{y}) must be readable at the guest pitch"
            );
        }
    }
    for y in 0..h {
        for x in w..pitch {
            assert_eq!(
                guest_texel_linear(&guest, pitch, x, y),
                [0, 0, 0, 0],
                "padding texel ({x},{y}) must be zero, not borrowed content"
            );
        }
    }
}

#[test]
fn readback_refuses_surfaces_it_cannot_express_rather_than_writing_garbage() {
    for index in [9u32, 13, 14, 31] {
        assert!(
            guest_surface_layout(960, 540, 1024, Tiling::Tiled { tile_mode_index: index }).is_none(),
            "macro-tiled index {index} must be refused"
        );
    }
    assert!(guest_surface_layout(8, 8, 8, Tiling::Tiled { tile_mode_index: 0x100 }).is_none());
    assert!(guest_surface_layout(16, 8, 8, Tiling::Linear).is_none());
    assert!(guest_surface_layout(0, 8, 8, Tiling::Linear).is_none());
    assert!(guest_surface_layout(8, 0, 8, Tiling::Linear).is_none());
}

#[test]
fn readback_treats_the_linear_aligned_mode_as_a_pitch_strided_surface() {
    let (w, h, pitch) = (10u32, 4u32, 16u32);
    let content = unique_pattern(w, h);
    let aligned = guest_surface_layout(w, h, pitch, Tiling::Tiled { tile_mode_index: 8 })
        .expect("linear-aligned is expressible");
    let general =
        guest_surface_layout(w, h, pitch, Tiling::Linear).expect("linear is expressible");
    assert_eq!(
        pack_guest_surface(&content, w, h, &aligned, &z_order()).expect("packs"),
        pack_guest_surface(&content, w, h, &general, &z_order()).expect("packs"),
    );
}

#[test]
fn readback_of_an_unpadded_surface_is_the_content_verbatim() {
    let (w, h) = (8u32, 4u32);
    let content = unique_pattern(w, h);
    let layout = guest_surface_layout(w, h, w, Tiling::Linear).expect("linear");
    assert_eq!(pack_guest_surface(&content, w, h, &layout, &z_order()).expect("packs"), content);
}

#[test]
fn a_short_picture_is_not_packed() {
    for tiling in [Tiling::Linear, Tiling::Tiled { tile_mode_index: 1 }] {
        for pitch in [4, 5] {
            let layout = guest_surface_layout(4, 4, pitch, tiling).unwrap();
            let err = pack_guest_surface(&[0; 63], 4, 4, &layout, &z_order()).unwrap_err();
            assert_eq!((err.got, err.expected), (63, 64));
        }
    }
    let tiled = guest_surface_layout(4, 4, 8, Tiling::Tiled { tile_mode_index: 2 }).unwrap();
    assert_eq!(tiled.tiling, SurfaceTiling::Thin1d);
}

#[test]
fn the_first_pass_of_a_frame_clears_and_the_others_keep() {
    let (mut backend, mut walk) = ready();
    for _ in 0..3 {
        backend.replay_command(&mut walk, &BackendCmd::DrawAuto { vertex_count: 3 }, Reply::Done);
    }
    let plan = backend.close_list(walk, PLAIN).unwrap();
    assert_eq!(begin_ops(&plan.submit.steps), vec![LoadOp::Clear, LoadOp::Load, LoadOp::Load]);
    assert_eq!((plan.submit.passes, plan.submit.draws, plan.submit.transients), (3, 3, 2));
    assert!(plan.submit.videoout_drawn && !plan.submit.cleared_at_entry);
    assert!(backend.ensure_draw_fence());
    assert!(!backend.ensure_draw_fence());
    backend.finish_submit(&plan.submit, true);
    assert!(backend.embedded_drawn && backend.videoout_cleared_this_frame);

    // The next list of the frame goes on where this one ended.
    let mut walk = Walk::new();
    backend.replay_command(&mut walk, &BackendCmd::BindPipeline { id: 1 }, Reply::Done);
    backend.replay_command(&mut walk, &BackendCmd::DrawAuto { vertex_count: 3 }, Reply::Done);
    let next = backend.close_list(walk, PLAIN).unwrap();
    assert_eq!(begin_ops(&next.submit.steps), vec![LoadOp::Load]);
}

#[test]
fn a_list_without_draws_submits_nothing() {
    let (mut backend, walk) = ready();
    assert!(backend.close_list(walk, PLAIN).is_none());
    assert!(!backend.embedded_drawn);
}

#[test]
fn a_draw_without_its_texture_is_dropped() {
    let mut backend = AshBackend::new();
    let cmds = vec![
        pipeline_cmd(1, 1),
        BackendCmd::BindPipeline { id: 1 },
        BackendCmd::DrawAuto { vertex_count: 3 },
    ];
    let walk =
        backend.replay_command_list(&cmds, &vec![pipeline_reply(10), Reply::Done, Reply::Done]);
    assert!(walk.passes.is_empty());
    assert!(backend.close_list(walk, PLAIN).is_none());
}

#[test]
fn a_draw_is_recorded_with_all_it_binds() {
    let mut backend = AshBackend::new();
    let mut walk = Walk::new();
    let play: Vec<(BackendCmd, Reply)> = vec![
        (
            BackendCmd::CreatePipeline {
                id: 1,
                vs_spirv: Vec::new(),
                ps_spirv: Vec::new(),
                desc: desc(0, 1),
            },
            pipeline_reply(100),
        ),
        (
            BackendCmd::CreateBuffer { id: 5, size: 64 },
            Reply::Buffer(Some(PooledBuffer {
                buffer: 55,
                region: Region { block: 0, offset: 0, class: 256 },
            })),
        ),
        (BackendCmd::BindPipeline { id: 1 }, Reply::Done),
        (
            BackendCmd::BindStorageBuffer {
                set: 0,
                binding: 0,
                id: 5,
                num_records: 3,
                stride: 16,
                dst_sel: 4,
                format: 9,
                pc_offset: 8,
            },
            Reply::Done,
        ),
        (
            BackendCmd::SetScissor(ScissorRect { x: 1, y: 2, width: 3, height: 4 }),
            Reply::Done,
        ),
        (
            BackendCmd::DrawIndexed { id: 5, index_count: 6, index_type: IndexType::U16 },
            Reply::Done,
        ),
    ];
    for (cmd, reply) in play {
        backend.replay_command(&mut walk, &cmd, reply);
    }
    let plan = backend.close_list(walk, PLAIN).unwrap();
    let steps = &plan.submit.steps;
    assert!(steps.contains(&Step::BindPipeline { pipeline: 100 }));
    assert!(steps.contains(&Step::AllocateSet { set_layout: 102, storage_count: 1, sampler_count: 0 }));
    assert!(steps.contains(&Step::WriteStorage { binding: 0, buffer: 55 }));
    assert!(steps.contains(&Step::BindSet { pipeline_layout: 101 }));
    assert!(steps.contains(&Step::PushStream {
        pipeline_layout: 101,
        offset: 8,
        words: StreamWords { num_records: 3, stride: 16, dst_sel: 4, format: 9 },
    }));
    assert!(steps.contains(&Step::SetScissor(ScissorRect { x: 1, y: 2, width: 3, height: 4 })));
    assert!(steps.contains(&Step::BindIndexBuffer { buffer: 55, index_type: IndexType::U16 }));
    assert!(steps.contains(&Step::DrawIndexed { index_count: 6 }));
    assert_eq!(steps.last(), Some(&Step::EndPass));
    assert_eq!(plan.submit.descriptor_pools, 1);
}

#[test]
fn the_last_texture_of_a_binding_counts() {
    let mut backend = AshBackend::new();
    let mut walk = Walk::new();
    let bind = |image_id| BackendCmd::BindTexture { set: 0, binding: 8, image_id, sampler_id: 4 };
    let play: Vec<(BackendCmd, Reply)> = vec![
        (pipeline_cmd(1, 1), pipeline_reply(100)),
        (rt_cmd(2, 8, 8), image(20)),
        (rt_cmd(3, 8, 8), image(30)),
        (
            BackendCmd::CreateSampler {
                id: 4,
                desc: unemups4::gpu::commands::SamplerDesc {
                    mag_filter: unemups4::gpu::commands::SamplerFilter::Linear,
                    min_filter: unemups4::gpu::commands::SamplerFilter::Nearest,
                    address_mode_u: unemups4::gpu::commands::SamplerAddressMode::Repeat,
                    address_mode_v: unemups4::gpu::commands::SamplerAddressMode::ClampToEdge,
                },
            },
            Reply::Sampler(44),
        ),
        (BackendCmd::BindPipeline { id: 1 }, Reply::Done),
        (bind(2), Reply::Done),
        (bind(3), Reply::Done),
        (BackendCmd::DrawAuto { vertex_count: 3 }, Reply::Done),
    ];
    for (cmd, reply) in play {
        backend.replay_command(&mut walk, &cmd, reply);
    }
    assert_eq!(walk.passes.len(), 1);
    let binds = &walk.passes[0].texture_binds;
    assert_eq!(binds.len(), 1);
    assert_eq!((binds[0].view, binds[0].sampler), (31, 44));
}

#[test]
fn a_fence_that_did_not_signal_takes_the_frame_back() {
    let (mut backend, mut walk) = ready();
    backend.replay_command(&mut walk, &rt_cmd(7, 16, 8), image(70));
    backend.replay_command(&mut walk, &BackendCmd::SetRenderTarget { id: 7 }, Reply::Done);
    backend.replay_command(&mut walk, &BackendCmd::DrawAuto { vertex_count: 3 }, Reply::Done);
    backend.replay_command(&mut walk, &BackendCmd::DrawAuto { vertex_count: 3 }, Reply::Done);
    let plan = backend.close_list(walk, PLAIN).unwrap();
    assert_eq!(plan.submit.touched, vec![7]);
    let rt = *backend.resources.render_targets.get(&7).unwrap();
    assert_eq!(rt.current_layout, ImageLayout::ShaderReadOnly);
    assert!(backend.videoout_cleared_this_frame);
    assert!(matches!(backend.dump_render_target_png(7), DumpPlan::Copy { image: 70, .. }));

    backend.ensure_draw_fence();
    backend.finish_submit(&plan.submit, false);
    let rt = *backend.resources.render_targets.get(&7).unwrap();
    assert_eq!(rt.current_layout, ImageLayout::Undefined);
    assert!(!backend.videoout_cleared_this_frame && !backend.has_draw_fence);
    assert!(matches!(backend.dump_render_target_png(7), DumpPlan::NotRendered));
    assert!(matches!(backend.dump_render_target_png(8), DumpPlan::Unknown));
}

#[test]
fn readbacks_are_decided_one_by_one() {
    let (mut backend, mut walk) = ready();
    backend.replay_command(&mut walk, &rt_cmd(7, 16, 8), image(70));
    let readback = |id, tiling| Readback { id, addr: 0x9000, size: 100, pitch: 16, tiling };
    assert!(matches!(backend.readback(readback(8, Tiling::Linear)), ReadbackPlan::Unknown));
    assert!(matches!(backend.readback(readback(7, Tiling::Linear)), ReadbackPlan::NotRendered));
    backend.replay_command(&mut walk, &BackendCmd::SetRenderTarget { id: 7 }, Reply::Done);
    backend.replay_command(&mut walk, &BackendCmd::DrawAuto { vertex_count: 3 }, Reply::Done);
    let cmd = BackendCmd::ReadbackRenderTarget {
        id: 7,
        addr: 0x9000,
        size: 100,
        pitch: 16,
        tiling: Tiling::Linear,
    };
    backend.replay_command(&mut walk, &cmd, Reply::Done);
    let plan = backend.close_list(walk, PLAIN).unwrap();
    assert_eq!(plan.readbacks.len(), 1);
    match backend.readback(plan.readbacks[0]) {
        ReadbackPlan::Copy { image, width, height, addr, size, .. } => {
            assert_eq!((image, width, height, addr, size), (70, 16, 8, 0x9000, 100));
        }
        other => panic!("{:?}", other),
    }
    let macro_tiled = Tiling::Tiled { tile_mode_index: 14 };
    assert_eq!(backend.readback(readback(7, macro_tiled)), ReadbackPlan::Refused { first: true });
    assert_eq!(backend.readback(readback(7, macro_tiled)), ReadbackPlan::Refused { first: false });
    assert_eq!(AshBackend::readback_len(100, 512), 100);
    assert_eq!(AshBackend::readback_len(600, 512), 512);
}

#[test]
fn a_freed_id_is_free_for_another() {
    let mut backend = AshBackend::new();
    let make = BackendCmd::CreateImage {
        id: 3,
        width: 4,
        height: 4,
        format: unemups4::gpu::commands::TextureFormat::R8G8B8A8Unorm,
    };
    let free = BackendCmd::FreeResource { id: 3 };
    let mut walk = Walk::new();
    backend.replay_command(&mut walk, &make, image(30));
    assert_eq!(backend.request(&make), Request::Nothing);
    match backend.request(&free) {
        Request::Destroy { imported: None, image: Some(img), render_target: None } => {
            assert_eq!((img.image, img.view, img.mem), (30, 31, 32));
        }
        other => panic!("{:?}", other),
    }
    backend.replay_command(&mut walk, &free, Reply::Done);
    assert!(matches!(backend.request(&make), Request::MakeImage { width: 4, height: 4, .. }));
    assert_eq!(backend.request(&free), Request::Nothing);
}

#[test]
fn released_buffers_wait_for_the_next_list() {
    let mut backend = AshBackend::new();
    let pooled = PooledBuffer { buffer: 9, region: Region { block: 0, offset: 0, class: 256 } };
    let cmds = vec![
        BackendCmd::CreateBuffer { id: 3, size: 10 },
        BackendCmd::FreeResource { id: 3 },
    ];
    assert_eq!(backend.request(&cmds[0]), Request::MakeBuffer { len: 10 });
    backend.replay_command_list(&cmds, &vec![Reply::Buffer(Some(pooled)), Reply::Done]);
    let recycle = backend.begin_list();
    assert_eq!(recycle.len(), 1);
    assert_eq!(recycle[0].buffer, 9);
    assert!(backend.begin_list().is_empty());
}

#[test]
fn targets_are_numbered_from_one() {
    let mut backend = AshBackend::new();
    assert_eq!(backend.create_target(), 1);
    assert_eq!(backend.create_target(), 2);
}

#[test]
fn a_knob_widens_barriers_and_another_the_clear() {
    let (mut backend, mut walk) = ready();
    backend.replay_command(&mut walk, &BackendCmd::DrawAuto { vertex_count: 3 }, Reply::Done);
    let knobs = Knobs { full_barrier: true, clear_alpha_zero: true };
    let plan = backend.close_list(walk, knobs).unwrap();
    assert!(matches!(plan.submit.steps.last(), Some(Step::FullBarrier { .. })));
    assert!(plan
        .submit
        .steps
        .iter()
        .any(|s| matches!(s, Step::BeginPass { opaque_clear: false, .. })));
}

#[test]
fn a_pipeline_declares_what_its_shaders_need() {
    let mut d = desc(2, 1);
    d.const_storage_fragment = Some(StorageBinding { set: 0, binding: 6 });
    d.push_constants = Some(PushConstantRange { offset: 0, size: 16 });
    let plan = create_host_pipeline(&d);
    let samplers =
        plan.set_bindings.iter().filter(|b| b.kind == DescriptorType::CombinedImageSampler).count();
    assert_eq!((plan.set_bindings.len(), samplers), (4, 2));
    assert_eq!(plan.topology, ash::vk::PrimitiveTopology::TRIANGLE_LIST.as_raw());
    assert_eq!(plan.push_constants.unwrap().size, 16);
    assert!(plan.vertex_bindings.is_empty());
}

#[test]
fn copies_leave_an_image_as_they_found_it() {
    let last = |steps: &[Step]| match steps.last() {
        Some(Step::Barrier(b)) => b.new_layout,
        other => panic!("{:?}", other),
    };
    assert_eq!(last(&copy_rt_to_host(5, 4, 4)), ImageLayout::ShaderReadOnly);
    assert_eq!(last(&copy_present_to_host(5, 4, 4)), ImageLayout::PresentSrc);
    let upload = upload_image(ImageRef::Handle(5), BufferRef::Staging, 4, 4);
    assert_eq!(last(&upload), ImageLayout::ShaderReadOnly);
    assert_eq!(upload.len(), 3);
    assert_eq!(picture_bytes(1920, 1080), 8_294_400);
}

#[test]
fn a_failed_copy_releases_what_it_made() {
    assert!(copy_cleanup(Some(CopyStage::MakeBuffer)).is_empty());
    let early = copy_cleanup(Some(CopyStage::MakeCommandBuffer));
    assert!(early.contains(&CopyObject::Buffer) && early.contains(&CopyObject::Memory));
    assert!(!early.contains(&CopyObject::CommandBuffer));
    let done = copy_cleanup(None);
    assert_eq!(done.len(), 4);
}

#[test]
fn a_present_shows_signals_and_presents() {
    let mut backend = AshBackend::new();
    let plan = backend.register_buffer(0x1000, 64, 32, 0x8000_0000, 0, 0, false, None);
    assert!(plan.import.is_none() && plan.stale.is_none());
    assert_eq!(backend.submit_flip(0, 0, 77), None);
    assert_eq!(backend.submit_flip(0, 0, 78), Some(77));
    let format = Format::B8G8R8A8Unorm;
    let ops = backend.present(Acquired::Image(2), format, true);
    assert!(ops.contains(&PresentOp::Signal(78)));
    assert!(ops.iter().any(|op| matches!(op, PresentOp::CopyFrame(b) if b.guest_ptr == 0x1000)));
    assert!(ops.contains(&PresentOp::RecordAndSubmit {
        source: FrameSource::Staging,
        image_index: 2,
        swap_rb: 1,
        decode_srgb: 0,
    }));
    assert!(ops.contains(&PresentOp::DumpPicture { image_index: 2 }));
    assert_eq!(ops.last(), Some(&PresentOp::Present { image_index: 2 }));
    assert_eq!(backend.signal_vsync(), None);
}

#[test]
fn a_present_that_gets_no_image_leaves_the_flip_pending() {
    let mut backend = AshBackend::new();
    backend.submit_flip(0, 0, 5);
    for acquired in [Acquired::OutOfDate, Acquired::Failed] {
        assert!(backend.present(acquired, Format::B8G8R8A8Unorm, false).is_empty());
    }
    assert_eq!(backend.signal_vsync(), Some(5));
}

#[test]
fn a_buffer_on_host_memory_is_imported() {
    let mut backend = AshBackend::new();
    let small = backend.register_buffer(0x1000, 64, 32, 0, 1, 2, true, Some(0xABC000));
    assert_eq!((small.stale, small.import), (None, None));
    let plan = backend.register_buffer(0x1000, 1920, 1080, 0, 1, 2, true, Some(0xABC000));
    assert_eq!((plan.stale, plan.import), (None, Some(8_294_400)));
    let buf = ImportedBuf { buffer: 4, mem: 5, host_ptr: 0xABC000 };
    backend.note_import(1, 2, buf);
    let same = backend.register_buffer(0x1000, 1920, 1080, 0, 1, 2, true, Some(0xABC000));
    assert_eq!((same.stale, same.import), (None, None));
    // The device reads an imported frame, so its guest waits for the submit.
    backend.submit_flip(1, 2, 9);
    let ops = backend.present(Acquired::Image(0), Format::B8G8R8A8Unorm, false);
    assert_eq!(ops.len(), 4);
    assert!(matches!(
        ops[1],
        PresentOp::RecordAndSubmit { source: FrameSource::Imported(4), swap_rb: 0, .. }
    ));
    assert_eq!(ops[2], PresentOp::Signal(9));
    let again = backend.register_buffer(0x2000, 1920, 1080, 0, 1, 2, true, Some(0xDEF000));
    assert_eq!((again.stale, again.import), (Some(buf), Some(8_294_400)));
}

#[test]
fn a_frame_is_copied_no_further_than_it_is_mapped() {
    assert_eq!(frame_copy_size(1920, 1080, None), 8_294_400);
    assert_eq!(frame_copy_size(64, 32, Some(100)), 100);
    assert_eq!(mapped_bytes(0x3000, 0x1000), 0x2000);
}

#[test]
fn a_presented_frame_is_one_triangle() {
    let steps = record_command_buffer(FrameSource::Staging, 1, 640, 480, 1, 0);
    assert!(steps.iter().any(|s| matches!(s, Step::CopyBufferToImage { .. })));
    assert!(steps.contains(&Step::PushPresent { swap_rb: 1, decode_srgb: 0 }));
    assert!(steps.contains(&Step::BeginPresent { image_index: 1, width: 640, height: 480 }));
    let drawn = record_command_buffer(FrameSource::Drawn, 1, 640, 480, 1, 0);
    assert!(!drawn.iter().any(|s| matches!(s, Step::CopyBufferToImage { .. })));
    assert_eq!(present_flag_bytes(1, 0x0102), vec![1, 0, 0, 0, 2, 1, 0, 0]);
}

#[test]
fn words_are_pushed_in_order() {
    assert_eq!(
        push_constant_bytes(StreamWords { num_records: 1, stride: 2, dst_sel: 3, format: 4 }),
        vec![1, 0, 0, 0, 2, 0, 0, 0, 3, 0, 0, 0, 4, 0, 0, 0]
    );
    assert!(single_is_nonzero(1.5f32.to_bits()));
    assert!(!single_is_nonzero(0f32.to_bits()));
    assert!(!single_is_nonzero((-0f32).to_bits()));
}

#[test]
fn a_viewport_of_the_guest_is_kept() {
    let (mut backend, mut walk) = ready();
    let vp = ViewportRect {
        x: 0f32.to_bits(),
        y: 0f32.to_bits(),
        width: 10f32.to_bits(),
        height: 20f32.to_bits(),
    };
    backend.replay_command(&mut walk, &BackendCmd::SetViewport(vp), Reply::Done);
    backend.replay_command(&mut walk, &BackendCmd::DrawAuto { vertex_count: 4 }, Reply::Done);
    assert_eq!(walk.passes[0].viewport, Some(vp));
    backend.replay_command(&mut walk, &BackendCmd::DrawAuto { vertex_count: 4 }, Reply::Done);
    assert_eq!(walk.passes[1].viewport, None);
}

#[test]
fn padding_is_zero_in_tiles_as_in_rows() {
    let (w, h, pitch) = (10u32, 9u32, 13u32);
    let content = unique_pattern(w, h);
    let tiled = guest_surface_layout(w, h, pitch, Tiling::Tiled { tile_mode_index: 2 }).unwrap();
    let linear = guest_surface_layout(w, h, pitch, Tiling::Linear).unwrap();
    let guest = pack_guest_surface(&content, w, h, &tiled, &z_order()).unwrap();
    let rows = pack_guest_surface(&content, w, h, &linear, &z_order()).unwrap();
    assert_eq!(detile(&guest, pitch, h, &z_order()), rows);
    assert_eq!(guest_texel_linear(&rows, pitch, 12, 8), [0, 0, 0, 0]);
}
