use rspirv::binary::Assemble;
use rspirv::dr::{Builder, Operand};
use rspirv::spirv;
use unemups4::gpu::commands::{BackendCmd, SamplerAddressMode, SamplerFilter};
use unemups4::gpu::dump::{dump_cleanup, dump_present_png, present_png};
use unemups4::gpu::harness::{
    alloc_combined_set, alloc_descriptor, build_texture_memory, build_vs_memory, checkerboard,
    create_readback_buffer, create_sampler, create_staging_buffer, create_storage_buffer,
    fill_push_constants, find_mem_type, first_covered_texel, is_flat_colour,
    make_sampled_texture, pc_ranges_for, rotated_vertices, sampler_plan, stage_from_name,
    upload_len, words, words_to_bytes, HarnessTexture, HostBufferPlan, MockMem,
    PushConstantField, PushConstantRole, ReadError, SamplerPlan, ShaderStage,
};
use unemups4::gpu::png::{adler32, crc32, encode_rgba_png, DumpPng};
use unemups4::gpu::present_profile::{
    cmd_index, cmd_name, cmd_snapshot, enabled, note_present, pool_snapshot, snapshot,
    submit_snapshot, take_present_gap_extremes, CmdStats, PoolStats, PresentStats, SubmitStats,
    VBLANK_NS,
};
use unemups4::gpu::spirv::{build_textured_fs, build_textured_vs};
use unemups4::gpu::steps::{BufferRef, ImageRef, Step};
use unemups4::gpu::transfer::{copy_present_to_host, CopyObject, CopyStage};
use unemups4::gpu::vk::Format;

fn bits(v: [f32; 4]) -> [u32; 4] {
    [v[0].to_bits(), v[1].to_bits(), v[2].to_bits(), v[3].to_bits()]
}

#[test]
fn first_covered_texel_picks_finite_over_nan_clear() {
    let nan = [f32::NAN; 4];
    let val = [1.0, 2.0, 3.0, 4.0];
    assert_eq!(
        first_covered_texel(&vec![bits(nan), bits(nan), bits(val), bits(nan)]),
        bits(val)
    );
}

#[test]
fn first_covered_texel_all_nan_when_nothing_covered() {
    let all_nan = first_covered_texel(&vec![bits([f32::NAN; 4]); 4]);
    assert!(all_nan.iter().all(|c| f32::from_bits(*c).is_nan()));
}

#[test]
fn an_infinite_channel_is_not_covered() {
    let inf = bits([0.0, f32::INFINITY, 0.0, 0.0]);
    let neg = bits([f32::NEG_INFINITY, 0.0, 0.0, 0.0]);
    let max = bits([f32::MAX, f32::MIN, 0.0, -0.0]);
    assert_eq!(first_covered_texel(&vec![inf, neg, max]), max);
}

#[test]
fn words_and_bytes_are_one() {
    let w = vec![0x0723_0203u32, 0xFFFF_FFFF, 7];
    let b = words_to_bytes(&w);
    assert_eq!(&b[..4], &[0x03, 0x02, 0x23, 0x07]);
    assert_eq!(words(&b), w);
    assert_eq!(words(&b[..11]), w[..2].to_vec());
}

#[test]
fn names_say_the_stage() {
    assert_eq!(stage_from_name("passthrough_vs"), Some(ShaderStage::Vertex));
    assert_eq!(stage_from_name("flat_color_ps"), Some(ShaderStage::Fragment));
    assert_eq!(stage_from_name("vs"), None);
    assert_eq!(stage_from_name("x_gs"), None);
    assert_eq!(stage_from_name("avs"), None);
}

#[test]
fn mock_memory_holds_its_bytes_only() {
    let m = MockMem::new(0x100, vec![1, 2, 3]);
    assert_eq!(m.read_bytes(0x101, 2), Ok(vec![2, 3]));
    assert_eq!(m.read_bytes(0x103, 0), Ok(Vec::new()));
    assert_eq!(m.read_bytes(0xFF, 1), Err(ReadError::BelowBase));
    assert_eq!(m.read_bytes(0x102, 2), Err(ReadError::PastEnd));
    assert_eq!(m.read_bytes(0x102, usize::MAX), Err(ReadError::SizeOverflow));
}

#[test]
fn a_vertex_shader_finds_its_buffer() {
    let positions = vec![bits([0.0, 1.0, 0.0, 1.0]), bits([-1.0, -1.0, 0.0, 1.0])];
    let (mem, desc) = build_vs_memory(&positions);
    assert_eq!(desc, 0x1_0000);
    let d = words(&mem.read_bytes(desc, 16).unwrap());
    assert_eq!(d, vec![0x1_0040, 16 << 16, 2, 0]);
    assert_eq!(mem.data.len(), 64 + 32);
    let v = words(&mem.read_bytes(0x1_0040, 32).unwrap());
    assert_eq!(v[1], 1.0f32.to_bits());
    assert_eq!(v[4], (-1.0f32).to_bits());
}

#[test]
fn every_vertex_comes_first_once() {
    let p: Vec<[u32; 4]> = (0..3).map(|i| [i, i, i, i]).collect();
    let all = words(&rotated_vertices(&p));
    let firsts: Vec<u32> = all.chunks(4).map(|c| c[0]).collect();
    assert_eq!(firsts, vec![0, 1, 2, 1, 2, 0, 2, 0, 1]);
}

fn texture(point: bool) -> HarnessTexture {
    HarnessTexture { width: 2, height: 2, texels: vec![9; 16], point }
}

#[test]
fn a_texture_is_described_by_registers() {
    let (user, mem) = build_texture_memory(&texture(false));
    assert_eq!(user.len(), 12);
    assert_eq!(&user[..4], &[0x200, 10 << 20, 1 | (1 << 14), 0]);
    assert_eq!(user[10], 1 << 20);
    assert_eq!((mem.base, mem.data.len()), (0x2_0000, 16));
    assert_eq!(build_texture_memory(&texture(true)).0[10], 0);
    let plan = make_sampled_texture(3, &texture(true), ImageRef::Handle(1), BufferRef::Staging);
    assert_eq!((plan.width, plan.height, plan.binding), (2, 2, 3));
    assert_eq!((plan.usage, plan.memory), (6, 1));
    assert_eq!(plan.staging, HostBufferPlan { bytes: 16, usage: 1, memory: 6 });
    assert_eq!(plan.sampler, create_sampler(true));
    assert_eq!(plan.sampler.mag_filter, SamplerFilter::Nearest);
    assert_eq!(create_sampler(false).min_filter, SamplerFilter::Linear);
    assert_eq!(plan.sampler.address_mode_u, SamplerAddressMode::Repeat);
    assert_eq!(plan.steps.len(), 3);
    assert_eq!(create_storage_buffer(&vec![0; 48]).bytes, 48);
    assert_eq!(create_staging_buffer(&Vec::new()).bytes, 16);
    assert_eq!(create_readback_buffer(64), HostBufferPlan { bytes: 64, usage: 2, memory: 6 });
    assert_eq!(
        alloc_combined_set(7, 3, 8, 9),
        vec![
            Step::AllocateSet { set_layout: 7, storage_count: 0, sampler_count: 1 },
            Step::WriteSampler { binding: 3, view: 8, sampler: 9 },
        ]
    );
    assert_eq!(alloc_descriptor(7, 8)[1], Step::WriteStorage { binding: 0, buffer: 8 });
}

#[test]
fn push_constants_are_filled_by_role() {
    let field = |role, offset_bytes| PushConstantField { role, offset_bytes, size_bytes: 4 };
    let fields = vec![
        field(PushConstantRole::NumRecords, 0),
        field(PushConstantRole::Stride, 4),
        field(PushConstantRole::Format, 12),
        field(PushConstantRole::DstSel, 8),
    ];
    assert_eq!(pc_ranges_for(&fields), Some(16));
    assert_eq!(pc_ranges_for(&Vec::new()), None);
    let out = fill_push_constants(&fields, 16, 9, 0xFAC);
    assert_eq!(words(&out), vec![9, 16, 0xFAC, 14 | (7 << 8)]);
}

#[test]
fn one_texture_serves_one_sampler() {
    assert_eq!(sampler_plan(&Vec::new(), true), SamplerPlan::Unsampled);
    assert_eq!(sampler_plan(&vec![4], true), SamplerPlan::Bind(4));
    assert_eq!(sampler_plan(&vec![4], false), SamplerPlan::NoTexture);
    assert_eq!(sampler_plan(&vec![4, 5], true), SamplerPlan::TooMany);
}

#[test]
fn the_first_memory_type_that_serves_is_taken() {
    let flags = vec![0x1, 0x6, 0x7];
    assert_eq!(find_mem_type(&flags, 0b111, 0x6), Some(1));
    assert_eq!(find_mem_type(&flags, 0b101, 0x6), Some(2));
    assert_eq!(find_mem_type(&flags, 0b001, 0x6), None);
}

#[test]
fn the_test_picture_is_a_chessboard() {
    let px = checkerboard();
    assert_eq!(px.len(), 64 * 64 * 4);
    assert_eq!(&px[0..4], &[230, 40, 40, 255]);
    assert_eq!(&px[8 * 4..8 * 4 + 4], &[40, 60, 230, 255]);
    let below = 8 * 64 * 4;
    assert_eq!(&px[below..below + 4], &[40, 60, 230, 255]);
    assert!(!is_flat_colour(&px));
    assert!(is_flat_colour(&[1, 2, 3, 4, 1, 2, 3, 4, 9]));
    assert_eq!(upload_len(px.len(), 64, 64), 16384);
    assert_eq!(upload_len(px.len(), 2, 2), 16);
    assert_eq!(upload_len(3, u32::MAX, u32::MAX), 3);
}

#[test]
fn the_vertex_shader_is_what_a_builder_builds() {
    let mut b = Builder::new();
    b.set_version(1, 3);
    b.capability(spirv::Capability::Shader);
    b.memory_model(spirv::AddressingModel::Logical, spirv::MemoryModel::GLSL450);
    let void = b.type_void();
    let f32t = b.type_float(32);
    let i32t = b.type_int(32, 1);
    let v2f32 = b.type_vector(f32t, 2);
    let v4f32 = b.type_vector(f32t, 4);
    let fn_void = b.type_function(void, []);
    let ptr_in_i32 = b.type_pointer(None, spirv::StorageClass::Input, i32t);
    let vertex_index = b.variable(ptr_in_i32, None, spirv::StorageClass::Input, None);
    b.decorate(
        vertex_index,
        spirv::Decoration::BuiltIn,
        [Operand::BuiltIn(spirv::BuiltIn::VertexIndex)],
    );
    let per_vertex = b.type_struct([v4f32]);
    b.decorate(per_vertex, spirv::Decoration::Block, []);
    b.member_decorate(
        per_vertex,
        0,
        spirv::Decoration::BuiltIn,
        [Operand::BuiltIn(spirv::BuiltIn::Position)],
    );
    let ptr_out_pv = b.type_pointer(None, spirv::StorageClass::Output, per_vertex);
    let pv_var = b.variable(ptr_out_pv, None, spirv::StorageClass::Output, None);
    let ptr_out_v2 = b.type_pointer(None, spirv::StorageClass::Output, v2f32);
    let uv_out = b.variable(ptr_out_v2, None, spirv::StorageClass::Output, None);
    b.decorate(uv_out, spirv::Decoration::Location, [Operand::LiteralBit32(0)]);
    let c0 = b.constant_bit32(f32t, 0.0f32.to_bits());
    let c1 = b.constant_bit32(f32t, 1.0f32.to_bits());
    let cn1 = b.constant_bit32(f32t, (-1.0f32).to_bits());
    let _c2 = b.constant_bit32(f32t, 2.0f32.to_bits());
    let c3 = b.constant_bit32(f32t, 3.0f32.to_bits());
    let u32t = b.type_int(32, 0);
    let u0 = b.constant_bit32(u32t, 0);
    let cidx1 = b.constant_bit32(i32t, 1);
    let cidx2 = b.constant_bit32(i32t, 2);
    let bool_ty = b.type_bool();
    let main = b.id();
    b.begin_function(void, Some(main), spirv::FunctionControl::NONE, fn_void).unwrap();
    b.begin_block(None).unwrap();
    let idx = b.load(i32t, None, vertex_index, None, []).unwrap();
    let is2 = b.i_equal(bool_ty, None, idx, cidx2).unwrap();
    let is1 = b.i_equal(bool_ty, None, idx, cidx1).unwrap();
    let x = b.select(f32t, None, is2, c3, cn1).unwrap();
    let y = b.select(f32t, None, is1, c3, cn1).unwrap();
    let pos = b.composite_construct(v4f32, None, [x, y, c0, c1]).unwrap();
    let ptr_out_v4_pos = b.type_pointer(None, spirv::StorageClass::Output, v4f32);
    let ptr_pos = b.access_chain(ptr_out_v4_pos, None, pv_var, [u0]).unwrap();
    b.store(ptr_pos, pos, None, []).unwrap();
    let half = b.constant_bit32(f32t, 0.5f32.to_bits());
    let ux = b.f_mul(f32t, None, x, half).unwrap();
    let ux = b.f_add(f32t, None, ux, half).unwrap();
    let uy = b.f_mul(f32t, None, y, half).unwrap();
    let uy = b.f_add(f32t, None, uy, half).unwrap();
    let uv = b.composite_construct(v2f32, None, [ux, uy]).unwrap();
    b.store(uv_out, uv, None, []).unwrap();
    b.ret().unwrap();
    b.end_function().unwrap();
    b.entry_point(spirv::ExecutionModel::Vertex, main, "main", [vertex_index, pv_var, uv_out]);
    assert_eq!(build_textured_vs(), b.module().assemble());
}

#[test]
fn the_fragment_shader_is_what_a_builder_builds() {
    let mut b = Builder::new();
    b.set_version(1, 3);
    b.capability(spirv::Capability::Shader);
    b.memory_model(spirv::AddressingModel::Logical, spirv::MemoryModel::GLSL450);
    let void = b.type_void();
    let f32t = b.type_float(32);
    let v2f32 = b.type_vector(f32t, 2);
    let v4f32 = b.type_vector(f32t, 4);
    let fn_void = b.type_function(void, []);
    let ptr_in_v2 = b.type_pointer(None, spirv::StorageClass::Input, v2f32);
    let uv_in = b.variable(ptr_in_v2, None, spirv::StorageClass::Input, None);
    b.decorate(uv_in, spirv::Decoration::Location, [Operand::LiteralBit32(0)]);
    let ptr_out_v4 = b.type_pointer(None, spirv::StorageClass::Output, v4f32);
    let color_out = b.variable(ptr_out_v4, None, spirv::StorageClass::Output, None);
    b.decorate(color_out, spirv::Decoration::Location, [Operand::LiteralBit32(0)]);
    let image_ty = b.type_image(
        f32t,
        spirv::Dim::Dim2D,
        0,
        0,
        0,
        1,
        spirv::ImageFormat::Unknown,
        None,
    );
    let sampled_ty = b.type_sampled_image(image_ty);
    let ptr_uc = b.type_pointer(None, spirv::StorageClass::UniformConstant, sampled_ty);
    let tex = b.variable(ptr_uc, None, spirv::StorageClass::UniformConstant, None);
    b.decorate(tex, spirv::Decoration::DescriptorSet, [Operand::LiteralBit32(0)]);
    b.decorate(tex, spirv::Decoration::Binding, [Operand::LiteralBit32(0)]);
    let main = b.id();
    b.begin_function(void, Some(main), spirv::FunctionControl::NONE, fn_void).unwrap();
    b.begin_block(None).unwrap();
    let uv = b.load(v2f32, None, uv_in, None, []).unwrap();
    let si = b.load(sampled_ty, None, tex, None, []).unwrap();
    let texel = b.image_sample_implicit_lod(v4f32, None, si, uv, None, []).unwrap();
    b.store(color_out, texel, None, []).unwrap();
    b.ret().unwrap();
    b.end_function().unwrap();
    b.entry_point(spirv::ExecutionModel::Fragment, main, "main", [uv_in, color_out]);
    b.execution_mode(main, spirv::ExecutionMode::OriginUpperLeft, []);
    assert_eq!(build_textured_fs(), b.module().assemble());
}

#[test]
fn checksums_have_their_known_values() {
    assert_eq!(crc32(b"123456789"), 0xCBF4_3926);
    assert_eq!(crc32(b"IEND"), 0xAE42_6082);
    assert_eq!(adler32(b"Wikipedia"), 0x11E6_0398);
    assert_eq!(adler32(b""), 1);
}

#[test]
fn a_picture_is_a_png_file() {
    let png = encode_rgba_png(1, 1, &[10, 20, 30, 40]);
    assert_eq!(&png[..8], &[0x89, b'P', b'N', b'G', 13, 10, 26, 10]);
    assert_eq!(&png[8..16], &[0, 0, 0, 13, b'I', b'H', b'D', b'R']);
    assert_eq!(&png[16..29], &[0, 0, 0, 1, 0, 0, 0, 1, 8, 6, 0, 0, 0]);
    assert_eq!(png[29..33], crc32(&png[12..29]).to_be_bytes());
    let idat = &png[33..];
    assert_eq!(&idat[4..8], b"IDAT");
    assert_eq!(&idat[10..20], &[1, 5, 0, 0xFA, 0xFF, 0, 10, 20, 30, 40]);
    assert_eq!(idat[20..24], adler32(&[0, 10, 20, 30, 40]).to_be_bytes());
    assert_eq!(&png[png.len() - 8..png.len() - 4], b"IEND");
}

#[test]
fn frames_are_dumped_to_files_of_their_own() {
    let mut dir = DumpPng::new("out/".to_string(), false, true);
    assert_eq!(dir.next_file().unwrap(), "frame_0000.png");
    assert_eq!(dir.next_file().unwrap(), "frame_0001.png");
    dir.frame = u32::MAX;
    assert_eq!(dir.next_file().unwrap(), "frame_4294967295.png");
    assert_eq!(dir.next_file().unwrap(), "frame_0000.png");
    let mut file = DumpPng::new("shot.png".to_string(), false, true);
    assert!(file.next_file().is_none());
    assert!(DumpPng::new("shots".to_string(), false, false).is_dir);
    assert!(DumpPng::new("shots.d".to_string(), true, true).is_dir);
}

#[test]
fn the_profiler_is_switched_by_a_number() {
    assert!(!enabled(None));
    assert!(!enabled(Some("0")));
    assert!(!enabled(Some("on")));
    assert!(enabled(Some("1")));
}

#[test]
fn presents_that_follow_too_soon_are_counted() {
    let mut s = PresentStats::new();
    note_present(&mut s, 1_000_000_000);
    note_present(&mut s, 1_000_000_000 + VBLANK_NS + 1);
    note_present(&mut s, 1_000_000_000 + VBLANK_NS + 2);
    let snap = snapshot(&s);
    assert_eq!(snap.presents_within_vblank, 1);
    assert_eq!(snap.present_gap_ns, VBLANK_NS + 2);
    assert_eq!(take_present_gap_extremes(&mut s), (1, VBLANK_NS + 1));
}

#[test]
fn a_refresh_period_is_a_sixtieth_of_a_second() {
    let counted = |gap: u64| {
        let mut s = PresentStats::new();
        note_present(&mut s, 1_000_000_000);
        note_present(&mut s, 1_000_000_000 + gap);
        snapshot(&s).presents_within_vblank
    };
    assert_eq!(counted(16_000_000), 1);
    assert_eq!(counted(16_300_000), 1);
    assert_eq!(counted(16_666_666), 1);
    assert_eq!(counted(16_666_667), 0);
}

#[test]
fn commands_are_charged_by_kind() {
    let mut s = CmdStats::new();
    let upload = BackendCmd::UploadBuffer { id: 1, offset: 0, data: vec![0; 7] };
    s.charge(&upload, 50);
    s.charge(&upload, 25);
    let i = cmd_index(&upload);
    let snap = cmd_snapshot(&s);
    assert_eq!((snap.count[i], snap.ns[i], snap.upload_bytes), (2, 75, 14));
    assert!(!cmd_name(i).is_empty());
    let mut p = PoolStats::new();
    p.count_region(true);
    p.count_region(false);
    p.count_block(4096);
    let snap = pool_snapshot(&p);
    assert_eq!((snap.recycled, snap.fresh, snap.blocks, snap.alloc_bytes), (1, 1, 1, 4096));
    assert_eq!(submit_snapshot(&SubmitStats::new()).draws, 0);
}

#[test]
fn a_dump_is_planned_copied_and_encoded() {
    let mut dump = DumpPng::new("out/".to_string(), false, true);
    dump.frame = 7;
    let plan = dump_present_png(&mut dump, 5, 2, 1);
    assert_eq!(plan.name.as_deref(), Some("frame_0007.png"));
    assert_eq!((plan.bytes, plan.steps.len(), dump.frame), (8, 3, 8));
    assert_eq!(plan.steps, copy_present_to_host(5, 2, 1));
    let raw = [1u8, 2, 3, 4, 5, 6, 7, 8];
    assert_eq!(
        present_png(&raw, Format::B8G8R8A8Unorm, 2, 1),
        encode_rgba_png(2, 1, &[3, 2, 1, 4, 7, 6, 5, 8])
    );
    assert_eq!(
        present_png(&raw, Format::R8G8B8A8Unorm, 2, 1),
        encode_rgba_png(2, 1, &raw)
    );
}

#[test]
fn a_failed_dump_leaves_its_objects_alone() {
    for stage in [
        CopyStage::MakeBuffer,
        CopyStage::MakeCommandBuffer,
        CopyStage::Begin,
        CopyStage::End,
        CopyStage::MakeFence,
        CopyStage::Submit,
        CopyStage::Wait,
    ] {
        assert!(dump_cleanup(Some(stage)).is_empty());
    }
    let unmapped = dump_cleanup(Some(CopyStage::MapMemory));
    assert_eq!(unmapped, vec![CopyObject::Fence, CopyObject::CommandBuffer]);
    assert_eq!(dump_cleanup(None).len(), 4);
}
