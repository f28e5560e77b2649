use unemups4::gpu::commands::{BackendCmd, BlendKey, PrimitiveTopology};
use unemups4::gpu::harness::{words_to_bytes, PushConstantField, PushConstantRole, ShaderStage};
use unemups4::gpu::offscreen::{
    enumerate_corpus, graphics_family, handfed_list, judge, pick_device, readback,
    render_checkerboard, render_ps, render_vs, set_interpolant, texels, Clear, CorpusFile,
    OffscreenStep, Outcome, PsError, Verdict, SPIRV_MAGIC, VS_DIM,
};

fn field(role: PushConstantRole, offset_bytes: u32) -> PushConstantField {
    PushConstantField { role, offset_bytes, size_bytes: 4 }
}

#[test]
fn a_vertex_shader_draws_every_vertex() {
    let positions = vec![[1, 2, 3, 4], [5, 6, 7, 8], [9, 10, 11, 12]];
    let fields = vec![field(PushConstantRole::NumRecords, 0), field(PushConstantRole::Stride, 4)];
    let plan = render_vs(&fields, &positions, VS_DIM, 0xFAC);
    assert_eq!(plan.readback_bytes, 64 * 64 * 16);
    assert_eq!(plan.push, words_to_bytes(&[9, 16]));
    assert_eq!(plan.vertices.len(), 9 * 16);
    assert_eq!(plan.vertices[3 * 16], 5);
    assert_eq!(plan.draws.len(), 3);
    assert_eq!(
        plan.draws[1],
        vec![
            OffscreenStep::Begin { width: 64, height: 64, clear: Clear::NoNumbers },
            OffscreenStep::SetViewport { width: 64, height: 64 },
            OffscreenStep::SetScissor { width: 64, height: 64 },
            OffscreenStep::BindPipeline,
            OffscreenStep::BindSet,
            OffscreenStep::PushConstants,
            OffscreenStep::Draw { vertex_count: 3, first_vertex: 3 },
            OffscreenStep::End,
        ]
    );
    let bare = render_vs(&Vec::new(), &positions, 1, 0);
    assert!(bare.push.is_empty());
    assert_eq!(bare.draws[2].len(), 7);
}

#[test]
fn a_fragment_shader_draws_one_texel() {
    let mut values = Vec::new();
    set_interpolant(&mut values, 2, [20, 21, 22, 23]);
    set_interpolant(&mut values, 0, [1, 1, 1, 1]);
    set_interpolant(&mut values, 2, [30, 31, 32, 33]);
    set_interpolant(&mut values, 1, [7, 7, 7, 7]);
    let plan = render_ps(&values, &vec![5], true).unwrap();
    assert_eq!(plan.locations, vec![0, 1, 2]);
    assert_eq!(plan.push, words_to_bytes(&[1, 1, 1, 1, 7, 7, 7, 7, 30, 31, 32, 33]));
    assert_eq!(plan.binding, Some(5));
    assert_eq!(plan.readback_bytes, 16);
    assert_eq!(plan.draw.len(), 8);
    assert_eq!(plan.draw[4], OffscreenStep::BindSet);
    let bare = render_ps(&Vec::new(), &Vec::new(), true).unwrap();
    assert_eq!(bare.binding, None);
    assert_eq!(
        bare.draw[3..].to_vec(),
        vec![
            OffscreenStep::BindPipeline,
            OffscreenStep::Draw { vertex_count: 3, first_vertex: 0 },
            OffscreenStep::End,
        ]
    );
    assert!(matches!(render_ps(&values, &vec![1, 2], true), Err(PsError::TooManySamplers(2))));
    assert!(matches!(render_ps(&values, &vec![1], false), Err(PsError::NoTexture)));
}

#[test]
fn the_chessboard_is_drawn_with_its_texture() {
    let draw = render_checkerboard();
    assert_eq!(
        draw[0],
        OffscreenStep::Begin { width: 256, height: 256, clear: Clear::Opaque }
    );
    assert_eq!(draw[4], OffscreenStep::BindSet);
    assert_eq!(draw[5], OffscreenStep::Draw { vertex_count: 3, first_vertex: 0 });
    assert_eq!(draw[6], OffscreenStep::End);
    assert_eq!(readback(256, 256), vec![OffscreenStep::CopyOut { width: 256, height: 256 }]);
}

#[test]
fn texels_are_read_from_their_bytes() {
    let bytes = words_to_bytes(&[1, 2, 3, 4, 0x3F80_0000, 6, 7, 8]);
    assert_eq!(texels(&bytes, 2), vec![[1, 2, 3, 4], [0x3F80_0000, 6, 7, 8]]);
    assert_eq!(texels(&bytes, 1), vec![[1, 2, 3, 4]]);
}

#[test]
fn the_first_device_that_can_draw_is_taken() {
    assert_eq!(graphics_family(&vec![2, 4, 7, 1]), Some(2));
    assert_eq!(graphics_family(&vec![2, 4]), None);
    assert_eq!(pick_device(&vec![vec![2], vec![4, 1], vec![1]]), Some((1, 1)));
    assert_eq!(pick_device(&vec![vec![2], Vec::new()]), None);
}

fn file(name: &str, is_source: bool, has_code: bool) -> CorpusFile {
    CorpusFile { name: name.to_string(), is_source, has_code }
}

#[test]
fn the_corpus_is_run_in_the_order_of_names() {
    let files = vec![
        file("passthrough_vs", true, true),
        file("unassembled_vs", true, false),
        file("flat_color_ps", true, true),
        file("flat_color_ps", false, true),
        file("interp_color_ps", true, true),
    ];
    let shaders = enumerate_corpus(&files).unwrap();
    let names: Vec<&str> = shaders.iter().map(|s| s.name.as_str()).collect();
    assert_eq!(names, vec!["flat_color_ps", "interp_color_ps", "passthrough_vs"]);
    assert_eq!(shaders[0].stage, ShaderStage::Fragment);
    assert_eq!(shaders[2].stage, ShaderStage::Vertex);
    let odd = vec![file("passthrough_vs", true, true), file("compute", true, true)];
    assert_eq!(enumerate_corpus(&odd).unwrap_err(), "compute");
}

#[test]
fn a_run_is_judged_by_its_worst_shader() {
    assert_eq!(judge(&Vec::new()), Verdict::NothingRan);
    assert_eq!(judge(&vec![Outcome::Skipped, Outcome::Deferred]), Verdict::NothingRan);
    assert_eq!(judge(&vec![Outcome::Uncompiled]), Verdict::NothingRan);
    assert_eq!(judge(&vec![Outcome::Skipped, Outcome::Agreed, Outcome::Deferred]), Verdict::Agreement);
    assert_eq!(judge(&vec![Outcome::Agreed, Outcome::Uncompiled]), Verdict::Divergence);
    assert_eq!(judge(&vec![Outcome::Agreed, Outcome::Failed]), Verdict::Divergence);
    assert_eq!(judge(&vec![Outcome::Diverged, Outcome::Agreed]), Verdict::Divergence);
}

#[test]
fn the_smallest_list_makes_binds_and_draws() {
    let blend = BlendKey { enable: false, control: 0, write_mask: 0xF };
    let list = handfed_list(
        vec![SPIRV_MAGIC, 1],
        vec![SPIRV_MAGIC, 2, 3],
        blend,
        PrimitiveTopology::TriangleList,
    );
    assert_eq!(list.len(), 3);
    match &list[0] {
        BackendCmd::CreatePipeline { id, vs_spirv, ps_spirv, desc } => {
            assert_eq!(*id, 1);
            assert_eq!(vs_spirv.len(), 2);
            assert_eq!(ps_spirv.len(), 3);
            assert!(desc.vertex_layout.is_none());
            assert_eq!(desc.blend, blend);
        }
        other => panic!("{other:?}"),
    }
    assert!(matches!(list[1], BackendCmd::BindPipeline { id: 1 }));
    assert!(matches!(list[2], BackendCmd::DrawAuto { vertex_count: 3 }));
}
