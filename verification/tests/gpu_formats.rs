use ash::vk;
use unemups4::gpu::commands::{
    BlendKey, ColorFormat, SamplerAddressMode, SamplerFilter, TextureFormat, VertexFormat,
};
use unemups4::gpu::formats::{
    blend_attachment_state, format_is_srgb, scanout_swap_rb, vk_address_mode, vk_blend_factor,
    vk_blend_op, vk_color_format, vk_filter, vk_texture_format, vk_vertex_format, BlendFactor,
    BlendOp,
};
use unemups4::gpu::pixels::{swapchain_to_rgba8, unpack_a2_10_10_10};
use unemups4::gpu::vk as plain;
use unemups4::gpu::vk::{Format, ImageLayout};

fn raw(format: Format) -> vk::Format {
    vk::Format::from_raw(format.as_raw())
}

fn plain_format(format: vk::Format) -> Format {
    Format::from_raw(format.as_raw())
}

fn factor(f: BlendFactor) -> vk::BlendFactor {
    vk::BlendFactor::from_raw(f.as_raw())
}

fn op(o: BlendOp) -> vk::BlendOp {
    vk::BlendOp::from_raw(o.as_raw())
}

fn mask(m: u32) -> vk::ColorComponentFlags {
    vk::ColorComponentFlags::from_raw(m)
}

#[test]
fn scanout_swap_rb_decodes_channel_order() {
    const A8R8G8B8_SRGB: u32 = 0x8000_0000;
    const A8B8G8R8_SRGB: u32 = 0x8000_2200;
    assert!(scanout_swap_rb(A8R8G8B8_SRGB));
    assert!(!scanout_swap_rb(A8B8G8R8_SRGB));
}

#[test]
fn format_is_srgb_gates_present_decode() {
    assert!(format_is_srgb(plain_format(vk::Format::R8G8B8A8_SRGB)));
    assert!(format_is_srgb(plain_format(vk::Format::B8G8R8A8_SRGB)));
    assert!(!format_is_srgb(plain_format(vk::Format::R8G8B8A8_UNORM)));
    assert!(!format_is_srgb(plain_format(vk::Format::A2R10G10B10_UNORM_PACK32)));
}

#[test]
fn vertex_format_maps_to_expected_vk_format() {
    assert_eq!(raw(vk_vertex_format(VertexFormat::R32Sfloat)), vk::Format::R32_SFLOAT);
    assert_eq!(raw(vk_vertex_format(VertexFormat::R32G32Sfloat)), vk::Format::R32G32_SFLOAT);
    assert_eq!(raw(vk_vertex_format(VertexFormat::R32G32B32Sfloat)), vk::Format::R32G32B32_SFLOAT);
    assert_eq!(
        raw(vk_vertex_format(VertexFormat::R32G32B32A32Sfloat)),
        vk::Format::R32G32B32A32_SFLOAT
    );
    assert_eq!(raw(vk_vertex_format(VertexFormat::R32Uint)), vk::Format::R32_UINT);
    assert_eq!(
        raw(vk_vertex_format(VertexFormat::R32G32B32A32Uint)),
        vk::Format::R32G32B32A32_UINT
    );
    assert_eq!(raw(vk_vertex_format(VertexFormat::R32Sint)), vk::Format::R32_SINT);
    assert_eq!(
        raw(vk_vertex_format(VertexFormat::R32G32B32A32Sint)),
        vk::Format::R32G32B32A32_SINT
    );
    assert_eq!(raw(vk_vertex_format(VertexFormat::R8G8B8A8Unorm)), vk::Format::R8G8B8A8_UNORM);
    assert_eq!(raw(vk_vertex_format(VertexFormat::R16G16Unorm)), vk::Format::R16G16_UNORM);
    assert_eq!(raw(vk_vertex_format(VertexFormat::Unsupported)), vk::Format::UNDEFINED);
}

#[test]
fn texture_format_maps_to_rgba8_unorm() {
    assert_eq!(raw(vk_texture_format(TextureFormat::R8G8B8A8Unorm)), vk::Format::R8G8B8A8_UNORM);
}

#[test]
fn blend_key_translates_to_vk_attachment_state() {
    let premult = blend_attachment_state(BlendKey {
        enable: true,
        control: 0x4501_0501,
        write_mask: 0xF,
    });
    assert_eq!(premult.blend_enable, 1);
    assert_eq!(factor(premult.src_color_blend_factor), vk::BlendFactor::ONE);
    assert_eq!(factor(premult.dst_color_blend_factor), vk::BlendFactor::ONE_MINUS_SRC_ALPHA);
    assert_eq!(op(premult.color_blend_op), vk::BlendOp::ADD);
    assert_eq!(factor(premult.src_alpha_blend_factor), vk::BlendFactor::ONE);
    assert_eq!(factor(premult.dst_alpha_blend_factor), vk::BlendFactor::ONE_MINUS_SRC_ALPHA);
    assert_eq!(op(premult.alpha_blend_op), vk::BlendOp::ADD);
    assert_eq!(mask(premult.color_write_mask), vk::ColorComponentFlags::RGBA);

    let additive = blend_attachment_state(BlendKey {
        enable: true,
        control: 0x4104_0104,
        write_mask: 0xF,
    });
    assert_eq!(additive.blend_enable, 1);
    assert_eq!(factor(additive.src_color_blend_factor), vk::BlendFactor::SRC_ALPHA);
    assert_eq!(factor(additive.dst_color_blend_factor), vk::BlendFactor::ONE);
    assert_eq!(op(additive.color_blend_op), vk::BlendOp::ADD);
    assert_eq!(factor(additive.src_alpha_blend_factor), vk::BlendFactor::SRC_ALPHA);
    assert_eq!(factor(additive.dst_alpha_blend_factor), vk::BlendFactor::ONE);

    let sep = blend_attachment_state(BlendKey {
        enable: true,
        control: 0x6868_0001,
        write_mask: 0xF,
    });
    assert_eq!(factor(sep.src_color_blend_factor), vk::BlendFactor::ONE);
    assert_eq!(factor(sep.src_alpha_blend_factor), vk::BlendFactor::DST_COLOR);
    assert_eq!(factor(sep.dst_alpha_blend_factor), vk::BlendFactor::DST_COLOR);
    assert_eq!(op(sep.alpha_blend_op), vk::BlendOp::MAX);

    let disabled = blend_attachment_state(BlendKey {
        enable: false,
        control: 0x4501_0501,
        write_mask: 0xF,
    });
    assert_eq!(disabled.blend_enable, 0);
    assert_eq!(mask(disabled.color_write_mask), vk::ColorComponentFlags::RGBA);
    assert_eq!(factor(disabled.src_color_blend_factor), vk::BlendFactor::ZERO);
}

#[test]
fn target_mask_gates_written_colour_channels() {
    let rgb_only = blend_attachment_state(BlendKey {
        enable: true,
        control: 0x4501_0501,
        write_mask: 0x7,
    });
    assert_eq!(
        mask(rgb_only.color_write_mask),
        vk::ColorComponentFlags::R | vk::ColorComponentFlags::G | vk::ColorComponentFlags::B
    );
    let alpha_only = blend_attachment_state(BlendKey {
        enable: false,
        control: 0,
        write_mask: 0x8,
    });
    assert_eq!(alpha_only.blend_enable, 0);
    assert_eq!(mask(alpha_only.color_write_mask), vk::ColorComponentFlags::A);
    let none = blend_attachment_state(BlendKey {
        enable: true,
        control: 0x4501_0501,
        write_mask: 0x0,
    });
    assert_eq!(mask(none.color_write_mask), vk::ColorComponentFlags::empty());
}

#[test]
fn sampler_filter_and_address_map_to_expected_vk() {
    let filter = |f| vk::Filter::from_raw(vk_filter(f));
    let address = |m| vk::SamplerAddressMode::from_raw(vk_address_mode(m));
    assert_eq!(filter(SamplerFilter::Nearest), vk::Filter::NEAREST);
    assert_eq!(filter(SamplerFilter::Linear), vk::Filter::LINEAR);
    assert_eq!(address(SamplerAddressMode::Repeat), vk::SamplerAddressMode::REPEAT);
    assert_eq!(address(SamplerAddressMode::ClampToEdge), vk::SamplerAddressMode::CLAMP_TO_EDGE);
}

#[test]
fn mirrored_addressing_has_its_own_mode() {
    assert_eq!(
        vk::SamplerAddressMode::from_raw(vk_address_mode(SamplerAddressMode::MirrorRepeat)),
        vk::SamplerAddressMode::MIRRORED_REPEAT
    );
}

#[test]
fn unpack_a2b10g10r10_orders_channels_rgba() {
    let red = 0x3FFu32 | (0x3 << 30);
    let blue = (0x3FFu32 << 20) | (0x3 << 30);
    let mut raw = Vec::new();
    raw.extend_from_slice(&red.to_le_bytes());
    raw.extend_from_slice(&blue.to_le_bytes());

    let rgba = unpack_a2_10_10_10(&raw, false);
    assert_eq!(&rgba[0..4], &[255, 0, 0, 255], "red pixel");
    assert_eq!(&rgba[4..8], &[0, 0, 255, 255], "blue pixel");

    let swapped = unpack_a2_10_10_10(&raw, true);
    assert_eq!(&swapped[0..4], &[0, 0, 255, 255], "low field is B here");
    assert_eq!(&swapped[4..8], &[255, 0, 0, 255], "high field is R here");
}

#[test]
fn swapchain_bytes_become_rgba() {
    let bgra = [1u8, 2, 3, 4, 5, 6, 7, 8];
    assert_eq!(
        swapchain_to_rgba8(&bgra, plain_format(vk::Format::B8G8R8A8_UNORM)),
        vec![3, 2, 1, 4, 7, 6, 5, 8]
    );
    assert_eq!(
        swapchain_to_rgba8(&bgra, plain_format(vk::Format::R8G8B8A8_UNORM)),
        bgra.to_vec()
    );
    let packed = 0x3FFu32.to_le_bytes();
    assert_eq!(
        swapchain_to_rgba8(&packed, plain_format(vk::Format::A2B10G10R10_UNORM_PACK32)),
        vec![255, 0, 0, 0]
    );
    assert_eq!(
        swapchain_to_rgba8(&packed, plain_format(vk::Format::A2R10G10B10_UNORM_PACK32)),
        vec![0, 0, 255, 0]
    );
}

#[test]
fn colour_formats_map_to_host_formats() {
    assert_eq!(raw(vk_color_format(ColorFormat::B8G8R8A8Unorm)), vk::Format::B8G8R8A8_UNORM);
    assert_eq!(raw(vk_color_format(ColorFormat::R8G8B8A8Unorm)), vk::Format::R8G8B8A8_UNORM);
    assert_eq!(raw(vk_texture_format(TextureFormat::R8G8B8A8Srgb)), vk::Format::R8G8B8A8_SRGB);
}

#[test]
fn formats_keep_their_numbers() {
    for n in [0, 37, 43, 44, 50, 58, 64, 77, 98, 99, 100, 103, 106, 107, 108, 109, 12345] {
        assert_eq!(Format::from_raw(n).as_raw(), n);
    }
}

#[test]
fn plain_values_are_those_of_the_device_interface() {
    for (layout, want) in [
        (ImageLayout::Undefined, vk::ImageLayout::UNDEFINED),
        (ImageLayout::ColorAttachment, vk::ImageLayout::COLOR_ATTACHMENT_OPTIMAL),
        (ImageLayout::ShaderReadOnly, vk::ImageLayout::SHADER_READ_ONLY_OPTIMAL),
        (ImageLayout::TransferSrc, vk::ImageLayout::TRANSFER_SRC_OPTIMAL),
        (ImageLayout::TransferDst, vk::ImageLayout::TRANSFER_DST_OPTIMAL),
        (ImageLayout::PresentSrc, vk::ImageLayout::PRESENT_SRC_KHR),
    ] {
        assert_eq!(layout.as_raw(), want.as_raw());
    }
    assert_eq!(plain::ACCESS_SHADER_READ, vk::AccessFlags::SHADER_READ.as_raw());
    assert_eq!(plain::ACCESS_TRANSFER_READ, vk::AccessFlags::TRANSFER_READ.as_raw());
    assert_eq!(plain::ACCESS_TRANSFER_WRITE, vk::AccessFlags::TRANSFER_WRITE.as_raw());
    assert_eq!(plain::ACCESS_MEMORY_READ, vk::AccessFlags::MEMORY_READ.as_raw());
    assert_eq!(
        plain::ACCESS_COLOR_ATTACHMENT_READ_WRITE,
        (vk::AccessFlags::COLOR_ATTACHMENT_READ | vk::AccessFlags::COLOR_ATTACHMENT_WRITE).as_raw()
    );
    assert_eq!(
        plain::ACCESS_MEMORY_READ_WRITE,
        (vk::AccessFlags::MEMORY_READ | vk::AccessFlags::MEMORY_WRITE).as_raw()
    );
    assert_eq!(plain::STAGE_TOP_OF_PIPE, vk::PipelineStageFlags::TOP_OF_PIPE.as_raw());
    assert_eq!(plain::STAGE_FRAGMENT_SHADER, vk::PipelineStageFlags::FRAGMENT_SHADER.as_raw());
    assert_eq!(
        plain::STAGE_COLOR_ATTACHMENT_OUTPUT,
        vk::PipelineStageFlags::COLOR_ATTACHMENT_OUTPUT.as_raw()
    );
    assert_eq!(plain::STAGE_TRANSFER, vk::PipelineStageFlags::TRANSFER.as_raw());
    assert_eq!(plain::STAGE_BOTTOM_OF_PIPE, vk::PipelineStageFlags::BOTTOM_OF_PIPE.as_raw());
    assert_eq!(plain::STAGE_ALL_COMMANDS, vk::PipelineStageFlags::ALL_COMMANDS.as_raw());
    assert_eq!(plain::SHADER_STAGE_VERTEX, vk::ShaderStageFlags::VERTEX.as_raw());
    assert_eq!(plain::SHADER_STAGE_FRAGMENT, vk::ShaderStageFlags::FRAGMENT.as_raw());
}

#[test]
fn blend_codes_map_in_order() {
    assert_eq!(factor(vk_blend_factor(0)), vk::BlendFactor::ZERO);
    assert_eq!(factor(vk_blend_factor(1)), vk::BlendFactor::ONE);
    assert_eq!(factor(vk_blend_factor(4)), vk::BlendFactor::SRC_ALPHA);
    assert_eq!(factor(vk_blend_factor(5)), vk::BlendFactor::ONE_MINUS_SRC_ALPHA);
    assert_eq!(op(vk_blend_op(0)), vk::BlendOp::ADD);
    assert_eq!(op(vk_blend_op(3)), vk::BlendOp::MAX);
}
