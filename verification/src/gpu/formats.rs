//! Guest formats, samplers and blend words, and the Vulkan values they become.

use vstd::prelude::*;

use crate::gpu::commands::{
    BlendKey, ColorFormat, SamplerAddressMode, SamplerFilter, TextureFormat, VertexFormat,
};
use crate::gpu::vk::{
    Format, COLOR_COMPONENT_A, COLOR_COMPONENT_B, COLOR_COMPONENT_G, COLOR_COMPONENT_R,
};

verus! {

/// The scanout pixel format that a frame has where the guest named none.
pub const DEFAULT_SCANOUT_FORMAT: u32 = 0x8000_0000;

/// Whether a guest scanout format stores its channels in BGRA byte order, so that the
/// presenting shader has to swap red and blue.
pub fn scanout_swap_rb(pixel_format: u32) -> (swap: bool)
    ensures
        swap == (pixel_format == 0x8000_0000),
{
    pixel_format == 0x8000_0000
}

/// Whether a swapchain format encodes linear values to sRGB when it is stored to.
pub fn format_is_srgb(format: Format) -> (srgb: bool)
    ensures
        srgb == (format == Format::R8G8B8A8Srgb || format == Format::B8G8R8A8Srgb),
{
    match format {
        Format::R8G8B8A8Srgb | Format::B8G8R8A8Srgb => true,
        _ => false,
    }
}

/// The host format of a vertex attribute.  An unsupported one maps to no format.
pub open spec fn vertex_format(format: VertexFormat) -> Format {
    match format {
        VertexFormat::R32Sfloat => Format::R32Sfloat,
        VertexFormat::R32G32Sfloat => Format::R32G32Sfloat,
        VertexFormat::R32G32B32Sfloat => Format::R32G32B32Sfloat,
        VertexFormat::R32G32B32A32Sfloat => Format::R32G32B32A32Sfloat,
        VertexFormat::R32Uint => Format::R32Uint,
        VertexFormat::R32G32B32A32Uint => Format::R32G32B32A32Uint,
        VertexFormat::R32Sint => Format::R32Sint,
        VertexFormat::R32G32B32A32Sint => Format::R32G32B32A32Sint,
        VertexFormat::R8G8B8A8Unorm => Format::R8G8B8A8Unorm,
        VertexFormat::R16G16Unorm => Format::R16G16Unorm,
        VertexFormat::Unsupported => Format::Undefined,
    }
}

pub fn vk_vertex_format(format: VertexFormat) -> (r: Format)
    ensures
        r == vertex_format(format),
{
    match format {
        VertexFormat::R32Sfloat => Format::R32Sfloat,
        VertexFormat::R32G32Sfloat => Format::R32G32Sfloat,
        VertexFormat::R32G32B32Sfloat => Format::R32G32B32Sfloat,
        VertexFormat::R32G32B32A32Sfloat => Format::R32G32B32A32Sfloat,
        VertexFormat::R32Uint => Format::R32Uint,
        VertexFormat::R32G32B32A32Uint => Format::R32G32B32A32Uint,
        VertexFormat::R32Sint => Format::R32Sint,
        VertexFormat::R32G32B32A32Sint => Format::R32G32B32A32Sint,
        VertexFormat::R8G8B8A8Unorm => Format::R8G8B8A8Unorm,
        VertexFormat::R16G16Unorm => Format::R16G16Unorm,
        VertexFormat::Unsupported => Format::Undefined,
    }
}

/// The host format of a sampled texture.
pub open spec fn texture_format(format: TextureFormat) -> Format {
    match format {
        TextureFormat::R8G8B8A8Unorm => Format::R8G8B8A8Unorm,
        TextureFormat::R8G8B8A8Srgb => Format::R8G8B8A8Srgb,
    }
}

pub fn vk_texture_format(format: TextureFormat) -> (r: Format)
    ensures
        r == texture_format(format),
{
    match format {
        TextureFormat::R8G8B8A8Unorm => Format::R8G8B8A8Unorm,
        TextureFormat::R8G8B8A8Srgb => Format::R8G8B8A8Srgb,
    }
}

/// The host format of an offscreen render target.  An unsupported one maps to no format.
pub open spec fn color_format(format: ColorFormat) -> Format {
    match format {
        ColorFormat::B8G8R8A8Unorm => Format::B8G8R8A8Unorm,
        ColorFormat::R8G8B8A8Unorm => Format::R8G8B8A8Unorm,
        ColorFormat::Unsupported => Format::Undefined,
    }
}

pub fn vk_color_format(format: ColorFormat) -> (r: Format)
    ensures
        r == color_format(format),
{
    match format {
        ColorFormat::B8G8R8A8Unorm => Format::B8G8R8A8Unorm,
        ColorFormat::R8G8B8A8Unorm => Format::R8G8B8A8Unorm,
        ColorFormat::Unsupported => Format::Undefined,
    }
}

/// The number of the matching `VkFilter`.
pub fn vk_filter(filter: SamplerFilter) -> (raw: i32)
    ensures
        raw == (match filter {
            SamplerFilter::Nearest => 0i32,
            SamplerFilter::Linear => 1,
        }),
{
    match filter {
        SamplerFilter::Nearest => 0,
        SamplerFilter::Linear => 1,
    }
}

/// The number of the matching `VkSamplerAddressMode`.
pub fn vk_address_mode(mode: SamplerAddressMode) -> (raw: i32)
    ensures
        raw == (match mode {
            SamplerAddressMode::Repeat => 0i32,
            SamplerAddressMode::MirrorRepeat => 1,
            SamplerAddressMode::ClampToEdge => 2,
        }),
{
    match mode {
        SamplerAddressMode::Repeat => 0,
        SamplerAddressMode::MirrorRepeat => 1,
        SamplerAddressMode::ClampToEdge => 2,
    }
}

/// A blend factor, by its Vulkan meaning.
#[derive(Clone, Copy, Debug, PartialEq, Eq, Structural)]
pub enum BlendFactor {
    Zero,
    One,
    SrcColor,
    OneMinusSrcColor,
    DstColor,
    OneMinusDstColor,
    SrcAlpha,
    OneMinusSrcAlpha,
    DstAlpha,
    OneMinusDstAlpha,
    SrcAlphaSaturate,
}

impl BlendFactor {
    /// The number of the matching `VkBlendFactor`.
    pub fn as_raw(self) -> (raw: i32)
        ensures
            raw == (match self {
                BlendFactor::Zero => 0i32,
                BlendFactor::One => 1,
                BlendFactor::SrcColor => 2,
                BlendFactor::OneMinusSrcColor => 3,
                BlendFactor::DstColor => 4,
                BlendFactor::OneMinusDstColor => 5,
                BlendFactor::SrcAlpha => 6,
                BlendFactor::OneMinusSrcAlpha => 7,
                BlendFactor::DstAlpha => 8,
                BlendFactor::OneMinusDstAlpha => 9,
                BlendFactor::SrcAlphaSaturate => 14,
            }),
    {
        match self {
            BlendFactor::Zero => 0,
            BlendFactor::One => 1,
            BlendFactor::SrcColor => 2,
            BlendFactor::OneMinusSrcColor => 3,
            BlendFactor::DstColor => 4,
            BlendFactor::OneMinusDstColor => 5,
            BlendFactor::SrcAlpha => 6,
            BlendFactor::OneMinusSrcAlpha => 7,
            BlendFactor::DstAlpha => 8,
            BlendFactor::OneMinusDstAlpha => 9,
            BlendFactor::SrcAlphaSaturate => 14,
        }
    }
}

/// A blend equation, by its Vulkan meaning.
#[derive(Clone, Copy, Debug, PartialEq, Eq, Structural)]
pub enum BlendOp {
    Add,
    Subtract,
    ReverseSubtract,
    Min,
    Max,
}

impl BlendOp {
    /// The number of the matching `VkBlendOp`.
    pub fn as_raw(self) -> (raw: i32)
        ensures
            raw == (match self {
                BlendOp::Add => 0i32,
                BlendOp::Subtract => 1,
                BlendOp::ReverseSubtract => 2,
                BlendOp::Min => 3,
                BlendOp::Max => 4,
            }),
    {
        match self {
            BlendOp::Add => 0,
            BlendOp::Subtract => 1,
            BlendOp::ReverseSubtract => 2,
            BlendOp::Min => 3,
            BlendOp::Max => 4,
        }
    }
}

/// The factor a guest blend field names.  A value beyond the table is taken as one.
pub open spec fn blend_factor(factor: u32) -> BlendFactor {
    match factor {
        0 => BlendFactor::Zero,
        1 => BlendFactor::One,
        2 => BlendFactor::SrcColor,
        3 => BlendFactor::OneMinusSrcColor,
        4 => BlendFactor::SrcAlpha,
        5 => BlendFactor::OneMinusSrcAlpha,
        6 => BlendFactor::DstAlpha,
        7 => BlendFactor::OneMinusDstAlpha,
        8 => BlendFactor::DstColor,
        9 => BlendFactor::OneMinusDstColor,
        10 => BlendFactor::SrcAlphaSaturate,
        _ => BlendFactor::One,
    }
}

pub fn vk_blend_factor(factor: u32) -> (r: BlendFactor)
    ensures
        r == blend_factor(factor),
{
    match factor {
        0 => BlendFactor::Zero,
        1 => BlendFactor::One,
        2 => BlendFactor::SrcColor,
        3 => BlendFactor::OneMinusSrcColor,
        4 => BlendFactor::SrcAlpha,
        5 => BlendFactor::OneMinusSrcAlpha,
        6 => BlendFactor::DstAlpha,
        7 => BlendFactor::OneMinusDstAlpha,
        8 => BlendFactor::DstColor,
        9 => BlendFactor::OneMinusDstColor,
        10 => BlendFactor::SrcAlphaSaturate,
        _ => BlendFactor::One,
    }
}

/// The equation a guest combine field names.  A value beyond the table is taken as add.
pub open spec fn blend_op(comb: u32) -> BlendOp {
    match comb {
        0 => BlendOp::Add,
        1 => BlendOp::Subtract,
        2 => BlendOp::Min,
        3 => BlendOp::Max,
        4 => BlendOp::ReverseSubtract,
        _ => BlendOp::Add,
    }
}

pub fn vk_blend_op(comb: u32) -> (r: BlendOp)
    ensures
        r == blend_op(comb),
{
    match comb {
        0 => BlendOp::Add,
        1 => BlendOp::Subtract,
        2 => BlendOp::Min,
        3 => BlendOp::Max,
        4 => BlendOp::ReverseSubtract,
        _ => BlendOp::Add,
    }
}

/// The fields of a blend-control word.
#[derive(Clone, Copy, Debug, PartialEq, Eq, Structural)]
pub struct BlendFields {
    pub color_src: u32,
    pub color_comb: u32,
    pub color_dst: u32,
    pub alpha_src: u32,
    pub alpha_comb: u32,
    pub alpha_dst: u32,
}

/// The word gives alpha its own factors and equation.
pub open spec fn separate_alpha(control: u32) -> bool {
    (control >> 29u32) & 0x1 == 1
}

/// The color fields, and the alpha fields where the word has them apart from color's;
/// where it does not, alpha does as color does.
pub open spec fn blend_fields(control: u32) -> BlendFields {
    let separate = separate_alpha(control);
    BlendFields {
        color_src: (control >> 0u32) & 0x1F,
        color_comb: (control >> 5u32) & 0x7,
        color_dst: (control >> 8u32) & 0x1F,
        alpha_src: if separate { (control >> 16u32) & 0x1F } else { (control >> 0u32) & 0x1F },
        alpha_comb: if separate { (control >> 21u32) & 0x7 } else { (control >> 5u32) & 0x7 },
        alpha_dst: if separate { (control >> 24u32) & 0x1F } else { (control >> 8u32) & 0x1F },
    }
}

impl BlendKey {
    pub fn fields(&self) -> (f: BlendFields)
        ensures
            f == blend_fields(self.control),
    {
        let c: u32 = self.control;
        let color_src: u32 = (c >> 0u32) & 0x1F;
        let color_comb: u32 = (c >> 5u32) & 0x7;
        let color_dst: u32 = (c >> 8u32) & 0x1F;
        if (c >> 29u32) & 0x1 == 1 {
            BlendFields {
                color_src,
                color_comb,
                color_dst,
                alpha_src: (c >> 16u32) & 0x1F,
                alpha_comb: (c >> 21u32) & 0x7,
                alpha_dst: (c >> 24u32) & 0x1F,
            }
        } else {
            BlendFields {
                color_src,
                color_comb,
                color_dst,
                alpha_src: color_src,
                alpha_comb: color_comb,
                alpha_dst: color_dst,
            }
        }
    }
}

/// The blend state a pipeline declares for its only color attachment.
#[derive(Clone, Copy, Debug, PartialEq, Eq, Structural)]
pub struct BlendAttachment {
    pub color_write_mask: u32,
    pub blend_enable: u32,
    pub src_color_blend_factor: BlendFactor,
    pub dst_color_blend_factor: BlendFactor,
    pub color_blend_op: BlendOp,
    pub src_alpha_blend_factor: BlendFactor,
    pub dst_alpha_blend_factor: BlendFactor,
    pub alpha_blend_op: BlendOp,
}

/// The attachment of a blend key: the guest's write mask always counts; its factors and
/// equations only where blending is on.
pub open spec fn blend_attachment(blend: BlendKey) -> BlendAttachment {
    let mask = blend.write_mask & 0xF;
    if blend.enable {
        let f = blend_fields(blend.control);
        BlendAttachment {
            color_write_mask: mask,
            blend_enable: 1,
            src_color_blend_factor: blend_factor(f.color_src),
            dst_color_blend_factor: blend_factor(f.color_dst),
            color_blend_op: blend_op(f.color_comb),
            src_alpha_blend_factor: blend_factor(f.alpha_src),
            dst_alpha_blend_factor: blend_factor(f.alpha_dst),
            alpha_blend_op: blend_op(f.alpha_comb),
        }
    } else {
        BlendAttachment {
            color_write_mask: mask,
            blend_enable: 0,
            src_color_blend_factor: BlendFactor::Zero,
            dst_color_blend_factor: BlendFactor::Zero,
            color_blend_op: BlendOp::Add,
            src_alpha_blend_factor: BlendFactor::Zero,
            dst_alpha_blend_factor: BlendFactor::Zero,
            alpha_blend_op: BlendOp::Add,
        }
    }
}

pub fn blend_attachment_state(blend: BlendKey) -> (state: BlendAttachment)
    ensures
        state == blend_attachment(blend),
{
    let mask: u32 = blend.write_mask;
    let mut color_write_mask: u32 = 0;
    if mask & COLOR_COMPONENT_R != 0 {
        color_write_mask = color_write_mask | COLOR_COMPONENT_R;
    }
    if mask & COLOR_COMPONENT_G != 0 {
        color_write_mask = color_write_mask | COLOR_COMPONENT_G;
    }
    if mask & COLOR_COMPONENT_B != 0 {
        color_write_mask = color_write_mask | COLOR_COMPONENT_B;
    }
    if mask & COLOR_COMPONENT_A != 0 {
        color_write_mask = color_write_mask | COLOR_COMPONENT_A;
    }
    assert(color_write_mask == mask & 0xF) by {
        assert(({
            let r = if mask & 1 != 0 { 0u32 | 1u32 } else { 0u32 };
            let g = if mask & 2 != 0 { r | 2u32 } else { r };
            let b = if mask & 4 != 0 { g | 4u32 } else { g };
            let a = if mask & 8 != 0 { b | 8u32 } else { b };
            a
        }) == mask & 0xF) by (bit_vector);
    }
    if !blend.enable {
        return BlendAttachment {
            color_write_mask,
            blend_enable: 0,
            src_color_blend_factor: BlendFactor::Zero,
            dst_color_blend_factor: BlendFactor::Zero,
            color_blend_op: BlendOp::Add,
            src_alpha_blend_factor: BlendFactor::Zero,
            dst_alpha_blend_factor: BlendFactor::Zero,
            alpha_blend_op: BlendOp::Add,
        };
    }
    let f = blend.fields();
    BlendAttachment {
        color_write_mask,
        blend_enable: 1,
        src_color_blend_factor: vk_blend_factor(f.color_src),
        dst_color_blend_factor: vk_blend_factor(f.color_dst),
        color_blend_op: vk_blend_op(f.color_comb),
        src_alpha_blend_factor: vk_blend_factor(f.alpha_src),
        dst_alpha_blend_factor: vk_blend_factor(f.alpha_dst),
        alpha_blend_op: vk_blend_op(f.alpha_comb),
    }
}

/// Without blending, the control word has no say.
pub proof fn law_disabled_blend_ignores_control(a: BlendKey, b: BlendKey)
    requires
        !a.enable,
        !b.enable,
        a.write_mask == b.write_mask,
    ensures
        blend_attachment(a) == blend_attachment(b),
{
}

/// Where the word does not set alpha apart, alpha blends as color does.
pub proof fn law_alpha_mirrors_color(blend: BlendKey)
    requires
        !separate_alpha(blend.control),
    ensures
        blend_attachment(blend).src_alpha_blend_factor == blend_attachment(
            blend,
        ).src_color_blend_factor,
        blend_attachment(blend).dst_alpha_blend_factor == blend_attachment(
            blend,
        ).dst_color_blend_factor,
        blend_attachment(blend).alpha_blend_op == blend_attachment(blend).color_blend_op,
{
}

/// Formats become Vulkan's, each its own: the numbers are those of `VkFormat`, and an
/// unsupported one is none.
pub proof fn law_formats_are_vulkans(v: VertexFormat, t: TextureFormat, c: ColorFormat)
    ensures
        vertex_format(v).raw() == (match v {
            VertexFormat::R8G8B8A8Unorm => 37i32,
            VertexFormat::R16G16Unorm => 77,
            VertexFormat::R32Uint => 98,
            VertexFormat::R32Sint => 99,
            VertexFormat::R32Sfloat => 100,
            VertexFormat::R32G32Sfloat => 103,
            VertexFormat::R32G32B32Sfloat => 106,
            VertexFormat::R32G32B32A32Uint => 107,
            VertexFormat::R32G32B32A32Sint => 108,
            VertexFormat::R32G32B32A32Sfloat => 109,
            VertexFormat::Unsupported => 0,
        }),
        texture_format(t).raw() == (if t is R8G8B8A8Srgb {
            43i32
        } else {
            37
        }),
        color_format(c).raw() == (if c is B8G8R8A8Unorm {
            44i32
        } else if c is R8G8B8A8Unorm {
            37
        } else {
            0
        }),
{
}

/// Different formats stay different.
pub proof fn law_formats_are_distinct(
    a: VertexFormat,
    b: VertexFormat,
    s: TextureFormat,
    t: TextureFormat,
    c: ColorFormat,
    d: ColorFormat,
)
    ensures
        vertex_format(a) == vertex_format(b) ==> a == b,
        texture_format(s) == texture_format(t) ==> s == t,
        color_format(c) == color_format(d) ==> c == d,
        vertex_format(a) is Undefined <==> a is Unsupported,
        color_format(c) is Undefined <==> c is Unsupported,
{
}

/// A factor and its complement are neighbours in the guest's numbers, and every number up to
/// ten is a factor of its own; a number beyond the table is one, and an equation beyond it adds.
pub proof fn law_blend_numbers(factor: u32, other: u32, comb: u32, other_comb: u32)
    ensures
        factor <= 10 && other <= 10 && blend_factor(factor) == blend_factor(other) ==> factor
            == other,
        factor == 0 <==> blend_factor(factor) is Zero,
        factor == 1 || factor > 10 <==> blend_factor(factor) is One,
        factor == 2 <==> blend_factor(factor) is SrcColor,
        factor == 4 <==> blend_factor(factor) is SrcAlpha,
        factor == 6 <==> blend_factor(factor) is DstAlpha,
        factor == 8 <==> blend_factor(factor) is DstColor,
        factor == 3 <==> blend_factor(factor) is OneMinusSrcColor,
        factor == 5 <==> blend_factor(factor) is OneMinusSrcAlpha,
        factor == 7 <==> blend_factor(factor) is OneMinusDstAlpha,
        factor == 9 <==> blend_factor(factor) is OneMinusDstColor,
        factor == 10 <==> blend_factor(factor) is SrcAlphaSaturate,
        comb <= 4 && other_comb <= 4 && blend_op(comb) == blend_op(other_comb) ==> comb
            == other_comb,
        comb == 0 || comb > 4 <==> blend_op(comb) is Add,
        comb == 1 <==> blend_op(comb) is Subtract,
        comb == 2 <==> blend_op(comb) is Min,
        comb == 3 <==> blend_op(comb) is Max,
        comb == 4 <==> blend_op(comb) is ReverseSubtract,
{
}

/// The fields of a control word lie at their places: five bits for a source at 0 and 16, three
/// for an equation at 5 and 21, five for a destination at 8 and 24.  Bit 29 sets alpha apart;
/// without it alpha has colour's.
pub proof fn law_blend_fields_lie_at_their_places(control: u32)
    ensures
        ({
            let f = blend_fields(control);
            let apart = control / 0x2000_0000 % 2 == 1;
            &&& f.color_src == control % 32
            &&& f.color_comb == control / 32 % 8
            &&& f.color_dst == control / 256 % 32
            &&& apart ==> f.alpha_src == control / 0x1_0000 % 32 && f.alpha_comb == control
                / 0x20_0000 % 8 && f.alpha_dst == control / 0x100_0000 % 32
            &&& !apart ==> f.alpha_src == f.color_src && f.alpha_comb == f.color_comb
                && f.alpha_dst == f.color_dst
        }),
{
    assert((control >> 0u32) & 0x1F == control % 32 && (control >> 5u32) & 0x7 == control / 32 % 8
        && (control >> 8u32) & 0x1F == control / 256 % 32 && (control >> 16u32) & 0x1F == control
        / 0x1_0000 % 32 && (control >> 21u32) & 0x7 == control / 0x20_0000 % 8 && (control >> 24u32)
        & 0x1F == control / 0x100_0000 % 32 && (control >> 29u32) & 0x1 == control / 0x2000_0000
        % 2) by (bit_vector);
}

/// A draw may write exactly the channels that its mask allows.  Where blending is on, source and
/// destination are weighted, and combined, as the word says for colour and for alpha; where it
/// is off nothing is.
pub proof fn law_blend_attachment(blend: BlendKey)
    ensures
        ({
            let a = blend_attachment(blend);
            let f = blend_fields(blend.control);
            &&& a.color_write_mask < 16
            &&& a.color_write_mask & 1 == blend.write_mask & 1
            &&& a.color_write_mask & 2 == blend.write_mask & 2
            &&& a.color_write_mask & 4 == blend.write_mask & 4
            &&& a.color_write_mask & 8 == blend.write_mask & 8
            &&& a.blend_enable == (if blend.enable {
                1u32
            } else {
                0u32
            })
            &&& blend.enable ==> {
                &&& a.src_color_blend_factor == blend_factor(f.color_src)
                &&& a.dst_color_blend_factor == blend_factor(f.color_dst)
                &&& a.color_blend_op == blend_op(f.color_comb)
                &&& a.src_alpha_blend_factor == blend_factor(f.alpha_src)
                &&& a.dst_alpha_blend_factor == blend_factor(f.alpha_dst)
                &&& a.alpha_blend_op == blend_op(f.alpha_comb)
            }
        }),
{
    let m = blend.write_mask;
    assert(m & 0xF < 16 && (m & 0xF) & 1 == m & 1 && (m & 0xF) & 2 == m & 2 && (m & 0xF) & 4 == m & 4
        && (m & 0xF) & 8 == m & 8) by (bit_vector);
}

} // verus!
