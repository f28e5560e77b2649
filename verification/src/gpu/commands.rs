//! The command stream a submit hands to the display backend.
//!
//! Resource and pipeline ids are minted by the guest-side caches; a command names
//! what it wants by id and the backend resolves the id when it meets the command.

use vstd::prelude::*;

verus! {

/// A viewport rectangle, each field the bit pattern of an IEEE single.  A negative
/// height is the portable vertical flip and is passed through.
#[derive(Clone, Copy, Debug, PartialEq, Eq, Structural)]
pub struct ViewportRect {
    pub x: u32,
    pub y: u32,
    pub width: u32,
    pub height: u32,
}

#[derive(Clone, Copy, Debug, PartialEq, Eq, Structural)]
pub struct ScissorRect {
    pub x: i32,
    pub y: i32,
    pub width: u32,
    pub height: u32,
}

#[derive(Clone, Copy, Debug, PartialEq, Eq, Structural)]
pub enum IndexType {
    U16,
    U32,
}

#[derive(Clone, Copy, Debug, PartialEq, Eq, Structural)]
pub enum PrimitiveTopology {
    TriangleList,
    TriangleStrip,
}

#[derive(Clone, Copy, Debug, PartialEq, Eq, Structural)]
pub enum TextureFormat {
    R8G8B8A8Unorm,
    R8G8B8A8Srgb,
}

#[derive(Clone, Copy, Debug, PartialEq, Eq, Structural)]
pub enum ColorFormat {
    B8G8R8A8Unorm,
    R8G8B8A8Unorm,
    Unsupported,
}

#[derive(Clone, Copy, Debug, PartialEq, Eq, Structural)]
pub enum VertexFormat {
    R32Sfloat,
    R32G32Sfloat,
    R32G32B32Sfloat,
    R32G32B32A32Sfloat,
    R32Uint,
    R32G32B32A32Uint,
    R32Sint,
    R32G32B32A32Sint,
    R8G8B8A8Unorm,
    R16G16Unorm,
    Unsupported,
}

#[derive(Clone, Copy, Debug, PartialEq, Eq, Structural)]
pub enum SamplerFilter {
    Nearest,
    Linear,
}

#[derive(Clone, Copy, Debug, PartialEq, Eq, Structural)]
pub enum SamplerAddressMode {
    Repeat,
    MirrorRepeat,
    ClampToEdge,
}

#[derive(Clone, Copy, Debug, PartialEq, Eq, Structural)]
pub struct SamplerDesc {
    pub mag_filter: SamplerFilter,
    pub min_filter: SamplerFilter,
    pub address_mode_u: SamplerAddressMode,
    pub address_mode_v: SamplerAddressMode,
}

/// How a guest surface lays its texels out.
#[derive(Clone, Copy, Debug, PartialEq, Eq, Structural)]
pub enum Tiling {
    Linear,
    Tiled { tile_mode_index: u32 },
}

/// A storage-buffer slot a shader declares.
#[derive(Clone, Copy, Debug, PartialEq, Eq, Structural)]
pub struct StorageBinding {
    pub set: u32,
    pub binding: u32,
}

/// A combined image-sampler slot a pixel shader declares.
#[derive(Clone, Copy, Debug, PartialEq, Eq, Structural)]
pub struct TextureBinding {
    pub set: u32,
    pub binding: u32,
}

#[derive(Clone, Copy, Debug, PartialEq, Eq, Structural)]
pub struct PushConstantRange {
    pub offset: u32,
    pub size: u32,
}

/// One vertex buffer a vertex layout reads from.
#[derive(Clone, Copy, Debug, PartialEq, Eq, Structural)]
pub struct VertexBufferLayout {
    pub binding: u32,
    pub stride: u32,
}

/// One attribute a vertex layout reads.
#[derive(Clone, Copy, Debug, PartialEq, Eq, Structural)]
pub struct VertexAttribute {
    pub location: u32,
    pub binding: u32,
    pub format: VertexFormat,
    pub offset: u32,
}

#[derive(Debug)]
pub struct VertexLayout {
    pub bindings: Vec<VertexBufferLayout>,
    pub attributes: Vec<VertexAttribute>,
}

/// The blend state of the only color target: whether blending is on, the guest's raw
/// blend-control word, and which channels a draw may write.
#[derive(Clone, Copy, Debug, PartialEq, Eq, Structural)]
pub struct BlendKey {
    pub enable: bool,
    pub control: u32,
    pub write_mask: u32,
}

/// What a pipeline is built from besides its two shaders.
#[derive(Debug)]
pub struct PipelineDesc {
    pub vertex_layout: Option<VertexLayout>,
    pub blend: BlendKey,
    pub topology: PrimitiveTopology,
    /// One storage binding per vertex stream a vertex-pulling shader fetches.
    pub vertex_storage: Vec<StorageBinding>,
    pub push_constants: Option<PushConstantRange>,
    pub textures: Vec<TextureBinding>,
    pub const_storage: Option<StorageBinding>,
    pub const_storage_fragment: Option<StorageBinding>,
}

/// One command of a submit.
#[allow(inconsistent_fields)]
#[derive(Debug)]
pub enum BackendCmd {
    CreatePipeline { id: u32, vs_spirv: Vec<u32>, ps_spirv: Vec<u32>, desc: PipelineDesc },
    BindPipeline { id: u32 },
    DrawAuto { vertex_count: u32 },
    BindVertexBuffer { slot: u32, id: u32, stride: u32 },
    BindStorageBuffer {
        set: u32,
        binding: u32,
        id: u32,
        num_records: u32,
        stride: u32,
        dst_sel: u32,
        format: u32,
        pc_offset: u32,
    },
    BindConstBuffer { set: u32, binding: u32, id: u32 },
    DrawIndexed { id: u32, index_count: u32, index_type: IndexType },
    SetViewport(ViewportRect),
    SetScissor(ScissorRect),
    CreateBuffer { id: u32, size: u64 },
    UploadBuffer { id: u32, offset: u64, data: Vec<u8> },
    ImportBuffer { id: u32, addr: u64, size: u64 },
    FreeResource { id: u32 },
    CreateImage { id: u32, width: u32, height: u32, format: TextureFormat },
    UploadImage { id: u32, data: Vec<u8> },
    CreateSampler { id: u32, desc: SamplerDesc },
    BindTexture { set: u32, binding: u32, image_id: u32, sampler_id: u32 },
    CreateRenderTarget { id: u32, width: u32, height: u32, format: ColorFormat },
    ReadbackRenderTarget { id: u32, addr: u64, size: u64, pitch: u32, tiling: Tiling },
    DumpRenderTargetPng { id: u32, path: String },
    SetRenderTarget { id: u32 },
}

} // verus!
