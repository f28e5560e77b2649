//! The handful of Vulkan values the recorder speaks of, as plain Rust values.
//!
//! Enumerations carry their Vulkan number through `as_raw`; flag words are `u32`
//! constants with the Vulkan bit values.

use vstd::prelude::*;

verus! {

/// The layouts an image goes through while it is written, sampled and copied.
#[derive(Clone, Copy, Debug, PartialEq, Eq, Structural)]
pub enum ImageLayout {
    Undefined,
    ColorAttachment,
    ShaderReadOnly,
    TransferSrc,
    TransferDst,
    PresentSrc,
}

impl ImageLayout {
    /// The number of the matching `VkImageLayout`.
    pub fn as_raw(self) -> (raw: i32)
        ensures
            raw == (match self {
                ImageLayout::Undefined => 0i32,
                ImageLayout::ColorAttachment => 2,
                ImageLayout::ShaderReadOnly => 5,
                ImageLayout::TransferSrc => 6,
                ImageLayout::TransferDst => 7,
                ImageLayout::PresentSrc => 1_000_001_002,
            }),
    {
        match self {
            ImageLayout::Undefined => 0,
            ImageLayout::ColorAttachment => 2,
            ImageLayout::ShaderReadOnly => 5,
            ImageLayout::TransferSrc => 6,
            ImageLayout::TransferDst => 7,
            ImageLayout::PresentSrc => 1_000_001_002,
        }
    }
}

/// The pixel and vertex formats the backend creates or reads.
#[derive(Clone, Copy, Debug, PartialEq, Eq, Structural)]
pub enum Format {
    Undefined,
    R8G8B8A8Unorm,
    R8G8B8A8Srgb,
    B8G8R8A8Unorm,
    B8G8R8A8Srgb,
    A2R10G10B10UnormPack32,
    A2B10G10R10UnormPack32,
    R16G16Unorm,
    R32Uint,
    R32Sint,
    R32Sfloat,
    R32G32Sfloat,
    R32G32B32Sfloat,
    R32G32B32A32Uint,
    R32G32B32A32Sint,
    R32G32B32A32Sfloat,
    /// Any other format, by its Vulkan number.
    Other(i32),
}

impl Format {
    /// The number of the matching `VkFormat`.
    pub open spec fn raw(self) -> i32 {
        match self {
            Format::Undefined => 0,
            Format::R8G8B8A8Unorm => 37,
            Format::R8G8B8A8Srgb => 43,
            Format::B8G8R8A8Unorm => 44,
            Format::B8G8R8A8Srgb => 50,
            Format::A2R10G10B10UnormPack32 => 58,
            Format::A2B10G10R10UnormPack32 => 64,
            Format::R16G16Unorm => 77,
            Format::R32Uint => 98,
            Format::R32Sint => 99,
            Format::R32Sfloat => 100,
            Format::R32G32Sfloat => 103,
            Format::R32G32B32Sfloat => 106,
            Format::R32G32B32A32Uint => 107,
            Format::R32G32B32A32Sint => 108,
            Format::R32G32B32A32Sfloat => 109,
            Format::Other(n) => n,
        }
    }

    /// The number of the matching `VkFormat`.
    pub fn as_raw(self) -> (raw: i32)
        ensures
            raw == self.raw(),
    {
        match self {
            Format::Undefined => 0,
            Format::R8G8B8A8Unorm => 37,
            Format::R8G8B8A8Srgb => 43,
            Format::B8G8R8A8Unorm => 44,
            Format::B8G8R8A8Srgb => 50,
            Format::A2R10G10B10UnormPack32 => 58,
            Format::A2B10G10R10UnormPack32 => 64,
            Format::R16G16Unorm => 77,
            Format::R32Uint => 98,
            Format::R32Sint => 99,
            Format::R32Sfloat => 100,
            Format::R32G32Sfloat => 103,
            Format::R32G32B32Sfloat => 106,
            Format::R32G32B32A32Uint => 107,
            Format::R32G32B32A32Sint => 108,
            Format::R32G32B32A32Sfloat => 109,
            Format::Other(n) => n,
        }
    }

    /// The format a `VkFormat` number names; a number outside the named ones is `Other`.
    pub fn from_raw(raw: i32) -> (format: Format)
        ensures
            format.raw() == raw,
            format is Other ==> forall|named: Format| named !is Other ==> named.raw() != raw,
    {
        match raw {
            0 => Format::Undefined,
            37 => Format::R8G8B8A8Unorm,
            43 => Format::R8G8B8A8Srgb,
            44 => Format::B8G8R8A8Unorm,
            50 => Format::B8G8R8A8Srgb,
            58 => Format::A2R10G10B10UnormPack32,
            64 => Format::A2B10G10R10UnormPack32,
            77 => Format::R16G16Unorm,
            98 => Format::R32Uint,
            99 => Format::R32Sint,
            100 => Format::R32Sfloat,
            103 => Format::R32G32Sfloat,
            106 => Format::R32G32B32Sfloat,
            107 => Format::R32G32B32A32Uint,
            108 => Format::R32G32B32A32Sint,
            109 => Format::R32G32B32A32Sfloat,
            n => Format::Other(n),
        }
    }
}

/// How a render pass treats what its color attachment held before.
#[derive(Clone, Copy, Debug, PartialEq, Eq, Structural)]
pub enum LoadOp {
    Load,
    Clear,
}

/// The kinds of descriptor a pipeline's only set holds.
#[derive(Clone, Copy, Debug, PartialEq, Eq, Structural)]
pub enum DescriptorType {
    CombinedImageSampler,
    StorageBuffer,
}

pub const IMAGE_USAGE_TRANSFER_DST: u32 = 0x2;
pub const IMAGE_USAGE_SAMPLED: u32 = 0x4;

pub const BUFFER_USAGE_TRANSFER_SRC: u32 = 0x1;
pub const BUFFER_USAGE_TRANSFER_DST: u32 = 0x2;
pub const BUFFER_USAGE_STORAGE: u32 = 0x20;

pub const MEMORY_DEVICE_LOCAL: u32 = 0x1;
pub const MEMORY_HOST_VISIBLE: u32 = 0x2;
pub const MEMORY_HOST_COHERENT: u32 = 0x4;

pub const ACCESS_NONE: u32 = 0x0;
pub const ACCESS_SHADER_READ: u32 = 0x20;
pub const ACCESS_COLOR_ATTACHMENT_WRITE: u32 = 0x100;
pub const ACCESS_COLOR_ATTACHMENT_READ_WRITE: u32 = 0x180;
pub const ACCESS_TRANSFER_READ: u32 = 0x800;
pub const ACCESS_TRANSFER_WRITE: u32 = 0x1000;
pub const ACCESS_MEMORY_READ: u32 = 0x8000;
pub const ACCESS_MEMORY_WRITE: u32 = 0x1_0000;
pub const ACCESS_MEMORY_READ_WRITE: u32 = 0x1_8000;

pub const STAGE_TOP_OF_PIPE: u32 = 0x1;
pub const STAGE_FRAGMENT_SHADER: u32 = 0x80;
pub const STAGE_COLOR_ATTACHMENT_OUTPUT: u32 = 0x400;
pub const STAGE_TRANSFER: u32 = 0x1000;
pub const STAGE_BOTTOM_OF_PIPE: u32 = 0x2000;
pub const STAGE_ALL_COMMANDS: u32 = 0x1_0000;

pub const SHADER_STAGE_VERTEX: u32 = 0x1;
pub const SHADER_STAGE_FRAGMENT: u32 = 0x10;

pub const COLOR_COMPONENT_R: u32 = 0x1;
pub const COLOR_COMPONENT_G: u32 = 0x2;
pub const COLOR_COMPONENT_B: u32 = 0x4;
pub const COLOR_COMPONENT_A: u32 = 0x8;

/// A fence wait that takes longer than this is a faulted submit, not a slow one.
pub const DRAW_FENCE_TIMEOUT_NS: u64 = 5_000_000_000;

/// The videoout target's size; every full frame has it.
pub const RES_W: u32 = 1920;
pub const RES_H: u32 = 1080;

/// The numbers are Vulkan's.
pub proof fn law_formats_have_vulkans_numbers(f: Format)
    ensures
        f.raw() == (match f {
            Format::Undefined => 0i32,
            Format::R8G8B8A8Unorm => 37,
            Format::R8G8B8A8Srgb => 43,
            Format::B8G8R8A8Unorm => 44,
            Format::B8G8R8A8Srgb => 50,
            Format::A2R10G10B10UnormPack32 => 58,
            Format::A2B10G10R10UnormPack32 => 64,
            Format::R16G16Unorm => 77,
            Format::R32Uint => 98,
            Format::R32Sint => 99,
            Format::R32Sfloat => 100,
            Format::R32G32Sfloat => 103,
            Format::R32G32B32Sfloat => 106,
            Format::R32G32B32A32Uint => 107,
            Format::R32G32B32A32Sint => 108,
            Format::R32G32B32A32Sfloat => 109,
            Format::Other(n) => n,
        }),
{
}

/// A frame has 1920 by 1080 texels, and a submit five seconds to run.
pub proof fn law_limits()
    ensures
        RES_W == 1920 && RES_H == 1080,
        DRAW_FENCE_TIMEOUT_NS == 5 * 1_000_000_000,
        SHADER_STAGE_VERTEX == 0x1 && SHADER_STAGE_FRAGMENT == 0x10,
        MEMORY_DEVICE_LOCAL == 0x1 && MEMORY_HOST_VISIBLE == 0x2 && MEMORY_HOST_COHERENT == 0x4,
{
}

} // verus!
