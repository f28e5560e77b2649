//! What the shader test tools feed to a device, and how they judge what comes back.
//!
//! Floating-point numbers are held by their bits.

use crate::bytes::{from_le32, le32, push_all, push_le32, read_le32};
use crate::gpu::commands::{SamplerAddressMode, SamplerDesc, SamplerFilter};
use crate::gpu::steps::{layout_after, BufferRef, ImageRef, Step};
use crate::gpu::transfer::{image_upload, law_copies_restore_layouts, upload_image};
use crate::gpu::vk::{
    Format, ImageLayout, BUFFER_USAGE_STORAGE, BUFFER_USAGE_TRANSFER_DST,
    BUFFER_USAGE_TRANSFER_SRC, IMAGE_USAGE_SAMPLED, IMAGE_USAGE_TRANSFER_DST,
    MEMORY_DEVICE_LOCAL, MEMORY_HOST_COHERENT, MEMORY_HOST_VISIBLE,
};
use vstd::prelude::*;
use vstd::string::StrSliceExecFns;

verus! {

broadcast use vstd::string::group_string_axioms;

/// The words of a shader, from its bytes; a rest of fewer than four bytes is dropped.
pub open spec fn words_of(bytes: Seq<u8>) -> Seq<u32> {
    Seq::new(
        bytes.len() / 4,
        |i: int| from_le32(bytes.subrange(4 * i, 4 * i + 4)) as u32,
    )
}

/// The words of a shader, from its bytes.
pub fn words(bytes: &[u8]) -> (out: Vec<u32>)
    ensures
        out@ == words_of(bytes@),
{
    let len: usize = bytes.len();
    let n: usize = len / 4;
    let mut out: Vec<u32> = Vec::new();
    let mut i: usize = 0;
    while i < n
        invariant
            len == bytes@.len(),
            n == len / 4,
            i <= n,
            out@.len() == i,
            forall|k: int| 0 <= k < i ==> out@[k] == words_of(bytes@)[k],
        decreases n - i,
    {
        let w: u32 = read_le32(bytes, 4 * i);
        out.push(w);
        assert(out@[i as int] == words_of(bytes@)[i as int]);
        i = i + 1;
    }
    assert(out@ =~= words_of(bytes@));
    out
}

/// The bytes of a shader's words.
pub open spec fn bytes_of(words: Seq<u32>) -> Seq<u8>
    decreases words.len(),
{
    if words.len() == 0 {
        Seq::empty()
    } else {
        bytes_of(words.drop_last()) + le32(words.last())
    }
}

/// The bytes of a shader's words.
pub fn words_to_bytes(words: &[u32]) -> (out: Vec<u8>)
    ensures
        out@ == bytes_of(words@),
{
    let mut out: Vec<u8> = Vec::new();
    let mut i: usize = 0;
    assert(words@.take(0) =~= Seq::empty());
    while i < words.len()
        invariant
            i <= words@.len(),
            out@ == bytes_of(words@.take(i as int)),
        decreases words@.len() - i,
    {
        assert(words@.take(i + 1).drop_last() =~= words@.take(i as int));
        push_le32(&mut out, words[i]);
        i = i + 1;
    }
    assert(words@.take(i as int) =~= words@);
    out
}

/// Words are read back from their bytes.
pub proof fn law_words_are_read_back(words: Seq<u32>)
    ensures
        bytes_of(words).len() == 4 * words.len(),
        words_of(bytes_of(words)) == words,
    decreases words.len(),
{
    if words.len() > 0 {
        let front = words.drop_last();
        law_words_are_read_back(front);
        let b = bytes_of(words);
        assert forall|i: int| 0 <= i < words.len() implies words_of(b)[i] == words[i] by {
            if i < front.len() {
                assert(b.subrange(4 * i, 4 * i + 4) =~= bytes_of(front).subrange(
                    4 * i,
                    4 * i + 4,
                ));
                assert(words_of(bytes_of(front))[i] == front[i]);
            } else {
                assert(b.subrange(4 * i, 4 * i + 4) =~= le32(words.last()));
                crate::bytes::law_le32_round_trip(words.last());
            }
        }
    }
    assert(words_of(bytes_of(words)) =~= words);
}

/// The stage of a shader.
#[derive(Clone, Copy, Debug, PartialEq, Eq, Structural)]
pub enum ShaderStage {
    Vertex,
    Fragment,
}

/// The text ends in these three characters.
pub open spec fn ends_in(s: Seq<char>, a: char, b: char, c: char) -> bool {
    s.len() >= 3 && s[s.len() - 3] == a && s[s.len() - 2] == b && s[s.len() - 1] == c
}

/// The stage of a shader, by the end of its name; `None` where the name says none.
pub fn stage_from_name(name: &str) -> (stage: Option<ShaderStage>)
    ensures
        stage == (if ends_in(name@, '_', 'v', 's') {
            Some(ShaderStage::Vertex)
        } else if ends_in(name@, '_', 'p', 's') {
            Some(ShaderStage::Fragment)
        } else {
            None
        }),
{
    let n: usize = name.unicode_len();
    if n < 3 || name.get_char(n - 3) != '_' || name.get_char(n - 1) != 's' {
        return None;
    }
    let kind: char = name.get_char(n - 2);
    if kind == 'v' {
        Some(ShaderStage::Vertex)
    } else if kind == 'p' {
        Some(ShaderStage::Fragment)
    } else {
        None
    }
}

/// Why a read of mock memory failed.
#[derive(Clone, Copy, Debug, PartialEq, Eq, Structural)]
pub enum ReadError {
    BelowBase,
    SizeOverflow,
    PastEnd,
}

/// Memory that holds some bytes at an address, and nothing else.
#[derive(Debug)]
pub struct MockMem {
    pub base: u64,
    pub data: Vec<u8>,
}

/// What a read gives.
pub open spec fn mock_read(base: u64, data: Seq<u8>, addr: u64, size: usize) -> Result<
    Seq<u8>,
    ReadError,
> {
    if addr < base {
        Err(ReadError::BelowBase)
    } else if addr - base + size > usize::MAX {
        Err(ReadError::SizeOverflow)
    } else if addr - base + size > data.len() {
        Err(ReadError::PastEnd)
    } else {
        Ok(data.subrange(addr - base, addr - base + size))
    }
}

impl MockMem {
    pub fn new(base: u64, data: Vec<u8>) -> (m: Self)
        ensures
            m.base == base,
            m.data == data,
    {
        MockMem { base, data }
    }

    /// Read bytes.
    pub fn read_bytes(&self, addr: u64, size: usize) -> (r: Result<Vec<u8>, ReadError>)
        requires
            addr <= usize::MAX,
        ensures
            match r {
                Ok(v) => mock_read(self.base, self.data@, addr, size) == Ok::<Seq<u8>, ReadError>(
                    v@,
                ),
                Err(e) => mock_read(self.base, self.data@, addr, size) == Err::<
                    Seq<u8>,
                    ReadError,
                >(e),
            },
    {
        if addr < self.base {
            return Err(ReadError::BelowBase);
        }
        let start: usize = (addr - self.base) as usize;
        let end: usize = match start.checked_add(size) {
            Some(e) => e,
            None => {
                return Err(ReadError::SizeOverflow);
            },
        };
        if end > self.data.len() {
            return Err(ReadError::PastEnd);
        }
        let mut out: Vec<u8> = Vec::new();
        let mut i: usize = start;
        while i < end
            invariant
                start <= i <= end <= self.data@.len(),
                out@ == self.data@.subrange(start as int, i as int),
            decreases end - i,
        {
            out.push(self.data[i]);
            i = i + 1;
            assert(out@ =~= self.data@.subrange(start as int, i as int));
        }
        Ok(out)
    }
}

/// Where the mock memory of a vertex shader begins.
pub const VS_BASE: u64 = 0x1_0000;

/// Where in it the vertices begin, behind the descriptor.
pub const VB_OFF: usize = 64;

/// Where the mock memory of a texture begins.
pub const TEXTURE_BASE: u64 = 0x2_0000;

/// The bytes of vertices, each of four numbers.
pub open spec fn vertex_bytes(positions: Seq<[u32; 4]>) -> Seq<u8>
    decreases positions.len(),
{
    if positions.len() == 0 {
        Seq::empty()
    } else {
        let p = positions.last();
        vertex_bytes(positions.drop_last()) + (le32(p[0]) + le32(p[1]) + le32(p[2]) + le32(p[3]))
    }
}

/// Append the bytes of a vertex.
pub fn push_vertex(out: &mut Vec<u8>, p: &[u32; 4])
    ensures
        final(out)@ == old(out)@ + (le32(p[0]) + le32(p[1]) + le32(p[2]) + le32(p[3])),
{
    push_le32(out, p[0]);
    push_le32(out, p[1]);
    push_le32(out, p[2]);
    push_le32(out, p[3]);
    assert(out@ =~= old(out)@ + (le32(p[0]) + le32(p[1]) + le32(p[2]) + le32(p[3])));
}

/// The memory that a vertex shader reads: the descriptor of a buffer of four-number
/// vertices, and behind it the buffer.
pub open spec fn vs_memory(positions: Seq<[u32; 4]>) -> Seq<u8> {
    le32(0x1_0040) + le32(0x10_0000) + le32(positions.len() as u32) + le32(0) + Seq::new(
        48,
        |i: int| 0u8,
    ) + vertex_bytes(positions)
}

/// The memory that a vertex shader reads.
pub fn build_vs_memory(positions: &Vec<[u32; 4]>) -> (r: (MockMem, u64))
    requires
        positions@.len() <= u32::MAX,
    ensures
        r.0.base == VS_BASE,
        r.0.data@ == vs_memory(positions@),
        r.1 == VS_BASE,
{
    let mut data: Vec<u8> = Vec::new();
    push_le32(&mut data, 0x1_0040);
    push_le32(&mut data, 0x10_0000);
    push_le32(&mut data, positions.len() as u32);
    push_le32(&mut data, 0);
    let ghost head = data@;
    assert(head =~= le32(0x1_0040) + le32(0x10_0000) + le32(positions.len() as u32) + le32(0));
    assert(data@ =~= head + Seq::new(0, |i: int| 0u8));
    while data.len() < VB_OFF
        invariant
            head.len() == 16,
            16 <= data@.len() <= VB_OFF,
            data@ == head + Seq::new((data@.len() - 16) as nat, |i: int| 0u8),
        decreases VB_OFF - data@.len(),
    {
        let ghost n = data@.len() - 16;
        data.push(0);
        assert(data@ =~= head + Seq::new((n + 1) as nat, |i: int| 0u8));
    }
    let ghost table = data@;
    let mut i: usize = 0;
    assert(positions@.take(0) =~= Seq::empty());
    assert(data@ =~= table + vertex_bytes(positions@.take(0)));
    while i < positions.len()
        invariant
            i <= positions@.len(),
            data@ == table + vertex_bytes(positions@.take(i as int)),
        decreases positions@.len() - i,
    {
        assert(positions@.take(i + 1).drop_last() =~= positions@.take(i as int));
        let ghost before = data@;
        push_vertex(&mut data, &positions[i]);
        assert(data@ =~= table + vertex_bytes(positions@.take(i + 1)));
        i = i + 1;
    }
    assert(positions@.take(i as int) =~= positions@);
    assert(data@ =~= vs_memory(positions@));
    (MockMem::new(VS_BASE, data), VS_BASE)
}

/// The triangles that a vertex shader is run on: one for each vertex, with that vertex
/// first.
pub open spec fn rotations(positions: Seq<[u32; 4]>) -> Seq<[u32; 4]> {
    Seq::new(
        3 * positions.len(),
        |k: int| positions[(k / 3 + k % 3) % (positions.len() as int)],
    )
}

/// The bytes of the triangles that a vertex shader is run on.
pub fn rotated_vertices(positions: &Vec<[u32; 4]>) -> (out: Vec<u8>)
    requires
        positions@.len() * 3 + 3 <= usize::MAX,
    ensures
        out@ == vertex_bytes(rotations(positions@)),
{
    let n: usize = positions.len();
    let ghost all = rotations(positions@);
    let mut out: Vec<u8> = Vec::new();
    let mut k: usize = 0;
    assert(all.take(0) =~= Seq::empty());
    while k < 3 * n
        invariant
            n == positions@.len(),
            n * 3 + 3 <= usize::MAX,
            all == rotations(positions@),
            k <= 3 * n,
            out@ == vertex_bytes(all.take(k as int)),
        decreases 3 * n - k,
    {
        assert(all.take(k + 1).drop_last() =~= all.take(k as int));
        assert(all.take(k + 1).last() == all[k as int]);
        let at: usize = (k / 3 + k % 3) % n;
        push_vertex(&mut out, &positions[at]);
        k = k + 1;
    }
    assert(all.take(k as int) =~= all);
    out
}

/// A texture of four bytes a texel, and whether it is sampled at the nearest texel.
#[derive(Debug)]
pub struct HarnessTexture {
    pub width: u32,
    pub height: u32,
    pub texels: Vec<u8>,
    pub point: bool,
}

/// The registers that describe a texture and how it is sampled.
pub open spec fn texture_words(width: u32, height: u32, point: bool) -> Seq<u32> {
    seq![
        0x200u32,
        0xA0_0000u32,
        (((width - 1) as u32) | (((height - 1) as u32) << 14u32)),
        0u32,
        0u32,
        0u32,
        0u32,
        0u32,
        0u32,
        0u32,
        if point {
            0u32
        } else {
            0x10_0000u32
        },
        0u32,
    ]
}

/// The registers that describe a texture, and the memory it lies in.
pub fn build_texture_memory(t: &HarnessTexture) -> (r: (Vec<u32>, MockMem))
    requires
        t.width >= 1,
        t.height >= 1,
    ensures
        r.0@ == texture_words(t.width, t.height, t.point),
        r.1.base == TEXTURE_BASE,
        r.1.data@ == t.texels@,
{
    let mut user: Vec<u32> = Vec::new();
    user.push(0x200);
    user.push(0xA0_0000);
    user.push((t.width - 1) | ((t.height - 1) << 14));
    user.push(0);
    user.push(0);
    user.push(0);
    user.push(0);
    user.push(0);
    user.push(0);
    user.push(0);
    user.push(
        if t.point {
            0
        } else {
            0x10_0000
        },
    );
    user.push(0);
    assert(user@ =~= texture_words(t.width, t.height, t.point));
    let mut texels: Vec<u8> = Vec::new();
    push_all(&mut texels, t.texels.as_slice());
    assert(texels@ =~= t.texels@);
    (user, MockMem::new(TEXTURE_BASE, texels))
}

/// What a field of the push constants holds.
#[derive(Clone, Copy, Debug, PartialEq, Eq, Structural)]
pub enum PushConstantRole {
    NumRecords,
    Stride,
    DstSel,
    Format,
}

/// A field of the push constants.
#[derive(Clone, Copy, Debug, PartialEq, Eq, Structural)]
pub struct PushConstantField {
    pub role: PushConstantRole,
    pub offset_bytes: u32,
    pub size_bytes: u32,
}

/// How many bytes the push constants take: up to the end of the last field.
pub open spec fn push_constant_size(fields: Seq<PushConstantField>) -> int
    decreases fields.len(),
{
    if fields.len() == 0 {
        0
    } else {
        let front = push_constant_size(fields.drop_last());
        let end = fields.last().offset_bytes + fields.last().size_bytes;
        if end > front {
            end
        } else {
            front
        }
    }
}

/// The size of the push constants, if there are any fields.
pub fn pc_ranges_for(fields: &Vec<PushConstantField>) -> (size: Option<u32>)
    requires
        forall|i: int|
            0 <= i < fields@.len() ==> (#[trigger] fields@[i]).offset_bytes
                + fields@[i].size_bytes <= u32::MAX,
    ensures
        match size {
            Some(n) => fields@.len() > 0 && n == push_constant_size(fields@),
            None => fields@.len() == 0,
        },
{
    if fields.len() == 0 {
        return None;
    }
    let mut total: u32 = 0;
    let mut i: usize = 0;
    assert(fields@.take(0) =~= Seq::empty());
    while i < fields.len()
        invariant
            i <= fields@.len(),
            total == push_constant_size(fields@.take(i as int)),
            forall|i: int|
                0 <= i < fields@.len() ==> (#[trigger] fields@[i]).offset_bytes
                    + fields@[i].size_bytes <= u32::MAX,
        decreases fields@.len() - i,
    {
        assert(fields@.take(i + 1).drop_last() =~= fields@.take(i as int));
        let end: u32 = fields[i].offset_bytes + fields[i].size_bytes;
        if end > total {
            total = end;
        }
        i = i + 1;
    }
    assert(fields@.take(i as int) =~= fields@);
    Some(total)
}

/// What the fields of the push constants hold: the number of vertices, 16 bytes for each,
/// the channels in their own order, and four floating-point numbers.
pub open spec fn role_value(role: PushConstantRole, num_records: u32, dst_sel: u32) -> u32 {
    match role {
        PushConstantRole::NumRecords => num_records,
        PushConstantRole::Stride => 16,
        PushConstantRole::DstSel => dst_sel,
        PushConstantRole::Format => 0x70E,
    }
}

/// Bytes with a word written over four of them.
pub open spec fn with_word(b: Seq<u8>, at: int, w: u32) -> Seq<u8> {
    b.update(at, le32(w)[0]).update(at + 1, le32(w)[1]).update(at + 2, le32(w)[2]).update(
        at + 3,
        le32(w)[3],
    )
}

/// The push constants: zeros, with each field written at its place, in order.
pub open spec fn push_constants_of(
    fields: Seq<PushConstantField>,
    size: nat,
    num_records: u32,
    dst_sel: u32,
) -> Seq<u8>
    decreases fields.len(),
{
    if fields.len() == 0 {
        Seq::new(size, |i: int| 0u8)
    } else {
        let f = fields.last();
        with_word(
            push_constants_of(fields.drop_last(), size, num_records, dst_sel),
            f.offset_bytes as int,
            role_value(f.role, num_records, dst_sel),
        )
    }
}

proof fn lemma_push_constants_len(
    fields: Seq<PushConstantField>,
    size: nat,
    num_records: u32,
    dst_sel: u32,
)
    requires
        forall|i: int|
            0 <= i < fields.len() ==> (#[trigger] fields[i]).offset_bytes + 4 <= size,
    ensures
        push_constants_of(fields, size, num_records, dst_sel).len() == size,
    decreases fields.len(),
{
    if fields.len() > 0 {
        assert(fields.last() == fields[fields.len() - 1]);
        assert forall|i: int| 0 <= i < fields.drop_last().len() implies (
        #[trigger] fields.drop_last()[i]).offset_bytes + 4 <= size by {
            assert(fields.drop_last()[i] == fields[i]);
        }
        lemma_push_constants_len(fields.drop_last(), size, num_records, dst_sel);
    }
}

/// The bytes of the push constants.
pub fn fill_push_constants(
    fields: &Vec<PushConstantField>,
    size: u32,
    num_records: u32,
    dst_sel: u32,
) -> (out: Vec<u8>)
    requires
        forall|i: int|
            0 <= i < fields@.len() ==> (#[trigger] fields@[i]).offset_bytes + 4 <= size,
    ensures
        out@ == push_constants_of(fields@, size as nat, num_records, dst_sel),
{
    let mut out: Vec<u8> = Vec::new();
    out.resize(size as usize, 0);
    assert(out@ =~= Seq::new(size as nat, |i: int| 0u8));
    let mut i: usize = 0;
    assert(fields@.take(0) =~= Seq::empty());
    while i < fields.len()
        invariant
            i <= fields@.len(),
            out@ == push_constants_of(fields@.take(i as int), size as nat, num_records, dst_sel),
            forall|i: int|
                0 <= i < fields@.len() ==> (#[trigger] fields@[i]).offset_bytes + 4 <= size,
        decreases fields@.len() - i,
    {
        proof {
            assert(fields@.take(i + 1).drop_last() =~= fields@.take(i as int));
            assert forall|k: int| 0 <= k < i implies (
            #[trigger] fields@.take(i as int)[k]).offset_bytes + 4 <= size by {
                assert(fields@.take(i as int)[k] == fields@[k]);
            }
            lemma_push_constants_len(fields@.take(i as int), size as nat, num_records, dst_sel);
        }
        let f = fields[i];
        let w: u32 = match f.role {
            PushConstantRole::NumRecords => num_records,
            PushConstantRole::Stride => 16,
            PushConstantRole::DstSel => dst_sel,
            PushConstantRole::Format => 0x70E,
        };
        let at: usize = f.offset_bytes as usize;
        out.set(at, (w % 256) as u8);
        out.set(at + 1, (w / 256 % 256) as u8);
        out.set(at + 2, (w / 65536 % 256) as u8);
        out.set(at + 3, (w / 16777216) as u8);
        i = i + 1;
    }
    assert(fields@.take(i as int) =~= fields@);
    out
}

/// What a fragment shader's samplers ask for.
#[derive(Clone, Copy, Debug, PartialEq, Eq, Structural)]
pub enum SamplerPlan {
    /// No texture.
    Unsampled,
    /// The texture, at this binding.
    Bind(u32),
    /// There is one texture at most, and more samplers than one would all read it.
    TooMany,
    /// There is a sampler, and no texture for it.
    NoTexture,
}

/// How a fragment shader's samplers are served by the one texture there may be.
pub fn sampler_plan(bindings: &Vec<u32>, has_texture: bool) -> (plan: SamplerPlan)
    ensures
        plan == (if bindings@.len() > 1 {
            SamplerPlan::TooMany
        } else if bindings@.len() == 0 {
            SamplerPlan::Unsampled
        } else if has_texture {
            SamplerPlan::Bind(bindings@[0])
        } else {
            SamplerPlan::NoTexture
        }),
{
    if bindings.len() > 1 {
        SamplerPlan::TooMany
    } else if bindings.len() == 0 {
        SamplerPlan::Unsampled
    } else if has_texture {
        SamplerPlan::Bind(bindings[0])
    } else {
        SamplerPlan::NoTexture
    }
}

/// The size of a buffer for some bytes: there is no empty one.
pub open spec fn buffer_bytes(len: int) -> int {
    if len >= 16 {
        len
    } else {
        16
    }
}

/// A buffer that the host fills: its size, what it is used for, and the properties of the
/// memory that it lies in.
#[derive(Clone, Copy, Debug, PartialEq, Eq, Structural)]
pub struct HostBufferPlan {
    pub bytes: u64,
    pub usage: u32,
    pub memory: u32,
}

/// A buffer for some bytes, which the host fills.
pub open spec fn host_buffer(len: int, usage: u32) -> HostBufferPlan {
    HostBufferPlan {
        bytes: buffer_bytes(len) as u64,
        usage,
        memory: MEMORY_HOST_VISIBLE | MEMORY_HOST_COHERENT,
    }
}

fn plan_host_buffer(len: usize, usage: u32) -> (plan: HostBufferPlan)
    ensures
        plan == host_buffer(len as int, usage),
{
    let n: u64 = len as u64;
    HostBufferPlan {
        bytes: if n >= 16 {
            n
        } else {
            16
        },
        usage,
        memory: MEMORY_HOST_VISIBLE | MEMORY_HOST_COHERENT,
    }
}

/// The buffer that a shader reads vertices from.
pub fn create_storage_buffer(bytes: &Vec<u8>) -> (plan: HostBufferPlan)
    ensures
        plan == host_buffer(bytes@.len() as int, BUFFER_USAGE_STORAGE),
{
    plan_host_buffer(bytes.len(), BUFFER_USAGE_STORAGE)
}

/// The buffer that bytes are copied to an image from.
pub fn create_staging_buffer(bytes: &Vec<u8>) -> (plan: HostBufferPlan)
    ensures
        plan == host_buffer(bytes@.len() as int, BUFFER_USAGE_TRANSFER_SRC),
{
    plan_host_buffer(bytes.len(), BUFFER_USAGE_TRANSFER_SRC)
}

/// The buffer that an image is read back through.
pub fn create_readback_buffer(size: u64) -> (plan: HostBufferPlan)
    ensures
        plan.bytes == size,
        plan.usage == BUFFER_USAGE_TRANSFER_DST,
        plan.memory == MEMORY_HOST_VISIBLE | MEMORY_HOST_COHERENT,
{
    HostBufferPlan {
        bytes: size,
        usage: BUFFER_USAGE_TRANSFER_DST,
        memory: MEMORY_HOST_VISIBLE | MEMORY_HOST_COHERENT,
    }
}

/// A texture to be made and sampled: its image and the memory that it lies in, the buffer
/// that its bytes go through, the steps that upload it, its sampler, and the binding it is
/// sampled at.
#[derive(Debug)]
pub struct SampledTexture {
    pub width: u32,
    pub height: u32,
    pub format: Format,
    pub usage: u32,
    pub memory: u32,
    pub staging: HostBufferPlan,
    pub steps: Vec<Step>,
    pub sampler: SamplerDesc,
    pub binding: u32,
}

/// How a texture is sampled: at the nearest texel or between texels, and over again beyond
/// its edges.
pub open spec fn harness_sampler(point: bool) -> SamplerDesc {
    let filter = if point {
        SamplerFilter::Nearest
    } else {
        SamplerFilter::Linear
    };
    SamplerDesc {
        mag_filter: filter,
        min_filter: filter,
        address_mode_u: SamplerAddressMode::Repeat,
        address_mode_v: SamplerAddressMode::Repeat,
    }
}

/// The sampler of a texture.
pub fn create_sampler(point: bool) -> (desc: SamplerDesc)
    ensures
        desc == harness_sampler(point),
{
    let filter = if point {
        SamplerFilter::Nearest
    } else {
        SamplerFilter::Linear
    };
    SamplerDesc {
        mag_filter: filter,
        min_filter: filter,
        address_mode_u: SamplerAddressMode::Repeat,
        address_mode_v: SamplerAddressMode::Repeat,
    }
}

/// Plan a texture that is sampled at `binding`.
pub fn make_sampled_texture(
    binding: u32,
    tex: &HarnessTexture,
    image: ImageRef,
    buffer: BufferRef,
) -> (plan: SampledTexture)
    ensures
        plan.width == tex.width,
        plan.height == tex.height,
        plan.format == Format::R8G8B8A8Unorm,
        plan.usage == IMAGE_USAGE_SAMPLED | IMAGE_USAGE_TRANSFER_DST,
        plan.memory == MEMORY_DEVICE_LOCAL,
        plan.staging == host_buffer(tex.texels@.len() as int, BUFFER_USAGE_TRANSFER_SRC),
        plan.steps@ == image_upload(image, buffer, tex.width, tex.height),
        plan.sampler == harness_sampler(tex.point),
        plan.binding == binding,
{
    SampledTexture {
        width: tex.width,
        height: tex.height,
        format: Format::R8G8B8A8Unorm,
        usage: IMAGE_USAGE_SAMPLED | IMAGE_USAGE_TRANSFER_DST,
        memory: MEMORY_DEVICE_LOCAL,
        staging: create_staging_buffer(&tex.texels),
        steps: upload_image(image, buffer, tex.width, tex.height),
        sampler: create_sampler(tex.point),
        binding,
    }
}

/// The set that a texture is sampled through: one sampler, at its binding.
pub open spec fn sampler_set(set_layout: u64, binding: u32, view: u64, sampler: u64) -> Seq<Step> {
    seq![
        Step::AllocateSet { set_layout, storage_count: 0, sampler_count: 1 },
        Step::WriteSampler { binding, view, sampler },
    ]
}

/// Make the set that a texture is sampled through.
pub fn alloc_combined_set(set_layout: u64, binding: u32, view: u64, sampler: u64) -> (steps: Vec<
    Step,
>)
    ensures
        steps@ == sampler_set(set_layout, binding, view, sampler),
{
    let mut steps: Vec<Step> = Vec::new();
    steps.push(Step::AllocateSet { set_layout, storage_count: 0, sampler_count: 1 });
    steps.push(Step::WriteSampler { binding, view, sampler });
    assert(steps@ =~= sampler_set(set_layout, binding, view, sampler));
    steps
}

/// The set that vertices are read through: one buffer, at binding 0.
pub open spec fn storage_set(set_layout: u64, buffer: u64) -> Seq<Step> {
    seq![
        Step::AllocateSet { set_layout, storage_count: 1, sampler_count: 0 },
        Step::WriteStorage { binding: 0, buffer },
    ]
}

/// Make the set that vertices are read through.
pub fn alloc_descriptor(set_layout: u64, buffer: u64) -> (steps: Vec<Step>)
    ensures
        steps@ == storage_set(set_layout, buffer),
{
    let mut steps: Vec<Step> = Vec::new();
    steps.push(Step::AllocateSet { set_layout, storage_count: 1, sampler_count: 0 });
    steps.push(Step::WriteStorage { binding: 0, buffer });
    assert(steps@ =~= storage_set(set_layout, buffer));
    steps
}

/// A texture that has been made is ready to be sampled, and its staging buffer holds all of
/// its bytes.
pub proof fn law_made_texture_can_be_sampled(image: u64, width: u32, height: u32, len: int)
    requires
        0 <= len <= u64::MAX,
    ensures
        layout_after(
            image_upload(ImageRef::Handle(image), BufferRef::Staging, width, height),
            ImageRef::Handle(image),
            ImageLayout::Undefined,
        ) == Some(ImageLayout::ShaderReadOnly),
        host_buffer(len, BUFFER_USAGE_TRANSFER_SRC).bytes >= len,
{
    law_copies_restore_layouts(image, width, height, ImageLayout::Undefined);
}

/// The bits of a number that is not one.
pub const NAN_BITS: u32 = 0x7FC0_0000;

/// The bits are those of a finite number: the exponent is not all ones.
pub open spec fn is_finite(bits: u32) -> bool {
    bits / 0x80_0000 % 0x100 != 0xFF
}

/// Every channel is finite.
pub open spec fn is_covered(t: [u32; 4]) -> bool {
    is_finite(t[0]) && is_finite(t[1]) && is_finite(t[2]) && is_finite(t[3])
}

/// A texel is covered.
fn covered(t: &[u32; 4]) -> (b: bool)
    ensures
        b == is_covered(*t),
{
    t[0] / 0x80_0000 % 0x100 != 0xFF && t[1] / 0x80_0000 % 0x100 != 0xFF && t[2] / 0x80_0000 % 0x100
        != 0xFF && t[3] / 0x80_0000 % 0x100 != 0xFF
}

/// The value that a flat triangle was drawn in, on a background of no numbers: the first
/// covered texel, and no numbers where none is covered.
pub fn first_covered_texel(texels: &Vec<[u32; 4]>) -> (t: [u32; 4])
    ensures
        (exists|i: int|
            0 <= i < texels@.len() && is_covered(#[trigger] texels@[i]) && t == texels@[i]
                && forall|j: int| 0 <= j < i ==> !is_covered(#[trigger] texels@[j])) || ((forall|
            j: int,
        |
            0 <= j < texels@.len() ==> !is_covered(#[trigger] texels@[j])) && t@ == seq![
            NAN_BITS,
            NAN_BITS,
            NAN_BITS,
            NAN_BITS,
        ]),
{
    let mut i: usize = 0;
    while i < texels.len()
        invariant
            i <= texels@.len(),
            forall|j: int| 0 <= j < i ==> !is_covered(#[trigger] texels@[j]),
        decreases texels@.len() - i,
    {
        if covered(&texels[i]) {
            return texels[i];
        }
        i = i + 1;
    }
    let none: [u32; 4] = [NAN_BITS, NAN_BITS, NAN_BITS, NAN_BITS];
    assert(none@ =~= seq![NAN_BITS, NAN_BITS, NAN_BITS, NAN_BITS]);
    none
}

/// The memory type serves: the resource allows it, and it has every property asked for.
pub open spec fn serves(flags: u32, bit: u32, type_bits: u32, props: u32) -> bool {
    type_bits & (1u32 << bit) != 0 && flags & props == props
}

/// The first memory type that serves.
pub fn find_mem_type(type_flags: &Vec<u32>, type_bits: u32, props: u32) -> (r: Option<u32>)
    requires
        type_flags@.len() <= 32,
    ensures
        match r {
            Some(i) => {
                &&& i < type_flags@.len()
                &&& serves(type_flags@[i as int], i, type_bits, props)
                &&& forall|j: int|
                    0 <= j < i ==> !serves(#[trigger] type_flags@[j], j as u32, type_bits, props)
            },
            None => forall|j: int|
                0 <= j < type_flags@.len() ==> !serves(
                    #[trigger] type_flags@[j],
                    j as u32,
                    type_bits,
                    props,
                ),
        },
{
    let mut i: u32 = 0;
    while (i as usize) < type_flags.len()
        invariant
            type_flags@.len() <= 32,
            i <= type_flags@.len(),
            forall|j: int|
                0 <= j < i ==> !serves(#[trigger] type_flags@[j], j as u32, type_bits, props),
        decreases type_flags@.len() - i,
    {
        let flags: u32 = type_flags[i as usize];
        if type_bits & (1u32 << i) != 0 && flags & props == props {
            return Some(i);
        }
        i = i + 1;
    }
    None
}

/// The side of the test texture, and of its squares, in texels.
pub const TEX_DIM: u32 = 64;

pub const CHECK: u32 = 8;

/// The side of the picture that the test texture is drawn to.
pub const RT_DIM: u32 = 256;

/// A byte of a chessboard in two colours.
pub open spec fn check_byte(k: int) -> u8 {
    let x = k / 4 % 64;
    let y = k / 4 / 64;
    let even = (x / 8 + y / 8) % 2 == 0;
    let c = k % 4;
    if c == 0 {
        if even {
            230
        } else {
            40
        }
    } else if c == 1 {
        if even {
            40
        } else {
            60
        }
    } else if c == 2 {
        if even {
            40
        } else {
            230
        }
    } else {
        255
    }
}

/// A chessboard in two colours.
pub fn checkerboard() -> (px: Vec<u8>)
    ensures
        px@ == Seq::new(64 * 64 * 4, |k: int| check_byte(k)),
{
    let mut px: Vec<u8> = Vec::new();
    let mut k: u32 = 0;
    while k < TEX_DIM * TEX_DIM
        invariant
            k <= 64 * 64,
            px@.len() == 4 * k,
            forall|j: int| 0 <= j < px@.len() ==> px@[j] == check_byte(j),
        decreases 64 * 64 - k,
    {
        let x: u32 = k % TEX_DIM;
        let y: u32 = k / TEX_DIM;
        let ghost first = 4 * (k as int);
        assert(first / 4 == k && (first + 1) / 4 == k && (first + 2) / 4 == k && (first + 3) / 4
            == k);
        if (x / CHECK + y / CHECK) % 2 == 0 {
            px.push(230);
            px.push(40);
            px.push(40);
            px.push(255);
        } else {
            px.push(40);
            px.push(60);
            px.push(230);
            px.push(255);
        }
        k = k + 1;
    }
    assert(px@ =~= Seq::new(64 * 64 * 4, |k: int| check_byte(k)));
    px
}

/// Every pixel is the first one.
pub open spec fn is_flat(pixels: Seq<u8>) -> bool {
    forall|k: int|
        0 <= k < 4 * (pixels.len() / 4) ==> #[trigger] pixels[k] == pixels[k % 4]
}

/// Whether a picture is of one colour, which says that nothing was sampled.
pub fn is_flat_colour(pixels: &[u8]) -> (b: bool)
    requires
        pixels@.len() >= 4,
    ensures
        b == is_flat(pixels@),
{
    let n: usize = pixels.len() / 4 * 4;
    let mut k: usize = 0;
    while k < n
        invariant
            n == 4 * (pixels@.len() / 4),
            4 <= n <= pixels@.len(),
            k <= n,
            forall|j: int| 0 <= j < k ==> #[trigger] pixels@[j] == pixels@[j % 4],
        decreases n - k,
    {
        if pixels[k] != pixels[k % 4] {
            return false;
        }
        k = k + 1;
    }
    true
}

/// How many bytes of a picture are uploaded: no more than it has, nor than its image
/// takes.
pub fn upload_len(bytes: usize, w: u32, h: u32) -> (n: u64)
    ensures
        n == (if (bytes as int) <= w * h * 4 {
            bytes as int
        } else {
            w * h * 4
        }),
{
    proof {
        assert(w * h <= 0xFFFF_FFFF * 0xFFFF_FFFF) by (nonlinear_arith)
            requires
                w <= 0xFFFF_FFFF,
                h <= 0xFFFF_FFFF,
        ;
    }
    let size: u128 = (w as u128) * (h as u128) * 4;
    if (bytes as u128) <= size {
        bytes as u64
    } else {
        size as u64
    }
}

/// The chessboard is not of one colour.
pub proof fn law_checkerboard_is_not_flat()
    ensures
        !is_flat(Seq::new(64 * 64 * 4, |k: int| check_byte(k))),
{
    let s = Seq::new(64 * 64 * 4, |k: int| check_byte(k));
    assert(s[32] == check_byte(32));
    assert(s[0] == check_byte(0));
    assert(s[32] != s[32int % 4]);
}

/// A text ends in three characters where it is some text with them behind it.
pub proof fn law_endings(s: Seq<char>, stem: Seq<char>, a: char, b: char, c: char)
    ensures
        ends_in(stem + seq![a, b, c], a, b, c),
        ends_in(s, a, b, c) ==> s == s.take(s.len() - 3) + seq![a, b, c],
{
}

/// A read gives the bytes that lie at its address, and succeeds exactly where all of them do.
pub proof fn law_mock_reads(base: u64, data: Seq<u8>, addr: u64, size: usize)
    requires
        data.len() <= usize::MAX,
    ensures
        mock_read(base, data, addr, size) is Ok <==> base <= addr && addr + size <= base
            + data.len(),
        mock_read(base, data, addr, size) matches Ok(read) ==> read.len() == size && forall|i: int|
            0 <= i < size ==> #[trigger] read[i] == data[addr + i - base],
        mock_read(base, data, addr, size) == Err::<Seq<u8>, ReadError>(ReadError::BelowBase)
            <==> addr < base,
        mock_read(base, data, addr, size) == Err::<Seq<u8>, ReadError>(ReadError::SizeOverflow)
            <==> addr >= base && addr - base + size > usize::MAX,
{
}

/// The word at a place of some bytes, the first byte worth the least.
pub open spec fn word_at(b: Seq<u8>, at: int) -> int {
    b[at] + 0x100 * b[at + 1] + 0x1_0000 * b[at + 2] + 0x100_0000 * b[at + 3]
}

/// Vertices follow one another, each in 16 bytes, its four numbers in order.
pub proof fn law_vertices_lie_in_order(positions: Seq<[u32; 4]>, i: int, c: int)
    requires
        0 <= i < positions.len(),
        0 <= c < 4,
    ensures
        vertex_bytes(positions).len() == 16 * positions.len(),
        word_at(vertex_bytes(positions), 16 * i + 4 * c) == positions[i][c],
    decreases positions.len(),
{
    lemma_vertex_bytes_len(positions.drop_last());
    let front = vertex_bytes(positions.drop_last());
    let all = vertex_bytes(positions);
    let p = positions.last();
    let tail = le32(p[0]) + le32(p[1]) + le32(p[2]) + le32(p[3]);
    assert(all =~= front + tail);
    if i < positions.len() - 1 {
        law_vertices_lie_in_order(positions.drop_last(), i, c);
    } else {
        crate::bytes::law_bytes_of_words(p[0], 0);
        crate::bytes::law_bytes_of_words(p[1], 0);
        crate::bytes::law_bytes_of_words(p[2], 0);
        crate::bytes::law_bytes_of_words(p[3], 0);
        assert(word_at(tail, 4 * c) == p[c]);
        assert(word_at(all, front.len() + 4 * c) == word_at(tail, 4 * c));
    }
}

proof fn lemma_vertex_bytes_len(positions: Seq<[u32; 4]>)
    ensures
        vertex_bytes(positions).len() == 16 * positions.len(),
    decreases positions.len(),
{
    if positions.len() > 0 {
        lemma_vertex_bytes_len(positions.drop_last());
    }
}

/// The descriptor of a vertex shader's memory names the address of the vertices, which begin 64
/// bytes behind it, a stride of 16 bytes in the upper half of the second word, and their number.
pub proof fn law_vertex_descriptor(positions: Seq<[u32; 4]>, i: int, c: int)
    requires
        0 <= i < positions.len() <= u32::MAX,
        0 <= c < 4,
    ensures
        VS_BASE == 0x1_0000,
        TEXTURE_BASE == 0x2_0000,
        word_at(vs_memory(positions), 0) == VS_BASE + 64,
        word_at(vs_memory(positions), 4) == 16 * 0x1_0000,
        word_at(vs_memory(positions), 8) == positions.len(),
        word_at(vs_memory(positions), 12) == 0,
        vs_memory(positions).len() == 64 + 16 * positions.len(),
        word_at(vs_memory(positions), 64 + 16 * i + 4 * c) == positions[i][c],
{
    let n = positions.len() as u32;
    crate::bytes::law_bytes_of_words(0x1_0040, 0);
    crate::bytes::law_bytes_of_words(0x10_0000, 0);
    crate::bytes::law_bytes_of_words(n, 0);
    crate::bytes::law_bytes_of_words(0, 0);
    law_vertices_lie_in_order(positions, i, c);
    let m = vs_memory(positions);
    let v = vertex_bytes(positions);
    assert(m.subrange(0, 4) =~= le32(0x1_0040));
    assert(m.subrange(4, 8) =~= le32(0x10_0000));
    assert(m.subrange(8, 12) =~= le32(n));
    assert(m.subrange(12, 16) =~= le32(0));
    assert(word_at(m, 0) == word_at(m.subrange(0, 4), 0));
    assert(word_at(m, 4) == word_at(m.subrange(4, 8), 0));
    assert(word_at(m, 8) == word_at(m.subrange(8, 12), 0));
    assert(word_at(m, 12) == word_at(m.subrange(12, 16), 0));
    assert(m.skip(64) =~= v);
    assert(word_at(m, 64 + 16 * i + 4 * c) == word_at(m.skip(64), 16 * i + 4 * c));
}

/// The registers of a texture give its address in units of 256 bytes, its width less one in 14
/// bits and its height less one in the 14 above, and whether it is sampled between texels.
pub proof fn law_texture_registers(width: u32, height: u32, point: bool)
    requires
        1 <= width <= 0x4000,
        1 <= height <= 0x4000,
    ensures
        ({
            let r = texture_words(width, height, point);
            &&& r.len() == 12
            &&& r[0] * 256 == TEXTURE_BASE
            &&& r[1] == 0xA0_0000
            &&& r[2] % 0x4000 == width - 1
            &&& r[2] / 0x4000 == height - 1
            &&& r[10] == (if point {
                0u32
            } else {
                0x10_0000u32
            })
            &&& forall|i: int| 3 <= i < 12 && i != 10 ==> #[trigger] r[i] == 0
        }),
{
    let w = (width - 1) as u32;
    let h = (height - 1) as u32;
    assert(w < 0x4000 && h < 0x4000 ==> (w | (h << 14u32)) % 0x4000 == w && (w | (h << 14u32))
        / 0x4000 == h) by (bit_vector);
}

/// The push constants reach to the end of the field that ends last, and no further.
pub proof fn law_push_constants_reach(fields: Seq<PushConstantField>, i: int)
    requires
        0 <= i < fields.len(),
    ensures
        fields[i].offset_bytes + fields[i].size_bytes <= push_constant_size(fields),
        exists|k: int|
            0 <= k < fields.len() && push_constant_size(fields) == (
            #[trigger] fields[k]).offset_bytes + fields[k].size_bytes || push_constant_size(fields)
                == 0,
    decreases fields.len(),
{
    let front = fields.drop_last();
    if i < front.len() {
        law_push_constants_reach(front, i);
    }
    if front.len() > 0 {
        law_push_constants_reach(front, 0);
        if push_constant_size(fields) == push_constant_size(front) {
            if push_constant_size(front) != 0 {
                let k = choose|k: int|
                    0 <= k < front.len() && push_constant_size(front) == (
                    #[trigger] front[k]).offset_bytes + front[k].size_bytes || push_constant_size(
                        front,
                    ) == 0;
                assert(fields[k] == front[k]);
            } else {
                assert(fields[0] == front[0]);
            }
        } else {
            assert(fields[fields.len() - 1] == fields.last());
        }
    } else {
        assert(fields[0] == fields.last());
    }
}

/// A field that no later one touches holds its value: the number of records, a stride of 16, the
/// channels, or the format 0x70E.  A byte that no field covers is zero.
pub proof fn law_push_constants_hold(
    fields: Seq<PushConstantField>,
    size: nat,
    num_records: u32,
    dst_sel: u32,
    i: int,
    at: int,
)
    requires
        forall|k: int| 0 <= k < fields.len() ==> (#[trigger] fields[k]).offset_bytes + 4 <= size,
        0 <= i < fields.len(),
        forall|k: int|
            i < k < fields.len() ==> (#[trigger] fields[k]).offset_bytes + 4
                <= fields[i].offset_bytes || fields[i].offset_bytes + 4 <= fields[k].offset_bytes,
        0 <= at < size,
    ensures
        ({
            let b = push_constants_of(fields, size, num_records, dst_sel);
            &&& b.len() == size
            &&& word_at(b, fields[i].offset_bytes as int) == (match fields[i].role {
                PushConstantRole::NumRecords => num_records,
                PushConstantRole::Stride => 16,
                PushConstantRole::DstSel => dst_sel,
                PushConstantRole::Format => 0x70E,
            })
            &&& (forall|k: int|
                0 <= k < fields.len() ==> at < (#[trigger] fields[k]).offset_bytes || at
                    >= fields[k].offset_bytes + 4) ==> b[at] == 0
        }),
    decreases fields.len(),
{
    let front = fields.drop_last();
    let f = fields.last();
    assert(f == fields[fields.len() - 1]);
    assert(forall|k: int| 0 <= k < front.len() ==> #[trigger] front[k] == fields[k]);
    lemma_push_constants_len(front, size, num_records, dst_sel);
    let old_bytes = push_constants_of(front, size, num_records, dst_sel);
    let w = role_value(f.role, num_records, dst_sel);
    crate::bytes::law_bytes_of_words(w, 0);
    let b = push_constants_of(fields, size, num_records, dst_sel);
    assert(b == with_word(old_bytes, f.offset_bytes as int, w));
    assert(word_at(b, f.offset_bytes as int) == w);
    if front.len() > 0 {
        if i < front.len() {
            law_push_constants_hold(front, size, num_records, dst_sel, i, at);
        } else {
            law_push_constants_hold(
                front,
                size,
                num_records,
                dst_sel,
                front.len() - 1,
                at,
            );
        }
    }
}

/// A buffer that the host fills is visible to it and coherent (2 and 4), holds what it is made
/// for, and no fewer than 16 bytes; vertices are read as storage (0x20), bytes are copied from
/// where they are staged (1).
pub proof fn law_host_buffers(len: int, usage: u32)
    requires
        0 <= len <= u64::MAX,
    ensures
        host_buffer(len, usage).bytes == (if len < 16 {
            16
        } else {
            len
        }),
        host_buffer(len, usage).usage == usage,
        host_buffer(len, usage).memory == 6,
        BUFFER_USAGE_STORAGE == 0x20,
        BUFFER_USAGE_TRANSFER_SRC == 1,
        BUFFER_USAGE_TRANSFER_DST == 2,
        MEMORY_DEVICE_LOCAL == 1,
        IMAGE_USAGE_SAMPLED | IMAGE_USAGE_TRANSFER_DST == 6,
{
    assert(2u32 | 4u32 == 6u32 && 4u32 | 2u32 == 6u32) by (bit_vector);
}

/// A texture is sampled the same way near and far, and repeats in both directions.  The sets hold
/// one thing each, where it is bound.
pub proof fn law_harness_sets(point: bool, set_layout: u64, binding: u32, view: u64, sampler: u64)
    ensures
        ({
            let s = harness_sampler(point);
            &&& s.mag_filter == s.min_filter
            &&& s.mag_filter is Nearest <==> point
            &&& s.address_mode_u is Repeat && s.address_mode_v is Repeat
        }),
        ({
            let s = sampler_set(set_layout, binding, view, sampler);
            let t = storage_set(set_layout, view);
            &&& s.len() == 2 && t.len() == 2
            &&& s[0] == (Step::AllocateSet { set_layout, storage_count: 0, sampler_count: 1 })
            &&& s[1] == (Step::WriteSampler { binding, view, sampler })
            &&& t[0] == (Step::AllocateSet { set_layout, storage_count: 1, sampler_count: 0 })
            &&& t[1] == (Step::WriteStorage { binding: 0, buffer: view })
        }),
{
}

/// A number is finite exactly where the eight bits of its exponent are not all ones; the number
/// that a background is made of is not.
pub proof fn law_finite_numbers(bits: u32)
    ensures
        is_finite(bits) <==> bits & 0x7F80_0000 != 0x7F80_0000,
        !is_finite(NAN_BITS),
{
    assert(bits / 0x80_0000 % 0x100 == 0xFF <==> bits & 0x7F80_0000 == 0x7F80_0000) by (bit_vector);
    assert(0x7FC0_0000u32 / 0x80_0000u32 % 0x100u32 == 0xFFu32) by (bit_vector);
}

/// A memory type serves exactly where its bit is among those allowed and no property that is asked
/// for is missing.
pub proof fn law_memory_types_serve(flags: u32, bit: u32, type_bits: u32, props: u32)
    requires
        bit < 32,
    ensures
        serves(flags, bit, type_bits, props) <==> (type_bits >> bit) % 2 == 1 && props & !flags == 0,
{
    assert(bit < 32 ==> (type_bits & (1u32 << bit) != 0 <==> (type_bits >> bit) % 2 == 1))
        by (bit_vector);
    assert(flags & props == props <==> props & !flags == 0) by (bit_vector);
}

/// The chessboard: squares of eight by eight texels, red where row and column of the square are
/// both even or both odd, blue elsewhere, and opaque.
pub proof fn law_checkerboard(x: int, y: int)
    requires
        0 <= x < 64,
        0 <= y < 64,
    ensures
        ({
            let k = (y * 64 + x) * 4;
            let red = (x / 8) % 2 == (y / 8) % 2;
            &&& check_byte(k) == (if red {
                230u8
            } else {
                40u8
            })
            &&& check_byte(k + 1) == (if red {
                40u8
            } else {
                60u8
            })
            &&& check_byte(k + 2) == (if red {
                40u8
            } else {
                230u8
            })
            &&& check_byte(k + 3) == 255
        }),
{
    let t = y * 64 + x;
    assert(t % 64 == x && t / 64 == y);
    let k = t * 4;
    assert(k / 4 == t && (k + 1) / 4 == t && (k + 2) / 4 == t && (k + 3) / 4 == t);
    assert((x / 8 + y / 8) % 2 == 0 <==> (x / 8) % 2 == (y / 8) % 2);
}

/// A picture is of one colour exactly where any two of its texels have the same bytes.
pub proof fn law_flat_pictures(pixels: Seq<u8>, i: int, j: int, c: int)
    requires
        0 <= i < pixels.len() / 4,
        0 <= j < pixels.len() / 4,
        0 <= c < 4,
    ensures
        is_flat(pixels) ==> pixels[4 * i + c] == pixels[4 * j + c],
        !is_flat(pixels) ==> exists|a: int, b: int|
            0 <= a < pixels.len() / 4 && 0 <= b < 4 && #[trigger] pixels[4 * a + b] != pixels[b],
{
    if is_flat(pixels) {
        assert(pixels[4 * i + c] == pixels[(4 * i + c) % 4]);
        assert(pixels[4 * j + c] == pixels[(4 * j + c) % 4]);
    } else {
        let k = choose|k: int|
            0 <= k < 4 * (pixels.len() / 4) && #[trigger] pixels[k] != pixels[k % 4];
        let a = k / 4;
        let b = k % 4;
        assert(4 * a + b == k);
        assert(pixels[4 * a + b] != pixels[b]);
    }
}

/// A shader's words are its bytes four by four, the first of each four worth the least; a rest is
/// dropped.
pub proof fn law_words(bytes: Seq<u8>, i: int)
    requires
        0 <= i < bytes.len() / 4,
    ensures
        words_of(bytes).len() == bytes.len() / 4,
        words_of(bytes)[i] == word_at(bytes, 4 * i),
{
    crate::bytes::law_from_le32_round_trip(bytes.subrange(4 * i, 4 * i + 4));
}

/// A texel is covered where each of its four channels is finite.
pub proof fn law_covered_texels(t: [u32; 4])
    ensures
        is_covered(t) <==> forall|c: int| 0 <= c < 4 ==> is_finite(#[trigger] t[c]),
        NAN_BITS == 0x7FC0_0000,
{
    if forall|c: int| 0 <= c < 4 ==> is_finite(#[trigger] t[c]) {
        assert(is_finite(t[0]) && is_finite(t[1]) && is_finite(t[2]) && is_finite(t[3]));
    }
    if is_covered(t) {
        assert forall|c: int| 0 <= c < 4 implies is_finite(#[trigger] t[c]) by {
            assert(c == 0 || c == 1 || c == 2 || c == 3);
        }
    }
}

} // verus!
