//! What a host pipeline is built from.

use vstd::prelude::*;

use crate::gpu::commands::{
    PipelineDesc, PrimitiveTopology, PushConstantRange, StorageBinding, TextureBinding,
    VertexAttribute, VertexBufferLayout,
};
use crate::gpu::formats::{
    blend_attachment, blend_attachment_state, vertex_format, vk_vertex_format, BlendAttachment,
};
use crate::gpu::vk::{DescriptorType, Format, SHADER_STAGE_FRAGMENT, SHADER_STAGE_VERTEX};

verus! {

/// One vertex attribute with its host format.
#[derive(Clone, Copy, Debug, PartialEq, Eq, Structural)]
pub struct AttributePlan {
    pub location: u32,
    pub binding: u32,
    pub format: Format,
    pub offset: u32,
}

/// One slot of the pipeline's descriptor set, seen by one shader stage.
#[derive(Clone, Copy, Debug, PartialEq, Eq, Structural)]
pub struct SetBinding {
    pub binding: u32,
    pub kind: DescriptorType,
    pub stages: u32,
}

/// Everything about a pipeline that is not the same for all of them.
#[derive(Debug)]
pub struct PipelinePlan {
    pub vertex_bindings: Vec<VertexBufferLayout>,
    pub vertex_attributes: Vec<AttributePlan>,
    pub topology: i32,
    pub blend: BlendAttachment,
    /// The descriptor set's slots.  Without any, the pipeline has no set.
    pub set_bindings: Vec<SetBinding>,
    /// The push-constant range of the vertex stage.
    pub push_constants: Option<PushConstantRange>,
}

pub open spec fn attribute_plan(a: VertexAttribute) -> AttributePlan {
    AttributePlan {
        location: a.location,
        binding: a.binding,
        format: vertex_format(a.format),
        offset: a.offset,
    }
}

/// A shader that fetches its vertices itself declares no vertex input at all.
pub open spec fn vertex_bindings(desc: PipelineDesc) -> Seq<VertexBufferLayout> {
    match desc.vertex_layout {
        Some(layout) if desc.vertex_storage@.len() == 0 => layout.bindings@,
        _ => Seq::empty(),
    }
}

pub open spec fn vertex_attributes(desc: PipelineDesc) -> Seq<AttributePlan> {
    match desc.vertex_layout {
        Some(layout) if desc.vertex_storage@.len() == 0 => layout.attributes@.map_values(
            |a: VertexAttribute| attribute_plan(a),
        ),
        _ => Seq::empty(),
    }
}

pub open spec fn stream_slot(s: StorageBinding) -> SetBinding {
    SetBinding {
        binding: s.binding,
        kind: DescriptorType::StorageBuffer,
        stages: SHADER_STAGE_VERTEX,
    }
}

pub open spec fn texture_slot(t: TextureBinding) -> SetBinding {
    SetBinding {
        binding: t.binding,
        kind: DescriptorType::CombinedImageSampler,
        stages: SHADER_STAGE_FRAGMENT,
    }
}

pub open spec fn const_slot(s: Option<StorageBinding>, stages: u32) -> Seq<SetBinding> {
    match s {
        Some(s) => seq![
            SetBinding { binding: s.binding, kind: DescriptorType::StorageBuffer, stages },
        ],
        None => Seq::empty(),
    }
}

/// The set's slots: the vertex streams, the vertex stage's constants, the fragment
/// stage's constants, the textures.  Each is declared for the stage that reads it.
pub open spec fn set_bindings(desc: PipelineDesc) -> Seq<SetBinding> {
    desc.vertex_storage@.map_values(|s: StorageBinding| stream_slot(s)) + const_slot(
        desc.const_storage,
        SHADER_STAGE_VERTEX,
    ) + const_slot(desc.const_storage_fragment, SHADER_STAGE_FRAGMENT)
        + desc.textures@.map_values(|t: TextureBinding| texture_slot(t))
}

/// The number of the matching `VkPrimitiveTopology`.
pub open spec fn topology_raw(topology: PrimitiveTopology) -> i32 {
    match topology {
        PrimitiveTopology::TriangleList => 3,
        PrimitiveTopology::TriangleStrip => 4,
    }
}

fn copy_bindings(src: &Vec<VertexBufferLayout>) -> (out: Vec<VertexBufferLayout>)
    ensures
        out@ == src@,
{
    let mut out: Vec<VertexBufferLayout> = Vec::new();
    let mut i: usize = 0;
    while i < src.len()
        invariant
            i <= src@.len(),
            out@ == src@.take(i as int),
        decreases src@.len() - i,
    {
        out.push(src[i]);
        i = i + 1;
    }
    assert(src@.take(i as int) == src@);
    out
}

fn plan_attributes(src: &Vec<VertexAttribute>) -> (out: Vec<AttributePlan>)
    ensures
        out@ == src@.map_values(|a: VertexAttribute| attribute_plan(a)),
{
    let mut out: Vec<AttributePlan> = Vec::new();
    let mut i: usize = 0;
    while i < src.len()
        invariant
            i <= src@.len(),
            out@.len() == i,
            forall|k: int| 0 <= k < i ==> #[trigger] out@[k] == attribute_plan(src@[k]),
        decreases src@.len() - i,
    {
        let a = src[i];
        out.push(
            AttributePlan {
                location: a.location,
                binding: a.binding,
                format: vk_vertex_format(a.format),
                offset: a.offset,
            },
        );
        i = i + 1;
    }
    assert(out@ =~= src@.map_values(|a: VertexAttribute| attribute_plan(a)));
    out
}

/// The parts of a pipeline that its description decides.
pub fn create_host_pipeline(desc: &PipelineDesc) -> (plan: PipelinePlan)
    ensures
        plan.vertex_bindings@ == vertex_bindings(*desc),
        plan.vertex_attributes@ == vertex_attributes(*desc),
        plan.topology == topology_raw(desc.topology),
        desc.topology is TriangleList ==> plan.topology == 3,
        desc.topology is TriangleStrip ==> plan.topology == 4,
        plan.blend == blend_attachment(desc.blend),
        plan.set_bindings@ == set_bindings(*desc),
        plan.push_constants == desc.push_constants,
{
    let fetches: bool = desc.vertex_storage.len() > 0;
    let (vertex_inputs, attributes) = match &desc.vertex_layout {
        Some(layout) if !fetches => (
            copy_bindings(&layout.bindings),
            plan_attributes(&layout.attributes),
        ),
        _ => (Vec::new(), Vec::new()),
    };
    let mut slots: Vec<SetBinding> = Vec::new();
    let ghost streams = desc.vertex_storage@.map_values(|s: StorageBinding| stream_slot(s));
    let mut i: usize = 0;
    while i < desc.vertex_storage.len()
        invariant
            i <= desc.vertex_storage@.len(),
            streams == desc.vertex_storage@.map_values(|s: StorageBinding| stream_slot(s)),
            slots@ == streams.take(i as int),
        decreases desc.vertex_storage@.len() - i,
    {
        slots.push(
            SetBinding {
                binding: desc.vertex_storage[i].binding,
                kind: DescriptorType::StorageBuffer,
                stages: SHADER_STAGE_VERTEX,
            },
        );
        assert(streams.take(i + 1) == streams.take(i as int).push(streams[i as int]));
        i = i + 1;
    }
    assert(streams.take(i as int) == streams);
    if let Some(s) = desc.const_storage {
        slots.push(
            SetBinding {
                binding: s.binding,
                kind: DescriptorType::StorageBuffer,
                stages: SHADER_STAGE_VERTEX,
            },
        );
    }
    assert(slots@ =~= streams + const_slot(desc.const_storage, SHADER_STAGE_VERTEX));
    if let Some(s) = desc.const_storage_fragment {
        slots.push(
            SetBinding {
                binding: s.binding,
                kind: DescriptorType::StorageBuffer,
                stages: SHADER_STAGE_FRAGMENT,
            },
        );
    }
    let ghost buffers = streams + const_slot(desc.const_storage, SHADER_STAGE_VERTEX)
        + const_slot(desc.const_storage_fragment, SHADER_STAGE_FRAGMENT);
    assert(slots@ =~= buffers);
    let ghost textures = desc.textures@.map_values(|t: TextureBinding| texture_slot(t));
    let mut j: usize = 0;
    assert(buffers + textures.take(0) =~= buffers);
    while j < desc.textures.len()
        invariant
            j <= desc.textures@.len(),
            textures == desc.textures@.map_values(|t: TextureBinding| texture_slot(t)),
            slots@ == buffers + textures.take(j as int),
        decreases desc.textures@.len() - j,
    {
        slots.push(
            SetBinding {
                binding: desc.textures[j].binding,
                kind: DescriptorType::CombinedImageSampler,
                stages: SHADER_STAGE_FRAGMENT,
            },
        );
        assert(textures.take(j + 1) == textures.take(j as int).push(textures[j as int]));
        assert(buffers + textures.take(j + 1) =~= slots@);
        j = j + 1;
    }
    assert(textures.take(j as int) == textures);
    let topology: i32 = match desc.topology {
        PrimitiveTopology::TriangleList => 3,
        PrimitiveTopology::TriangleStrip => 4,
    };
    PipelinePlan {
        vertex_bindings: vertex_inputs,
        vertex_attributes: attributes,
        topology,
        blend: blend_attachment_state(desc.blend),
        set_bindings: slots,
        push_constants: desc.push_constants,
    }
}

/// A pipeline declares exactly as many slots as a draw with it must fill: the counts a
/// draw is held to leave no slot unwritten.
pub proof fn law_slots_match_needs(desc: PipelineDesc)
    ensures
        set_bindings(desc).len() == desc.vertex_storage@.len() + crate::gpu::resources::const_count(
            desc,
        ) + desc.textures@.len(),
{
}

/// The topology of a plan is Vulkan's: 3 for a triangle list and 4 for a triangle strip.
pub proof fn law_topology_is_vulkans(a: PrimitiveTopology, b: PrimitiveTopology)
    ensures
        topology_raw(a) == 3 <==> a is TriangleList,
        topology_raw(a) == 4 <==> a is TriangleStrip,
        topology_raw(a) == topology_raw(b) ==> a == b,
{
}

/// Every slot that a description declares is in the set, under its binding: vertex streams and
/// the vertex stage's constants as storage buffers that the vertex stage (1) reads, the
/// fragment stage's constants as one that the fragment stage (0x10) reads, textures as
/// combined image samplers of the fragment stage.  The set holds nothing else.
pub proof fn law_slots_are_what_is_declared(desc: PipelineDesc)
    ensures
        ({
            let slots = set_bindings(desc);
            let v = desc.vertex_storage@.len() as int;
            let c = if desc.const_storage is Some {
                1int
            } else {
                0
            };
            let f = if desc.const_storage_fragment is Some {
                1int
            } else {
                0
            };
            &&& slots.len() == v + c + f + desc.textures@.len()
            &&& forall|i: int|
                0 <= i < v ==> (#[trigger] slots[i]).binding == desc.vertex_storage@[i].binding
                    && slots[i].kind is StorageBuffer && slots[i].stages == 1
            &&& desc.const_storage matches Some(s) ==> slots[v].binding == s.binding
                && slots[v].kind is StorageBuffer && slots[v].stages == 1
            &&& desc.const_storage_fragment matches Some(s) ==> slots[v + c].binding == s.binding
                && slots[v + c].kind is StorageBuffer && slots[v + c].stages == 0x10
            &&& forall|i: int|
                0 <= i < desc.textures@.len() ==> (#[trigger] slots[v + c + f + i]).binding
                    == desc.textures@[i].binding && slots[v + c + f + i].kind
                    is CombinedImageSampler && slots[v + c + f + i].stages == 0x10
        }),
{
}

/// The vertex input of a pipeline is its description's, attribute by attribute; a shader that
/// fetches its vertices itself, and one without a layout, has none.
pub proof fn law_vertex_input_is_the_layouts(desc: PipelineDesc)
    ensures
        desc.vertex_storage@.len() > 0 || desc.vertex_layout is None ==> vertex_bindings(desc).len()
            == 0 && vertex_attributes(desc).len() == 0,
        desc.vertex_storage@.len() == 0 ==> (desc.vertex_layout matches Some(layout) ==> {
            &&& vertex_bindings(desc) == layout.bindings@
            &&& vertex_attributes(desc).len() == layout.attributes@.len()
            &&& forall|i: int|
                0 <= i < layout.attributes@.len() ==> {
                    let a = #[trigger] vertex_attributes(desc)[i];
                    &&& a.location == layout.attributes@[i].location
                    &&& a.binding == layout.attributes@[i].binding
                    &&& a.offset == layout.attributes@[i].offset
                    &&& a.format == vertex_format(layout.attributes@[i].format)
                }
        }),
{
}

} // verus!
