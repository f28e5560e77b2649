//! Drawing off screen: the plans by which the shader test tools run one shader at a time
//! and read its result, which shaders they run, and what they make of it all.
//!
//! A plan is a list of steps.  The caller issues each step as the one device command it
//! names, in order.  Floating-point numbers are held by their bits.

use crate::bytes::{from_le32, read_le32};
use crate::gpu::commands::{BackendCmd, BlendKey, PipelineDesc, PrimitiveTopology};
use crate::gpu::harness::{
    ends_in, fill_push_constants, pc_ranges_for, push_constant_size, push_constants_of,
    push_vertex, rotated_vertices, rotations, sampler_plan, stage_from_name, vertex_bytes,
    PushConstantField, SamplerPlan, ShaderStage, RT_DIM,
};
use crate::kernel::path::{in_order, law_names_are_ordered, not_after};
use vstd::prelude::*;

verus! {

broadcast use vstd::string::group_string_axioms;

/// What a target starts as.
#[derive(Clone, Copy, Debug, PartialEq, Eq, Structural)]
pub enum Clear {
    /// Every channel is no number, so that whatever is drawn can be told from it.
    NoNumbers,
    /// Every channel is zero.
    Transparent,
    /// Black.
    Opaque,
}

/// One device command of an off-screen draw.
#[derive(Clone, Copy, Debug, PartialEq, Eq, Structural)]
#[allow(inconsistent_fields)]
pub enum OffscreenStep {
    /// Begin a pass over the whole target, which ends ready to be copied.
    Begin { width: u32, height: u32, clear: Clear },
    SetViewport { width: u32, height: u32 },
    SetScissor { width: u32, height: u32 },
    BindPipeline,
    BindSet,
    /// Push all the push constants of the plan to the vertex stage.
    PushConstants,
    Draw { vertex_count: u32, first_vertex: u32 },
    End,
    /// Copy the whole target to the buffer it is read from.
    CopyOut { width: u32, height: u32 },
}

/// The side of the target that a vertex shader draws to.
pub const VS_DIM: u32 = 64;

/// The start of a pass, with its viewport and scissor over the whole target.
pub open spec fn pass_start(width: u32, height: u32, clear: Clear) -> Seq<OffscreenStep> {
    seq![
        OffscreenStep::Begin { width, height, clear },
        OffscreenStep::SetViewport { width, height },
        OffscreenStep::SetScissor { width, height },
    ]
}

/// Begin a pass over the whole target.
fn begin_pass(width: u32, height: u32, clear: Clear) -> (steps: Vec<OffscreenStep>)
    ensures
        steps@ == pass_start(width, height, clear),
{
    let mut steps: Vec<OffscreenStep> = Vec::new();
    steps.push(OffscreenStep::Begin { width, height, clear });
    steps.push(OffscreenStep::SetViewport { width, height });
    steps.push(OffscreenStep::SetScissor { width, height });
    assert(steps@ =~= pass_start(width, height, clear));
    steps
}

/// The steps that copy a target out.
pub open spec fn copy_out(width: u32, height: u32) -> Seq<OffscreenStep> {
    seq![OffscreenStep::CopyOut { width, height }]
}

/// Read a target back.
pub fn readback(width: u32, height: u32) -> (steps: Vec<OffscreenStep>)
    ensures
        steps@ == copy_out(width, height),
{
    let mut steps: Vec<OffscreenStep> = Vec::new();
    steps.push(OffscreenStep::CopyOut { width, height });
    assert(steps@ =~= copy_out(width, height));
    steps
}

/// A word of a texel of four numbers.
pub open spec fn texel_word(bytes: Seq<u8>, texel: int, channel: int) -> int {
    let at = 16 * texel + 4 * channel;
    from_le32(bytes.subrange(at, at + 4))
}

/// The texels of four numbers that were copied out.
pub fn texels(bytes: &[u8], count: usize) -> (out: Vec<[u32; 4]>)
    requires
        count * 16 <= bytes@.len(),
    ensures
        out@.len() == count,
        forall|i: int, c: int|
            0 <= i < count && 0 <= c < 4 ==> #[trigger] out@[i][c] == texel_word(bytes@, i, c),
{
    let len: usize = bytes.len();
    let mut out: Vec<[u32; 4]> = Vec::new();
    let mut i: usize = 0;
    while i < count
        invariant
            len == bytes@.len(),
            count * 16 <= len,
            i <= count,
            out@.len() == i,
            forall|k: int, c: int|
                0 <= k < i && 0 <= c < 4 ==> #[trigger] out@[k][c] == texel_word(bytes@, k, c),
        decreases count - i,
    {
        let at: usize = 16 * i;
        let texel: [u32; 4] = [
            read_le32(bytes, at),
            read_le32(bytes, at + 4),
            read_le32(bytes, at + 8),
            read_le32(bytes, at + 12),
        ];
        out.push(texel);
        i = i + 1;
    }
    out
}

/// A draw that shows what a vertex shader makes of one vertex: the triangle that has this
/// vertex first.
pub open spec fn vs_draw(dim: u32, push: bool, vertex: int) -> Seq<OffscreenStep> {
    pass_start(dim, dim, Clear::NoNumbers) + seq![
        OffscreenStep::BindPipeline,
        OffscreenStep::BindSet,
    ] + (if push {
        seq![OffscreenStep::PushConstants]
    } else {
        Seq::empty()
    }) + seq![
        OffscreenStep::Draw { vertex_count: 3, first_vertex: (3 * vertex) as u32 },
        OffscreenStep::End,
    ]
}

/// How a vertex shader is run: what its buffer holds, what is pushed to it, and one draw
/// for each vertex, each to be read back before the next.
#[derive(Debug)]
pub struct VsPlan {
    pub vertices: Vec<u8>,
    pub push: Vec<u8>,
    pub readback_bytes: u64,
    pub draws: Vec<Vec<OffscreenStep>>,
}

/// The fields lie within the push constants that they make up.
pub open spec fn fields_fit(fields: Seq<PushConstantField>) -> bool {
    &&& forall|i: int|
        0 <= i < fields.len() ==> (#[trigger] fields[i]).offset_bytes + fields[i].size_bytes
            <= u32::MAX
    &&& forall|i: int|
        0 <= i < fields.len() ==> (#[trigger] fields[i]).offset_bytes + 4 <= push_constant_size(
            fields,
        )
}

/// Plan to run a vertex shader on some vertices.
pub fn render_vs(
    fields: &Vec<PushConstantField>,
    positions: &Vec<[u32; 4]>,
    dim: u32,
    dst_sel: u32,
) -> (plan: VsPlan)
    requires
        fields_fit(fields@),
        positions@.len() * 3 <= u32::MAX,
        positions@.len() * 3 + 3 <= usize::MAX,
        dim * dim * 16 <= u64::MAX,
    ensures
        plan.vertices@ == vertex_bytes(rotations(positions@)),
        plan.push@ == (if fields@.len() == 0 {
            Seq::empty()
        } else {
            push_constants_of(
                fields@,
                push_constant_size(fields@) as nat,
                (3 * positions@.len()) as u32,
                dst_sel,
            )
        }),
        plan.readback_bytes == dim * dim * 16,
        plan.draws@.len() == positions@.len(),
        forall|i: int|
            0 <= i < positions@.len() ==> (#[trigger] plan.draws@[i])@ == vs_draw(
                dim,
                fields@.len() > 0,
                i,
            ),
{
    let n: usize = positions.len();
    let vertices = rotated_vertices(positions);
    let records: u32 = (3 * n) as u32;
    let push: Vec<u8> = match pc_ranges_for(fields) {
        Some(size) => fill_push_constants(fields, size, records, dst_sel),
        None => Vec::new(),
    };
    let pushes: bool = fields.len() > 0;
    let mut draws: Vec<Vec<OffscreenStep>> = Vec::new();
    let mut i: usize = 0;
    while i < n
        invariant
            n == positions@.len(),
            n * 3 <= u32::MAX,
            pushes == (fields@.len() > 0),
            i <= n,
            draws@.len() == i,
            forall|k: int| 0 <= k < i ==> (#[trigger] draws@[k])@ == vs_draw(dim, pushes, k),
        decreases n - i,
    {
        let mut steps = begin_pass(dim, dim, Clear::NoNumbers);
        steps.push(OffscreenStep::BindPipeline);
        steps.push(OffscreenStep::BindSet);
        if pushes {
            steps.push(OffscreenStep::PushConstants);
        }
        steps.push(OffscreenStep::Draw { vertex_count: 3, first_vertex: (3 * i) as u32 });
        steps.push(OffscreenStep::End);
        assert(steps@ =~= vs_draw(dim, pushes, i as int));
        draws.push(steps);
        i = i + 1;
    }
    let ghost side = dim as int;
    assert(side * side <= u64::MAX) by (nonlinear_arith)
        requires
            side * side * 16 <= u64::MAX,
    ;
    let area: u64 = (dim as u64) * (dim as u64);
    VsPlan { vertices, push, readback_bytes: area * 16, draws }
}

/// Every vertex leads a triangle of its own: the draw for it starts at that vertex, and goes
/// on to the two that follow it.
pub proof fn law_every_vertex_leads_a_triangle(positions: Seq<[u32; 4]>, i: int)
    requires
        positions.len() >= 3,
        0 <= i < positions.len(),
    ensures
        rotations(positions)[3 * i] == positions[i],
        rotations(positions)[3 * i + 1] == positions[if i + 1 < positions.len() {
            i + 1
        } else {
            0
        }],
        rotations(positions)[3 * i + 2] == positions[if i + 2 < positions.len() {
            i + 2
        } else {
            i + 2 - positions.len()
        }],
{
    let n = positions.len() as int;
    assert((3 * i) / 3 == i && (3 * i) % 3 == 0);
    assert((3 * i + 1) / 3 == i && (3 * i + 1) % 3 == 1);
    assert((3 * i + 2) / 3 == i && (3 * i + 2) % 3 == 2);
    lemma_wrap(i, n);
    lemma_wrap(i + 1, n);
    lemma_wrap(i + 2, n);
}

proof fn lemma_wrap(k: int, n: int)
    requires
        0 <= k < 2 * n,
    ensures
        k % n == (if k < n {
            k
        } else {
            k - n
        }),
{
    if k < n {
        vstd::arithmetic::div_mod::lemma_small_mod(k as nat, n as nat);
    } else {
        vstd::arithmetic::div_mod::lemma_small_mod((k - n) as nat, n as nat);
        vstd::arithmetic::div_mod::lemma_mod_add_multiples_vanish(k - n, n);
    }
}

/// What a fragment shader reads at a location.
pub type Interpolant = (u32, [u32; 4]);

/// The locations rise.
pub open spec fn rising(s: Seq<Interpolant>) -> bool {
    forall|i: int, j: int| 0 <= i < j < s.len() ==> (#[trigger] s[i]).0 < (#[trigger] s[j]).0
}

/// The values by location.
pub open spec fn by_location(s: Seq<Interpolant>) -> Map<u32, [u32; 4]>
    decreases s.len(),
{
    if s.len() == 0 {
        Map::empty()
    } else {
        by_location(s.drop_last()).insert(s.last().0, s.last().1)
    }
}

proof fn lemma_by_location(s: Seq<Interpolant>, loc: u32)
    requires
        rising(s),
    ensures
        by_location(s).contains_key(loc) <==> exists|i: int|
            0 <= i < s.len() && (#[trigger] s[i]).0 == loc,
        forall|i: int|
            0 <= i < s.len() && (#[trigger] s[i]).0 == loc ==> by_location(s)[loc] == s[i].1,
    decreases s.len(),
{
    if s.len() > 0 {
        let front = s.drop_last();
        lemma_by_location(front, loc);
        if s.last().0 == loc {
            assert(s[s.len() - 1].0 == loc);
        } else if by_location(front).contains_key(loc) {
            let i = choose|i: int| 0 <= i < front.len() && (#[trigger] front[i]).0 == loc;
            assert(s[i].0 == loc);
        }
        assert forall|i: int| 0 <= i < s.len() && (#[trigger] s[i]).0 == loc implies by_location(
            s,
        )[loc] == s[i].1 by {
            if i < front.len() {
                assert(front[i].0 == loc);
                assert(s[i].0 < s[s.len() - 1].0);
            }
        }
        if exists|i: int| 0 <= i < s.len() && (#[trigger] s[i]).0 == loc {
            let i = choose|i: int| 0 <= i < s.len() && (#[trigger] s[i]).0 == loc;
            if i < front.len() {
                assert(front[i].0 == loc);
            }
        }
    }
}

/// Set the value at a location.
pub fn set_interpolant(list: &mut Vec<Interpolant>, location: u32, value: [u32; 4])
    requires
        rising(old(list)@),
    ensures
        rising(final(list)@),
        by_location(final(list)@) == by_location(old(list)@).insert(location, value),
{
    let ghost before = list@;
    let mut at: usize = 0;
    while at < list.len() && list[at].0 < location
        invariant
            list@ == before,
            at <= list@.len(),
            forall|k: int| 0 <= k < at ==> (#[trigger] list@[k]).0 < location,
        decreases list@.len() - at,
    {
        at = at + 1;
    }
    if at < list.len() && list[at].0 == location {
        list.set(at, (location, value));
    } else {
        list.insert(at, (location, value));
    }
    proof {
        let after = list@;
        assert forall|i: int, j: int| 0 <= i < j < after.len() implies (#[trigger] after[i]).0 < (
        #[trigger] after[j]).0 by {
            if after.len() == before.len() {
                assert(before[i].0 < before[j].0);
            } else {
                let p = if i < at {
                    i
                } else {
                    i - 1
                };
                let q = if j < at {
                    j
                } else {
                    j - 1
                };
                if i != at && j != at {
                    assert(before[p].0 < before[q].0);
                } else if i == at {
                    assert(after[j] == before[q]);
                    if q != at {
                        assert(before[at as int].0 < before[q].0);
                    }
                }
            }
        }
        let want = by_location(before).insert(location, value);
        assert forall|loc: u32| #[trigger]
            by_location(after).contains_key(loc) == want.contains_key(loc) && (want.contains_key(
                loc,
            ) ==> by_location(after)[loc] == want[loc]) by {
            lemma_by_location(before, loc);
            lemma_by_location(after, loc);
            assert(after[at as int].0 == location);
            if loc != location {
                if by_location(before).contains_key(loc) {
                    let i = choose|i: int| 0 <= i < before.len() && (#[trigger] before[i]).0 == loc;
                    let j = if after.len() == before.len() || i < at {
                        i
                    } else {
                        i + 1
                    };
                    assert(after[j] == before[i]);
                }
                if by_location(after).contains_key(loc) {
                    let j = choose|j: int| 0 <= j < after.len() && (#[trigger] after[j]).0 == loc;
                    let i = if after.len() == before.len() || j < at {
                        j
                    } else {
                        j - 1
                    };
                    assert(after[j] == before[i]);
                }
            }
        }
        assert(by_location(after) =~= want);
    }
}

/// Why a fragment shader cannot be run.
#[derive(Clone, Copy, Debug, PartialEq, Eq, Structural)]
pub enum PsError {
    /// It has this many samplers, and there is one texture at most.
    TooManySamplers(usize),
    /// It has a sampler, and there is no texture.
    NoTexture,
}

/// How a fragment shader is run: the locations that the vertex shader before it forwards,
/// what is pushed for them, the binding that the texture is sampled at, and the draw.
#[derive(Debug)]
pub struct PsPlan {
    pub locations: Vec<u32>,
    pub push: Vec<u8>,
    pub binding: Option<u32>,
    pub readback_bytes: u64,
    pub draw: Vec<OffscreenStep>,
}

/// The draw that a fragment shader is run by: one triangle over a target of one texel.
pub open spec fn ps_draw(sampled: bool, push: bool) -> Seq<OffscreenStep> {
    pass_start(1, 1, Clear::Transparent) + seq![OffscreenStep::BindPipeline] + (if sampled {
        seq![OffscreenStep::BindSet]
    } else {
        Seq::empty()
    }) + (if push {
        seq![OffscreenStep::PushConstants]
    } else {
        Seq::empty()
    }) + seq![
        OffscreenStep::Draw { vertex_count: 3, first_vertex: 0 },
        OffscreenStep::End,
    ]
}

/// Plan to run a fragment shader.
pub fn render_ps(interpolants: &Vec<Interpolant>, bindings: &Vec<u32>, has_texture: bool) -> (r:
    Result<PsPlan, PsError>)
    requires
        rising(interpolants@),
    ensures
        match r {
            Ok(plan) => {
                &&& bindings@.len() == 0 || (bindings@.len() == 1 && has_texture)
                &&& plan.locations@ == interpolants@.map_values(|v: Interpolant| v.0)
                &&& plan.push@ == vertex_bytes(interpolants@.map_values(|v: Interpolant| v.1))
                &&& plan.binding == (if bindings@.len() == 0 {
                    None
                } else {
                    Some(bindings@[0])
                })
                &&& plan.readback_bytes == 16
                &&& plan.draw@ == ps_draw(bindings@.len() > 0, interpolants@.len() > 0)
            },
            Err(PsError::TooManySamplers(n)) => bindings@.len() > 1 && n == bindings@.len(),
            Err(PsError::NoTexture) => bindings@.len() == 1 && !has_texture,
        },
{
    let binding: Option<u32> = match sampler_plan(bindings, has_texture) {
        SamplerPlan::Unsampled => None,
        SamplerPlan::Bind(at) => Some(at),
        SamplerPlan::TooMany => {
            return Err(PsError::TooManySamplers(bindings.len()));
        },
        SamplerPlan::NoTexture => {
            return Err(PsError::NoTexture);
        },
    };
    let ghost firsts = interpolants@.map_values(|v: Interpolant| v.0);
    let ghost values = interpolants@.map_values(|v: Interpolant| v.1);
    let mut locations: Vec<u32> = Vec::new();
    let mut push: Vec<u8> = Vec::new();
    let mut i: usize = 0;
    assert(values.take(0) =~= Seq::empty());
    while i < interpolants.len()
        invariant
            firsts == interpolants@.map_values(|v: Interpolant| v.0),
            values == interpolants@.map_values(|v: Interpolant| v.1),
            i <= interpolants@.len(),
            locations@ == firsts.take(i as int),
            push@ == vertex_bytes(values.take(i as int)),
        decreases interpolants@.len() - i,
    {
        assert(values.take(i + 1).drop_last() =~= values.take(i as int));
        assert(values.take(i + 1).last() == interpolants@[i as int].1);
        locations.push(interpolants[i].0);
        push_vertex(&mut push, &interpolants[i].1);
        i = i + 1;
    }
    assert(firsts.take(i as int) =~= firsts);
    assert(values.take(i as int) =~= values);
    let mut draw = begin_pass(1, 1, Clear::Transparent);
    draw.push(OffscreenStep::BindPipeline);
    if binding.is_some() {
        draw.push(OffscreenStep::BindSet);
    }
    if interpolants.len() > 0 {
        draw.push(OffscreenStep::PushConstants);
    }
    draw.push(OffscreenStep::Draw { vertex_count: 3, first_vertex: 0 });
    draw.push(OffscreenStep::End);
    assert(draw@ =~= ps_draw(bindings@.len() > 0, interpolants@.len() > 0));
    Ok(PsPlan { locations, push, binding, readback_bytes: 16, draw })
}

/// The draw of the test texture over the whole of its picture.
pub open spec fn checkerboard_draw() -> Seq<OffscreenStep> {
    seq![
        OffscreenStep::Begin { width: RT_DIM, height: RT_DIM, clear: Clear::Opaque },
        OffscreenStep::BindPipeline,
        OffscreenStep::SetViewport { width: RT_DIM, height: RT_DIM },
        OffscreenStep::SetScissor { width: RT_DIM, height: RT_DIM },
        OffscreenStep::BindSet,
        OffscreenStep::Draw { vertex_count: 3, first_vertex: 0 },
        OffscreenStep::End,
    ]
}

/// Plan to draw the test texture.
pub fn render_checkerboard() -> (draw: Vec<OffscreenStep>)
    ensures
        draw@ == checkerboard_draw(),
{
    let mut draw: Vec<OffscreenStep> = Vec::new();
    draw.push(OffscreenStep::Begin { width: RT_DIM, height: RT_DIM, clear: Clear::Opaque });
    draw.push(OffscreenStep::BindPipeline);
    draw.push(OffscreenStep::SetViewport { width: RT_DIM, height: RT_DIM });
    draw.push(OffscreenStep::SetScissor { width: RT_DIM, height: RT_DIM });
    draw.push(OffscreenStep::BindSet);
    draw.push(OffscreenStep::Draw { vertex_count: 3, first_vertex: 0 });
    draw.push(OffscreenStep::End);
    assert(draw@ =~= checkerboard_draw());
    draw
}

/// What a device has been told so far.
#[derive(Clone, Copy, Debug, PartialEq, Eq, Structural)]
pub struct Told {
    pub in_pass: bool,
    pub pipeline: bool,
    pub viewport: bool,
    pub scissor: bool,
    pub set: bool,
    pub pushed: bool,
    /// The target holds a finished picture.
    pub drawn: bool,
}

/// A device that has been told nothing.
pub open spec fn untold() -> Told {
    Told {
        in_pass: false,
        pipeline: false,
        viewport: false,
        scissor: false,
        set: false,
        pushed: false,
        drawn: false,
    }
}

/// What a device has been told after one more step; `None` where the step comes at the
/// wrong time.  A draw needs a pass, a pipeline, a viewport, a scissor, and a set and push
/// constants where the shaders read them; a copy needs a finished picture.
pub open spec fn tell(t: Told, step: OffscreenStep, set: bool, push: bool) -> Option<Told> {
    match step {
        OffscreenStep::Begin { .. } => if t.in_pass {
            None
        } else {
            Some(Told { in_pass: true, drawn: false, ..t })
        },
        OffscreenStep::SetViewport { .. } => Some(Told { viewport: true, ..t }),
        OffscreenStep::SetScissor { .. } => Some(Told { scissor: true, ..t }),
        OffscreenStep::BindPipeline => Some(Told { pipeline: true, ..t }),
        OffscreenStep::BindSet => Some(Told { set: true, ..t }),
        OffscreenStep::PushConstants => Some(Told { pushed: true, ..t }),
        OffscreenStep::Draw { .. } => if t.in_pass && t.pipeline && t.viewport && t.scissor && (set
            ==> t.set) && (push ==> t.pushed) {
            Some(t)
        } else {
            None
        },
        OffscreenStep::End => if t.in_pass {
            Some(Told { in_pass: false, drawn: true, ..t })
        } else {
            None
        },
        OffscreenStep::CopyOut { .. } => if !t.in_pass && t.drawn {
            Some(t)
        } else {
            None
        },
    }
}

/// What a device has been told after all the steps; `None` where one comes at the wrong
/// time.
pub open spec fn tell_all(steps: Seq<OffscreenStep>, set: bool, push: bool) -> Option<Told>
    decreases steps.len(),
{
    if steps.len() == 0 {
        Some(untold())
    } else {
        match tell_all(steps.drop_last(), set, push) {
            Some(t) => tell(t, steps.last(), set, push),
            None => None,
        }
    }
}

/// A step of a list is told after those before it.
proof fn lemma_tell_at(steps: Seq<OffscreenStep>, i: int, set: bool, push: bool)
    requires
        0 <= i < steps.len(),
    ensures
        tell_all(steps.take(i + 1), set, push) == (match tell_all(steps.take(i), set, push) {
            Some(t) => tell(t, steps[i], set, push),
            None => None,
        }),
{
    assert(steps.take(i + 1).drop_last() =~= steps.take(i));
}

/// What a device has been told after the first few steps of a list.
proof fn lemma_told(steps: Seq<OffscreenStep>, n: int, set: bool, push: bool)
    requires
        0 <= n <= steps.len() <= 9,
    ensures
        tell_all(steps.take(n), set, push) == told_by(steps, n, set, push),
    decreases n,
{
    if n > 0 {
        lemma_told(steps, n - 1, set, push);
        lemma_tell_at(steps, n - 1, set, push);
    }
}

/// `tell_all` of the first `n` steps of a list.
spec fn told_by(steps: Seq<OffscreenStep>, n: int, set: bool, push: bool) -> Option<Told>
    decreases n,
{
    if n <= 0 {
        Some(untold())
    } else {
        match told_by(steps, n - 1, set, push) {
            Some(t) => tell(t, steps[n - 1], set, push),
            None => None,
        }
    }
}

/// Every draw is complete when it comes, and what is copied out is a finished picture.
pub proof fn law_offscreen_draws_are_complete(
    dim: u32,
    vertex: int,
    sampled: bool,
    push: bool,
)
    ensures
        tell_all(vs_draw(dim, push, vertex) + copy_out(dim, dim), true, push) is Some,
        tell_all(ps_draw(sampled, push) + copy_out(1, 1), sampled, push) is Some,
        tell_all(checkerboard_draw() + copy_out(RT_DIM, RT_DIM), true, false) is Some,
{
    let v = vs_draw(dim, push, vertex) + copy_out(dim, dim);
    assert(tell_all(v, true, push) is Some) by {
        lemma_told(v, v.len() as int, true, push);
        assert(v.take(v.len() as int) =~= v);
        reveal_with_fuel(told_by, 10);
    }
    let p = ps_draw(sampled, push) + copy_out(1, 1);
    assert(tell_all(p, sampled, push) is Some) by {
        lemma_told(p, p.len() as int, sampled, push);
        assert(p.take(p.len() as int) =~= p);
        reveal_with_fuel(told_by, 10);
    }
    let c = checkerboard_draw() + copy_out(RT_DIM, RT_DIM);
    assert(tell_all(c, true, false) is Some) by {
        lemma_told(c, c.len() as int, true, false);
        assert(c.take(c.len() as int) =~= c);
        reveal_with_fuel(told_by, 10);
    }
}

/// The bit of a queue family that can draw.
pub const QUEUE_GRAPHICS: u32 = 1;

/// The family can draw.
pub open spec fn draws(flags: u32) -> bool {
    flags & QUEUE_GRAPHICS != 0
}

/// The first queue family of a device that can draw.
pub fn graphics_family(families: &Vec<u32>) -> (r: Option<usize>)
    ensures
        match r {
            Some(i) => {
                &&& i < families@.len()
                &&& draws(families@[i as int])
                &&& forall|j: int| 0 <= j < i ==> !draws(#[trigger] families@[j])
            },
            None => forall|j: int| 0 <= j < families@.len() ==> !draws(#[trigger] families@[j]),
        },
{
    let mut i: usize = 0;
    while i < families.len()
        invariant
            i <= families@.len(),
            forall|j: int| 0 <= j < i ==> !draws(#[trigger] families@[j]),
        decreases families@.len() - i,
    {
        let flags: u32 = families[i];
        if flags & QUEUE_GRAPHICS != 0 {
            return Some(i);
        }
        i = i + 1;
    }
    None
}

/// Some queue family of the device can draw.
pub open spec fn can_draw(families: Seq<u32>) -> bool {
    exists|i: int| 0 <= i < families.len() && draws(#[trigger] families[i])
}

/// The first device that can draw, and the first of its queue families that can.
pub fn pick_device(devices: &Vec<Vec<u32>>) -> (r: Option<(usize, usize)>)
    ensures
        match r {
            Some((d, f)) => {
                &&& d < devices@.len()
                &&& f < devices@[d as int]@.len()
                &&& draws(devices@[d as int]@[f as int])
                &&& forall|j: int| 0 <= j < f ==> !draws(#[trigger] devices@[d as int]@[j])
                &&& forall|j: int| 0 <= j < d ==> !can_draw((#[trigger] devices@[j])@)
            },
            None => forall|j: int|
                0 <= j < devices@.len() ==> !can_draw((#[trigger] devices@[j])@),
        },
{
    let mut d: usize = 0;
    while d < devices.len()
        invariant
            d <= devices@.len(),
            forall|j: int| 0 <= j < d ==> !can_draw((#[trigger] devices@[j])@),
        decreases devices@.len() - d,
    {
        if let Some(f) = graphics_family(&devices[d]) {
            return Some((d, f));
        }
        d = d + 1;
    }
    None
}

/// A file of the corpus: its name without the ending, whether it is a shader's source, and
/// whether the shader has been assembled.
#[derive(Debug)]
pub struct CorpusFile {
    pub name: String,
    pub is_source: bool,
    pub has_code: bool,
}

/// A shader of the corpus.
#[derive(Debug)]
pub struct CorpusShader {
    pub name: String,
    pub stage: ShaderStage,
}

/// The stage that a name says.
pub open spec fn stage_said(name: Seq<char>) -> Option<ShaderStage> {
    if ends_in(name, '_', 'v', 's') {
        Some(ShaderStage::Vertex)
    } else if ends_in(name, '_', 'p', 's') {
        Some(ShaderStage::Fragment)
    } else {
        None
    }
}

/// The names of the files that count: sources that have been assembled.
pub open spec fn counted(files: Seq<CorpusFile>) -> Seq<Seq<char>>
    decreases files.len(),
{
    if files.len() == 0 {
        Seq::empty()
    } else {
        let f = files.last();
        let front = counted(files.drop_last());
        if f.is_source && f.has_code {
            front.push(f.name@)
        } else {
            front
        }
    }
}

/// The names of shaders.
pub open spec fn shader_names(s: Seq<CorpusShader>) -> Seq<Seq<char>> {
    Seq::new(s.len(), |i: int| s[i].name@)
}

/// The names are in order.
pub open spec fn in_name_order(s: Seq<Seq<char>>) -> bool {
    forall|i: int, j: int| 0 <= i < j < s.len() ==> not_after(#[trigger] s[i], #[trigger] s[j])
}

/// A name that counts among some of the files counts among all.
proof fn lemma_counted_grows(files: Seq<CorpusFile>, n: int, name: Seq<char>)
    requires
        0 <= n <= files.len(),
        counted(files.take(n)).contains(name),
    ensures
        counted(files).contains(name),
    decreases files.len(),
{
    if n == files.len() {
        assert(files.take(n) =~= files);
    } else {
        let front = files.drop_last();
        assert(front.take(n) =~= files.take(n));
        lemma_counted_grows(front, n, name);
        let k = choose|k: int| 0 <= k < counted(front).len() && counted(front)[k] == name;
        assert(counted(files)[k] == name);
    }
}

/// The shaders to run: every source that has been assembled, with its stage, in the order
/// of names.  The error is the name of one that says no stage.
pub fn enumerate_corpus(files: &Vec<CorpusFile>) -> (r: Result<Vec<CorpusShader>, String>)
    ensures
        match r {
            Ok(out) => {
                &&& shader_names(out@).to_multiset() == counted(files@).to_multiset()
                &&& in_name_order(shader_names(out@))
                &&& forall|i: int|
                    0 <= i < out@.len() ==> stage_said((#[trigger] out@[i]).name@) == Some(
                        out@[i].stage,
                    )
            },
            Err(name) => counted(files@).contains(name@) && stage_said(name@) is None,
        },
{
    let mut out: Vec<CorpusShader> = Vec::new();
    let mut i: usize = 0;
    assert(files@.take(0) =~= Seq::empty());
    assert(shader_names(out@) =~= Seq::empty());
    while i < files.len()
        invariant
            i <= files@.len(),
            shader_names(out@).to_multiset() == counted(files@.take(i as int)).to_multiset(),
            in_name_order(shader_names(out@)),
            forall|k: int|
                0 <= k < out@.len() ==> stage_said((#[trigger] out@[k]).name@) == Some(
                    out@[k].stage,
                ),
        decreases files@.len() - i,
    {
        let file = &files[i];
        let ghost next = files@.take(i + 1);
        assert(next.drop_last() =~= files@.take(i as int));
        assert(next.last() == files@[i as int]);
        if file.is_source && file.has_code {
            let stage: ShaderStage = match stage_from_name(file.name.as_str()) {
                Some(s) => s,
                None => {
                    proof {
                        let c = counted(next);
                        assert(c[c.len() - 1] == file.name@);
                        assert(c.contains(file.name@));
                        lemma_counted_grows(files@, i + 1, file.name@);
                    }
                    return Err(file.name.clone());
                },
            };
            insert_shader(&mut out, file.name.clone(), stage);
            proof {
                broadcast use vstd::seq_lib::group_to_multiset_ensures;

            }
        }
        i = i + 1;
    }
    assert(files@.take(i as int) =~= files@);
    Ok(out)
}

/// Put a shader where its name belongs.
fn insert_shader(out: &mut Vec<CorpusShader>, name: String, stage: ShaderStage)
    requires
        in_name_order(shader_names(old(out)@)),
        stage_said(name@) == Some(stage),
        forall|k: int|
            0 <= k < old(out)@.len() ==> stage_said((#[trigger] old(out)@[k]).name@) == Some(
                old(out)@[k].stage,
            ),
    ensures
        in_name_order(shader_names(final(out)@)),
        shader_names(final(out)@).to_multiset() == shader_names(old(out)@).to_multiset().insert(
            name@,
        ),
        forall|k: int|
            0 <= k < final(out)@.len() ==> stage_said((#[trigger] final(out)@[k]).name@) == Some(
                final(out)@[k].stage,
            ),
{
    let ghost before = shader_names(out@);
    let ghost id = name@;
    let mut at: usize = 0;
    while at < out.len() && in_order(out[at].name.as_str(), name.as_str())
        invariant
            out@ == old(out)@,
            name@ == id,
            before == shader_names(out@),
            at <= out@.len(),
            forall|k: int| 0 <= k < at ==> not_after(#[trigger] before[k], id),
        decreases out@.len() - at,
    {
        assert(before[at as int] == out@[at as int].name@);
        at = at + 1;
    }
    proof {
        if at < out@.len() {
            assert(before[at as int] == out@[at as int].name@);
            law_names_are_ordered(id, before[at as int], id);
        }
    }
    out.insert(at, CorpusShader { name, stage });
    proof {
        let after = shader_names(out@);
        assert(after =~= before.insert(at as int, id));
        vstd::seq_lib::to_multiset_insert(before, at as int, id);
        assert forall|i: int, j: int| 0 <= i < j < after.len() implies not_after(
            #[trigger] after[i],
            #[trigger] after[j],
        ) by {
            let p = if i < at {
                i
            } else {
                i - 1
            };
            let q = if j < at {
                j
            } else {
                j - 1
            };
            if i != at && j != at {
                assert(not_after(before[p], before[q]));
            } else if i == at {
                assert(after[j] == before[q]);
                if q != at {
                    assert(not_after(before[at as int], before[q]));
                    law_names_are_ordered(id, before[at as int], before[q]);
                }
            } else {
                assert(not_after(before[p], id));
            }
        }
    }
}

/// What became of a shader of the corpus.
#[derive(Clone, Copy, Debug, PartialEq, Eq, Structural)]
pub enum Outcome {
    /// Nothing is known to feed it with, or another one was asked for.
    Skipped,
    /// It uses something that cannot be compiled yet, which is no failure.
    Deferred,
    /// It could not be compiled.
    Uncompiled,
    /// It could not be run.
    Failed,
    /// It was run, and the results differ.
    Diverged,
    /// It was run, and the results agree.
    Agreed,
}

/// The result of a whole run.
#[derive(Clone, Copy, Debug, PartialEq, Eq, Structural)]
pub enum Verdict {
    NothingRan,
    Divergence,
    Agreement,
}

/// The shader was run, or it was tried.
pub open spec fn was_run(o: Outcome) -> bool {
    o == Outcome::Failed || o == Outcome::Diverged || o == Outcome::Agreed
}

/// The shader spoils the run.
pub open spec fn spoils(o: Outcome) -> bool {
    o == Outcome::Uncompiled || o == Outcome::Failed || o == Outcome::Diverged
}

/// Judge a run: it must have run a shader, and none may have failed or diverged.
pub fn judge(outcomes: &Vec<Outcome>) -> (v: Verdict)
    ensures
        v == (if forall|i: int| 0 <= i < outcomes@.len() ==> !was_run(#[trigger] outcomes@[i]) {
            Verdict::NothingRan
        } else if exists|i: int| 0 <= i < outcomes@.len() && spoils(#[trigger] outcomes@[i]) {
            Verdict::Divergence
        } else {
            Verdict::Agreement
        }),
{
    let mut ran: bool = false;
    let mut spoilt: bool = false;
    let mut i: usize = 0;
    while i < outcomes.len()
        invariant
            i <= outcomes@.len(),
            ran == exists|k: int| 0 <= k < i && was_run(#[trigger] outcomes@[k]),
            spoilt == exists|k: int| 0 <= k < i && spoils(#[trigger] outcomes@[k]),
        decreases outcomes@.len() - i,
    {
        let (runs, bad): (bool, bool) = match outcomes[i] {
            Outcome::Skipped | Outcome::Deferred => (false, false),
            Outcome::Uncompiled => (false, true),
            Outcome::Failed | Outcome::Diverged => (true, true),
            Outcome::Agreed => (true, false),
        };
        assert(runs == was_run(outcomes@[i as int]));
        assert(bad == spoils(outcomes@[i as int]));
        ran = ran || runs;
        spoilt = spoilt || bad;
        i = i + 1;
    }
    if !ran {
        Verdict::NothingRan
    } else if spoilt {
        Verdict::Divergence
    } else {
        Verdict::Agreement
    }
}

/// The word that a shader module begins with.
pub const SPIRV_MAGIC: u32 = 0x0723_0203;

/// The number of the pipeline that the smallest command list makes.
pub const LISTED_PIPELINE: u32 = 1;

/// The smallest command list that draws: a pipeline of two shader modules is made, bound,
/// and draws one triangle that needs no buffer.
pub fn handfed_list(
    vs_spirv: Vec<u32>,
    ps_spirv: Vec<u32>,
    blend: BlendKey,
    topology: PrimitiveTopology,
) -> (list: Vec<BackendCmd>)
    requires
        vs_spirv@.len() > 0 && vs_spirv@[0] == SPIRV_MAGIC,
        ps_spirv@.len() > 0 && ps_spirv@[0] == SPIRV_MAGIC,
    ensures
        list@.len() == 3,
        list@[0] matches BackendCmd::CreatePipeline { id, vs_spirv: vs, ps_spirv: ps, desc } && {
            &&& id == LISTED_PIPELINE
            &&& vs == vs_spirv
            &&& ps == ps_spirv
            &&& desc.vertex_layout is None
            &&& desc.blend == blend
            &&& desc.topology == topology
            &&& desc.vertex_storage@.len() == 0
            &&& desc.push_constants is None
            &&& desc.textures@.len() == 0
            &&& desc.const_storage is None
            &&& desc.const_storage_fragment is None
        },
        list@[1] == (BackendCmd::BindPipeline { id: LISTED_PIPELINE }),
        list@[2] == (BackendCmd::DrawAuto { vertex_count: 3 }),
{
    let desc = PipelineDesc {
        vertex_layout: None,
        blend,
        topology,
        vertex_storage: Vec::new(),
        push_constants: None,
        textures: Vec::new(),
        const_storage: None,
        const_storage_fragment: None,
    };
    let mut list: Vec<BackendCmd> = Vec::new();
    list.push(BackendCmd::CreatePipeline { id: LISTED_PIPELINE, vs_spirv, ps_spirv, desc });
    list.push(BackendCmd::BindPipeline { id: LISTED_PIPELINE });
    list.push(BackendCmd::DrawAuto { vertex_count: 3 });
    list
}

/// The draw of a step list, and what it draws to.
pub open spec fn draws_once(
    steps: Seq<OffscreenStep>,
    side: u32,
    clear: Clear,
    first: int,
) -> bool {
    &&& steps.len() > 0
    &&& steps[0] == (OffscreenStep::Begin { width: side, height: side, clear })
    &&& steps.last() is End
    &&& steps[steps.len() - 2] is Draw
    &&& steps[steps.len() - 2]->vertex_count == 3
    &&& steps[steps.len() - 2]->first_vertex == first
    &&& forall|i: int|
        #![trigger steps[i]]
        0 <= i < steps.len() ==> {
            &&& i != steps.len() - 2 ==> steps[i] !is Draw
            &&& i > 0 ==> steps[i] !is Begin
            &&& steps[i] matches OffscreenStep::SetViewport { width, height } ==> width == side
                && height == side
            &&& steps[i] matches OffscreenStep::SetScissor { width, height } ==> width == side
                && height == side
        }
}

/// Every list draws one triangle, of three vertices, over the whole of its target: that of a
/// vertex begins at three times the vertex, on a background of no numbers; that of a fragment
/// shader covers one texel; that of the test texture 256 by 256.
pub proof fn law_offscreen_draws(dim: u32, push: bool, vertex: int, sampled: bool)
    requires
        0 <= 3 * vertex <= u32::MAX,
    ensures
        draws_once(vs_draw(dim, push, vertex), dim, Clear::NoNumbers, 3 * vertex),
        draws_once(ps_draw(sampled, push), 1, Clear::Transparent, 0),
        draws_once(checkerboard_draw(), 256, Clear::Opaque, 0),
        vs_draw(dim, push, vertex).contains(OffscreenStep::PushConstants) <==> push,
        vs_draw(dim, push, vertex).contains(OffscreenStep::BindSet),
        vs_draw(dim, push, vertex).contains(OffscreenStep::BindPipeline),
        ps_draw(sampled, push).contains(OffscreenStep::PushConstants) <==> push,
        ps_draw(sampled, push).contains(OffscreenStep::BindSet) <==> sampled,
        ps_draw(sampled, push).contains(OffscreenStep::BindPipeline),
        checkerboard_draw().contains(OffscreenStep::BindSet),
        copy_out(dim, dim) == seq![OffscreenStep::CopyOut { width: dim, height: dim }],
{
    let v = vs_draw(dim, push, vertex);
    assert(v[3] is BindPipeline);
    assert(v[4] is BindSet);
    if push {
        assert(v[5] is PushConstants);
    }
    let p = ps_draw(sampled, push);
    assert(p[3] is BindPipeline);
    if sampled {
        assert(p[4] is BindSet);
    }
    if push {
        assert(p[if sampled {
            5
        } else {
            4
        }] is PushConstants);
    }
    assert(checkerboard_draw()[4] is BindSet);
}

/// A texel of four numbers takes 16 bytes, and each number four, the first worth the least.
pub proof fn law_texels_are_read(bytes: Seq<u8>, texel: int, channel: int)
    requires
        0 <= texel,
        0 <= channel < 4,
        16 * texel + 16 <= bytes.len(),
    ensures
        ({
            let at = 16 * texel + 4 * channel;
            texel_word(bytes, texel, channel) == bytes[at] + 0x100 * bytes[at + 1] + 0x1_0000
                * bytes[at + 2] + 0x100_0000 * bytes[at + 3]
        }),
{
}

/// The value at a location is the one that stands beside it, and there is none where no entry
/// names the location.
pub proof fn law_values_by_location(s: Seq<Interpolant>, i: int, loc: u32)
    requires
        0 <= i < s.len(),
        forall|a: int, b: int| 0 <= a < b < s.len() ==> (#[trigger] s[a]).0 < (#[trigger] s[b]).0,
    ensures
        by_location(s).contains_key(s[i].0) && by_location(s)[s[i].0] == s[i].1,
        (forall|k: int| 0 <= k < s.len() ==> (#[trigger] s[k]).0 != loc) ==> !by_location(
            s,
        ).contains_key(loc),
{
    lemma_by_location(s, s[i].0);
    lemma_by_location(s, loc);
}

/// A file counts exactly where it is a source that has been assembled.
pub proof fn law_counted_files(files: Seq<CorpusFile>, name: Seq<char>)
    ensures
        counted(files).contains(name) <==> exists|i: int|
            0 <= i < files.len() && (#[trigger] files[i]).name@ == name && files[i].is_source
                && files[i].has_code,
    decreases files.len(),
{
    if files.len() > 0 {
        let front = files.drop_last();
        let f = files.last();
        law_counted_files(front, name);
        assert(forall|i: int| 0 <= i < front.len() ==> #[trigger] front[i] == files[i]);
        let c = counted(files);
        if f.is_source && f.has_code {
            assert(c.last() == f.name@);
            assert(forall|k: int|
                0 <= k < counted(front).len() ==> #[trigger] counted(front)[k] == c[k]);
            if c.contains(name) {
                let k = choose|k: int| 0 <= k < c.len() && c[k] == name;
                if k < counted(front).len() {
                    assert(counted(front)[k] == name);
                } else {
                    assert(files[files.len() - 1].name@ == name);
                }
            }
            if counted(front).contains(name) {
                let k = choose|k: int| 0 <= k < counted(front).len() && counted(front)[k] == name;
                assert(c[k] == name);
            }
        }
        if exists|i: int|
            0 <= i < files.len() && (#[trigger] files[i]).name@ == name && files[i].is_source
                && files[i].has_code {
            let i = choose|i: int|
                0 <= i < files.len() && (#[trigger] files[i]).name@ == name && files[i].is_source
                    && files[i].has_code;
            if i < front.len() {
                assert(front[i].name@ == name);
            } else {
                assert(c[c.len() - 1] == name);
            }
        }
    }
}

/// A name says a stage by its last three characters, "_vs" or "_ps".
pub proof fn law_names_say_stages(stem: Seq<char>, name: Seq<char>)
    ensures
        stage_said(stem + seq!['_', 'v', 's']) == Some(ShaderStage::Vertex),
        stage_said(stem + seq!['_', 'p', 's']) == Some(ShaderStage::Fragment),
        stage_said(name) == Some(ShaderStage::Vertex) ==> name == name.take(name.len() - 3) + seq![
            '_',
            'v',
            's',
        ],
        stage_said(name) == Some(ShaderStage::Fragment) ==> name == name.take(name.len() - 3)
            + seq!['_', 'p', 's'],
{
}

/// A queue family can draw where the lowest bit of its flags is set.  A shader was run unless it
/// was left out or did not compile; it spoils the run unless it was left out or agreed.
pub proof fn law_outcomes(flags: u32, o: Outcome)
    ensures
        draws(flags) <==> flags % 2 == 1,
        was_run(o) <==> !(o is Skipped || o is Deferred || o is Uncompiled),
        spoils(o) <==> !(o is Skipped || o is Deferred || o is Agreed),
        LISTED_PIPELINE == 1,
        SPIRV_MAGIC == 0x0723_0203,
        VS_DIM == 64,
{
    assert(flags & 1 != 0 <==> flags % 2 == 1) by (bit_vector);
}

} // verus!
