//! The backend's id tables, and what a resource command asks of the device.
//!
//! A resource command is carried out in two halves.  `Resources::request` says what the
//! device has to do for it, which may be nothing; the caller does it and hands the
//! outcome to `Resources::apply`, which updates the tables.  A device that cannot make
//! a buffer or an image leaves the id unbound: later commands that name it find nothing
//! and drop their draw rather than abort.

use std::collections::{HashMap, HashSet};
use vstd::prelude::*;

use crate::gpu::buffer_pool::PooledBuffer;
use crate::gpu::commands::{BackendCmd, PipelineDesc, SamplerDesc};
use crate::gpu::formats::{
    color_format, texture_format, vk_color_format, vk_texture_format,
};
use crate::gpu::vk::{Format, ImageLayout};
use crate::table::Table;

verus! {

broadcast use vstd::std_specs::hash::group_hash_axioms;

/// A built pipeline, and how many bindings of each kind a draw with it must supply.
/// A draw that supplies fewer would read a descriptor nobody wrote.
#[derive(Clone, Copy, Debug, PartialEq, Eq, Structural)]
pub struct HostPipeline {
    pub pipeline: u64,
    pub layout: u64,
    pub set_layout: Option<u64>,
    pub needs_const: u32,
    pub needs_storage: u32,
    pub needs_texture: u32,
}

/// A cache buffer and the size the cache asked for, which bounds its uploads: the
/// region behind it is usually larger.
#[derive(Clone, Copy, Debug, PartialEq, Eq, Structural)]
pub struct CacheBuffer {
    pub pooled: PooledBuffer,
    pub len: u64,
}

/// A sampled image.
#[derive(Clone, Copy, Debug, PartialEq, Eq, Structural)]
pub struct CacheImage {
    pub image: u64,
    pub view: u64,
    pub mem: u64,
    pub width: u32,
    pub height: u32,
}

/// An offscreen render target: one image that is drawn into and sampled from, and the
/// layout it was left in.
#[derive(Clone, Copy, Debug, PartialEq, Eq, Structural)]
pub struct CacheRenderTarget {
    pub image: u64,
    pub view: u64,
    pub mem: u64,
    pub width: u32,
    pub height: u32,
    pub current_layout: ImageLayout,
}

/// Guest memory the device reads in place.
#[derive(Clone, Copy, Debug, PartialEq, Eq, Structural)]
pub struct ImportedBuf {
    pub buffer: u64,
    pub mem: u64,
    pub host_ptr: u64,
}

/// An image the device has made.
#[derive(Clone, Copy, Debug, PartialEq, Eq, Structural)]
pub struct NewImage {
    pub image: u64,
    pub view: u64,
    pub mem: u64,
}

/// What the device has to do for a command.
#[derive(Clone, Copy, Debug, PartialEq, Eq, Structural)]
#[allow(inconsistent_fields)]
pub enum Request {
    /// Nothing: the command only concerns the walk, or asks for what is there already.
    Nothing,
    /// Build the pipeline the command describes.
    BuildPipeline,
    /// Make a buffer of `len` bytes and back it with a pool region.
    MakeBuffer { len: u64 },
    /// Copy the command's bytes into the buffer's mapping, `offset` bytes in.
    WriteBuffer { buffer: PooledBuffer, offset: u64 },
    /// Import this guest range.  It was promised to be importable: a device that
    /// refuses is a fatal error.
    Import { addr: u64, size: u64 },
    /// Wait for the draw fence, where there is one, and destroy these.
    Destroy {
        imported: Option<ImportedBuf>,
        image: Option<CacheImage>,
        render_target: Option<CacheRenderTarget>,
    },
    /// Make a sampled image.
    MakeImage { width: u32, height: u32, format: Format },
    /// Copy the command's pixels into the image and leave it ready to be sampled.
    WriteImage { image: u64, width: u32, height: u32 },
    /// Make a sampler.
    MakeSampler { desc: SamplerDesc },
    /// Make an image that is both drawn into and sampled from.
    MakeRenderTarget { width: u32, height: u32, format: Format },
}

/// What came of a request.
#[derive(Clone, Copy, Debug, PartialEq, Eq, Structural)]
pub enum Reply {
    Done,
    Pipeline { pipeline: u64, layout: u64, set_layout: Option<u64> },
    Buffer(Option<PooledBuffer>),
    Imported(ImportedBuf),
    Image(Option<NewImage>),
    Sampler(u64),
}

/// The reply is one the request can have.
pub open spec fn answers(request: Request, reply: Reply) -> bool {
    match request {
        Request::BuildPipeline => reply is Pipeline,
        Request::MakeBuffer { .. } => reply is Buffer,
        Request::Import { .. } => reply is Imported,
        Request::MakeImage { .. } => reply is Image,
        Request::MakeSampler { .. } => reply is Sampler,
        Request::MakeRenderTarget { .. } => reply is Image,
        _ => reply is Done,
    }
}

/// The tables, as mathematical maps.
#[verifier::ext_equal]
pub struct ResourcesView {
    pub pipelines: Map<u32, HostPipeline>,
    pub buffers: Map<u32, CacheBuffer>,
    pub images: Map<u32, CacheImage>,
    pub render_targets: Map<u32, CacheRenderTarget>,
    pub samplers: Map<u32, u64>,
    pub imported: Map<(i32, u32), ImportedBuf>,
    pub readback_refused: Set<u32>,
    pub pending_recycle: Seq<PooledBuffer>,
}

/// The key under which a cache import is kept, apart from the display buffers' keys.
pub const CACHE_IMPORT_HANDLE: i32 = -1;

/// The backend's id tables.
pub struct Resources {
    pub pipelines: HashMap<u32, HostPipeline>,
    pub buffers: HashMap<u32, CacheBuffer>,
    pub images: HashMap<u32, CacheImage>,
    pub render_targets: HashMap<u32, CacheRenderTarget>,
    pub samplers: HashMap<u32, u64>,
    pub imported: Table<(i32, u32), ImportedBuf>,
    pub readback_refused: HashSet<u32>,
    /// Buffers released by the list being walked.  A draw earlier in the list may bind
    /// one, so they go back to the pool when the next list begins.
    pub pending_recycle: Vec<PooledBuffer>,
}

impl View for Resources {
    type V = ResourcesView;

    open spec fn view(&self) -> ResourcesView {
        ResourcesView {
            pipelines: self.pipelines@,
            buffers: self.buffers@,
            images: self.images@,
            render_targets: self.render_targets@,
            samplers: self.samplers@,
            imported: self.imported@,
            readback_refused: self.readback_refused@,
            pending_recycle: self.pending_recycle@,
        }
    }
}

/// The value of a key, if it has one.
pub open spec fn lookup<V>(map: Map<u32, V>, id: u32) -> Option<V> {
    if map.contains_key(id) {
        Some(map[id])
    } else {
        None
    }
}

/// An upload lands inside the buffer it names.
pub open spec fn upload_fits(buffers: Map<u32, CacheBuffer>, id: u32, offset: u64, len: nat) -> bool {
    buffers.contains_key(id) && len > 0 && offset + len <= buffers[id].len
}

/// What the device has to do for `cmd` when the tables hold `res`.
pub open spec fn request_for(res: ResourcesView, cmd: BackendCmd) -> Request {
    match cmd {
        BackendCmd::CreatePipeline { id, .. } => if res.pipelines.contains_key(id) {
            Request::Nothing
        } else {
            Request::BuildPipeline
        },
        BackendCmd::CreateBuffer { id, size } => Request::MakeBuffer {
            len: if size == 0 {
                1
            } else {
                size
            },
        },
        BackendCmd::UploadBuffer { id, offset, data } => if upload_fits(
            res.buffers,
            id,
            offset,
            data@.len(),
        ) {
            Request::WriteBuffer { buffer: res.buffers[id].pooled, offset }
        } else {
            Request::Nothing
        },
        BackendCmd::ImportBuffer { id, addr, size } => Request::Import { addr, size },
        BackendCmd::FreeResource { id } => {
            let key = (CACHE_IMPORT_HANDLE, id);
            if res.imported.contains_key(key) || res.images.contains_key(id)
                || res.render_targets.contains_key(id) {
                Request::Destroy {
                    imported: if res.imported.contains_key(key) {
                        Some(res.imported[key])
                    } else {
                        None
                    },
                    image: lookup(res.images, id),
                    render_target: lookup(res.render_targets, id),
                }
            } else {
                Request::Nothing
            }
        },
        BackendCmd::CreateImage { id, width, height, format } => if res.images.contains_key(id) {
            Request::Nothing
        } else {
            Request::MakeImage { width, height, format: texture_format(format) }
        },
        BackendCmd::UploadImage { id, .. } => match lookup(res.images, id) {
            Some(img) => Request::WriteImage {
                image: img.image,
                width: img.width,
                height: img.height,
            },
            None => Request::Nothing,
        },
        BackendCmd::CreateSampler { id, desc } => if res.samplers.contains_key(id) {
            Request::Nothing
        } else {
            Request::MakeSampler { desc }
        },
        BackendCmd::CreateRenderTarget { id, width, height, format } => if
            res.render_targets.contains_key(id) {
            Request::Nothing
        } else {
            Request::MakeRenderTarget { width, height, format: color_format(format) }
        },
        _ => Request::Nothing,
    }
}

/// How many constant buffers a draw with this pipeline must bind.
pub open spec fn const_count(desc: PipelineDesc) -> u32 {
    ((if desc.const_storage is Some {
        1int
    } else {
        0
    }) + (if desc.const_storage_fragment is Some {
        1int
    } else {
        0
    })) as u32
}

/// The tables after `cmd`, whose request had this reply.
pub open spec fn apply_cmd(res: ResourcesView, cmd: BackendCmd, reply: Reply) -> ResourcesView {
    match (cmd, reply) {
        (
            BackendCmd::CreatePipeline { id, desc, .. },
            Reply::Pipeline { pipeline, layout, set_layout },
        ) => ResourcesView {
            pipelines: res.pipelines.insert(
                id,
                HostPipeline {
                    pipeline,
                    layout,
                    set_layout,
                    needs_const: const_count(desc),
                    needs_storage: desc.vertex_storage@.len() as u32,
                    needs_texture: desc.textures@.len() as u32,
                },
            ),
            ..res
        },
        (BackendCmd::CreateBuffer { id, size }, Reply::Buffer(Some(pooled))) => ResourcesView {
            buffers: res.buffers.insert(
                id,
                CacheBuffer {
                    pooled,
                    len: if size == 0 {
                        1
                    } else {
                        size
                    },
                },
            ),
            ..res
        },
        (BackendCmd::ImportBuffer { id, .. }, Reply::Imported(buf)) => ResourcesView {
            imported: res.imported.insert((CACHE_IMPORT_HANDLE, id), buf),
            ..res
        },
        (BackendCmd::FreeResource { id }, _) => ResourcesView {
            buffers: res.buffers.remove(id),
            imported: res.imported.remove((CACHE_IMPORT_HANDLE, id)),
            images: res.images.remove(id),
            render_targets: res.render_targets.remove(id),
            readback_refused: res.readback_refused.remove(id),
            pending_recycle: if res.buffers.contains_key(id) {
                res.pending_recycle.push(res.buffers[id].pooled)
            } else {
                res.pending_recycle
            },
            ..res
        },
        (
            BackendCmd::CreateImage { id, width, height, .. },
            Reply::Image(Some(NewImage { image, view, mem })),
        ) => ResourcesView {
            images: res.images.insert(id, CacheImage { image, view, mem, width, height }),
            ..res
        },
        (BackendCmd::CreateSampler { id, .. }, Reply::Sampler(sampler)) => ResourcesView {
            samplers: res.samplers.insert(id, sampler),
            ..res
        },
        (
            BackendCmd::CreateRenderTarget { id, width, height, .. },
            Reply::Image(Some(NewImage { image, view, mem })),
        ) => ResourcesView {
            render_targets: res.render_targets.insert(
                id,
                CacheRenderTarget {
                    image,
                    view,
                    mem,
                    width,
                    height,
                    current_layout: ImageLayout::Undefined,
                },
            ),
            ..res
        },
        _ => res,
    }
}

/// The declared bindings of a command can be counted in 32 bits.
pub open spec fn countable(cmd: BackendCmd) -> bool {
    match cmd {
        BackendCmd::CreatePipeline { desc, .. } => desc.vertex_storage@.len() <= u32::MAX
            && desc.textures@.len() <= u32::MAX,
        _ => true,
    }
}

impl Resources {
    pub open spec fn wf(&self) -> bool {
        self.imported.wf()
    }

    pub fn new() -> (res: Self)
        ensures
            res.wf(),
            res@ == (ResourcesView {
                pipelines: Map::empty(),
                buffers: Map::empty(),
                images: Map::empty(),
                render_targets: Map::empty(),
                samplers: Map::empty(),
                imported: Map::empty(),
                readback_refused: Set::empty(),
                pending_recycle: Seq::empty(),
            }),
    {
        Resources {
            pipelines: HashMap::new(),
            buffers: HashMap::new(),
            images: HashMap::new(),
            render_targets: HashMap::new(),
            samplers: HashMap::new(),
            imported: Table::new(),
            readback_refused: HashSet::new(),
            pending_recycle: Vec::new(),
        }
    }

    /// What the device has to do for `cmd`.
    pub fn request(&self, cmd: &BackendCmd) -> (r: Request)
        requires
            self.wf(),
        ensures
            r == request_for(self@, *cmd),
    {
        match cmd {
            BackendCmd::CreatePipeline { id, .. } => {
                if self.pipelines.contains_key(id) {
                    Request::Nothing
                } else {
                    Request::BuildPipeline
                }
            },
            BackendCmd::CreateBuffer { id: _, size } => {
                let len: u64 = if *size == 0 {
                    1
                } else {
                    *size
                };
                Request::MakeBuffer { len }
            },
            BackendCmd::UploadBuffer { id, offset, data } => {
                match self.buffers.get(id) {
                    Some(res) => {
                        let end: u64 = offset.saturating_add(data.len() as u64);
                        if data.len() == 0 || end > res.len || data.len() as u64 > u64::MAX
                            - *offset {
                            Request::Nothing
                        } else {
                            Request::WriteBuffer { buffer: res.pooled, offset: *offset }
                        }
                    },
                    None => Request::Nothing,
                }
            },
            BackendCmd::ImportBuffer { id: _, addr, size } => Request::Import {
                addr: *addr,
                size: *size,
            },
            BackendCmd::FreeResource { id } => {
                let imported = match self.imported.get(&(CACHE_IMPORT_HANDLE, *id)) {
                    Some(b) => Some(*b),
                    None => None,
                };
                let image = match self.images.get(id) {
                    Some(img) => Some(*img),
                    None => None,
                };
                let render_target = match self.render_targets.get(id) {
                    Some(rt) => Some(*rt),
                    None => None,
                };
                if imported.is_none() && image.is_none() && render_target.is_none() {
                    Request::Nothing
                } else {
                    Request::Destroy { imported, image, render_target }
                }
            },
            BackendCmd::CreateImage { id, width, height, format } => {
                if self.images.contains_key(id) {
                    Request::Nothing
                } else {
                    Request::MakeImage {
                        width: *width,
                        height: *height,
                        format: vk_texture_format(*format),
                    }
                }
            },
            BackendCmd::UploadImage { id, .. } => {
                match self.images.get(id) {
                    Some(img) => Request::WriteImage {
                        image: img.image,
                        width: img.width,
                        height: img.height,
                    },
                    None => Request::Nothing,
                }
            },
            BackendCmd::CreateSampler { id, desc } => {
                if self.samplers.contains_key(id) {
                    Request::Nothing
                } else {
                    Request::MakeSampler { desc: *desc }
                }
            },
            BackendCmd::CreateRenderTarget { id, width, height, format } => {
                if self.render_targets.contains_key(id) {
                    Request::Nothing
                } else {
                    Request::MakeRenderTarget {
                        width: *width,
                        height: *height,
                        format: vk_color_format(*format),
                    }
                }
            },
            _ => Request::Nothing,
        }
    }

    /// Take note of what came of `cmd`'s request.
    pub fn apply(&mut self, cmd: &BackendCmd, reply: Reply)
        requires
            old(self).wf(),
            answers(request_for(old(self)@, *cmd), reply),
            countable(*cmd),
        ensures
            final(self).wf(),
            final(self)@ == apply_cmd(old(self)@, *cmd, reply),
    {
        match cmd {
            BackendCmd::CreatePipeline { id, desc, .. } => {
                if let Reply::Pipeline { pipeline, layout, set_layout } = reply {
                    let mut needs_const: u32 = 0;
                    if desc.const_storage.is_some() {
                        needs_const = needs_const + 1;
                    }
                    if desc.const_storage_fragment.is_some() {
                        needs_const = needs_const + 1;
                    }
                    self.pipelines.insert(
                        *id,
                        HostPipeline {
                            pipeline,
                            layout,
                            set_layout,
                            needs_const,
                            needs_storage: desc.vertex_storage.len() as u32,
                            needs_texture: desc.textures.len() as u32,
                        },
                    );
                }
            },
            BackendCmd::CreateBuffer { id, size } => {
                if let Reply::Buffer(Some(pooled)) = reply {
                    let len: u64 = if *size == 0 {
                        1
                    } else {
                        *size
                    };
                    self.buffers.insert(*id, CacheBuffer { pooled, len });
                }
            },
            BackendCmd::ImportBuffer { id, .. } => {
                if let Reply::Imported(buf) = reply {
                    self.imported.insert((CACHE_IMPORT_HANDLE, *id), buf);
                }
            },
            BackendCmd::FreeResource { id } => {
                let removed = self.buffers.remove(id);
                self.imported.remove(&(CACHE_IMPORT_HANDLE, *id));
                self.images.remove(id);
                self.render_targets.remove(id);
                self.readback_refused.remove(id);
                if let Some(buf) = removed {
                    self.pending_recycle.push(buf.pooled);
                }
            },
            BackendCmd::CreateImage { id, width, height, .. } => {
                if let Reply::Image(Some(new)) = reply {
                    self.images.insert(
                        *id,
                        CacheImage {
                            image: new.image,
                            view: new.view,
                            mem: new.mem,
                            width: *width,
                            height: *height,
                        },
                    );
                }
            },
            BackendCmd::CreateSampler { id, .. } => {
                if let Reply::Sampler(sampler) = reply {
                    self.samplers.insert(*id, sampler);
                }
            },
            BackendCmd::CreateRenderTarget { id, width, height, .. } => {
                if let Reply::Image(Some(new)) = reply {
                    self.render_targets.insert(
                        *id,
                        CacheRenderTarget {
                            image: new.image,
                            view: new.view,
                            mem: new.mem,
                            width: *width,
                            height: *height,
                            current_layout: ImageLayout::Undefined,
                        },
                    );
                }
            },
            _ => {},
        }
        assert(self@ =~= apply_cmd(old(self)@, *cmd, reply));
    }

    /// The buffers the previous list released, now that its fence has been waited on.
    /// They are handed out once.
    pub fn begin_list(&mut self) -> (recycle: Vec<PooledBuffer>)
        requires
            old(self).wf(),
        ensures
            final(self).wf(),
            recycle@ == old(self)@.pending_recycle,
            final(self)@ == (ResourcesView { pending_recycle: Seq::empty(), ..old(self)@ }),
    {
        let mut taken: Vec<PooledBuffer> = Vec::new();
        std::mem::swap(&mut taken, &mut self.pending_recycle);
        assert(self@ =~= (ResourcesView { pending_recycle: Seq::empty(), ..old(self)@ }));
        taken
    }
}

/// The tables agree on every id but this one.
pub open spec fn same_elsewhere(a: ResourcesView, b: ResourcesView, id: u32) -> bool {
    &&& a.pipelines.remove(id) == b.pipelines.remove(id)
    &&& a.buffers.remove(id) == b.buffers.remove(id)
    &&& a.images.remove(id) == b.images.remove(id)
    &&& a.render_targets.remove(id) == b.render_targets.remove(id)
    &&& a.samplers.remove(id) == b.samplers.remove(id)
}

/// What the device has made for a command is found under the command's id, with the handles that
/// the device gave and the size that was asked for; nothing is found where it made none; and no
/// other id is touched.
pub proof fn law_what_is_made_is_found(res: ResourcesView, cmd: BackendCmd, reply: Reply)
    requires
        answers(request_for(res, cmd), reply),
        countable(cmd),
    ensures
        ({
            let after = apply_cmd(res, cmd, reply);
            &&& cmd matches BackendCmd::CreatePipeline { id, desc, .. } ==> same_elsewhere(
                after,
                res,
                id,
            ) && (reply matches Reply::Pipeline { pipeline, layout, set_layout } ==> {
                let p = after.pipelines[id];
                &&& after.pipelines.contains_key(id)
                &&& p.pipeline == pipeline && p.layout == layout && p.set_layout == set_layout
                &&& p.needs_storage == desc.vertex_storage@.len()
                &&& p.needs_texture == desc.textures@.len()
                &&& p.needs_const == 0 <==> desc.const_storage is None
                    && desc.const_storage_fragment is None
                &&& p.needs_const == 2 <==> desc.const_storage is Some
                    && desc.const_storage_fragment is Some
                &&& p.needs_const <= 2
            })
            &&& cmd matches BackendCmd::CreateBuffer { id, size } ==> same_elsewhere(after, res, id)
                && (reply matches Reply::Buffer(Some(pooled)) ==> after.buffers.contains_key(id)
                && after.buffers[id].pooled == pooled && after.buffers[id].len >= size
                && after.buffers[id].len >= 1 && (size > 0 ==> after.buffers[id].len == size)) && (
            reply == Reply::Buffer(None) ==> after == res)
            &&& cmd matches BackendCmd::CreateImage { id, width, height, .. } ==> same_elsewhere(
                after,
                res,
                id,
            ) && (reply matches Reply::Image(Some(new)) ==> after.images.contains_key(id) && {
                let i = after.images[id];
                i.image == new.image && i.view == new.view && i.mem == new.mem && i.width == width
                    && i.height == height
            }) && (reply == Reply::Image(None) ==> after == res)
            &&& cmd matches BackendCmd::CreateRenderTarget { id, width, height, .. }
                ==> same_elsewhere(after, res, id) && (reply matches Reply::Image(Some(new))
                ==> after.render_targets.contains_key(id) && {
                let t = after.render_targets[id];
                t.image == new.image && t.view == new.view && t.mem == new.mem && t.width == width
                    && t.height == height && t.current_layout is Undefined
            }) && (reply == Reply::Image(None) ==> after == res)
            &&& cmd matches BackendCmd::CreateSampler { id, .. } ==> same_elsewhere(after, res, id)
                && (reply matches Reply::Sampler(s) ==> after.samplers.contains_key(id)
                && after.samplers[id] == s)
            &&& cmd matches BackendCmd::ImportBuffer { id, .. } ==> (reply matches Reply::Imported(
                b,
            ) ==> after.imported == res.imported.insert((-1i32, id), b))
            &&& !(cmd is CreatePipeline || cmd is CreateBuffer || cmd is CreateImage || cmd
                is CreateRenderTarget || cmd is CreateSampler || cmd is ImportBuffer || cmd
                is FreeResource) ==> after == res
            &&& !(cmd is FreeResource) ==> after.pending_recycle == res.pending_recycle
                && after.readback_refused == res.readback_refused
        }),
{
    let after = apply_cmd(res, cmd, reply);
    match cmd {
        BackendCmd::CreatePipeline { id, .. } => {
            assert(after.pipelines.remove(id) =~= res.pipelines.remove(id));
        },
        BackendCmd::CreateBuffer { id, .. } => {
            assert(after.buffers.remove(id) =~= res.buffers.remove(id));
        },
        BackendCmd::CreateImage { id, .. } => {
            assert(after.images.remove(id) =~= res.images.remove(id));
        },
        BackendCmd::CreateRenderTarget { id, .. } => {
            assert(after.render_targets.remove(id) =~= res.render_targets.remove(id));
        },
        BackendCmd::CreateSampler { id, .. } => {
            assert(after.samplers.remove(id) =~= res.samplers.remove(id));
        },
        _ => {},
    }
}

/// The device is asked for what a command names and nothing else: something is made in the size
/// and format that the command gives, and once, since what is there already is not made again;
/// an import covers the range that the command gives.
pub proof fn law_requests_are_what_is_named(res: ResourcesView, cmd: BackendCmd)
    ensures
        ({
            let r = request_for(res, cmd);
            &&& cmd matches BackendCmd::CreatePipeline { id, .. } ==> (r is BuildPipeline
                <==> !res.pipelines.contains_key(id)) && (r is BuildPipeline || r is Nothing)
            &&& cmd matches BackendCmd::CreateBuffer { size, .. } ==> (r matches Request::MakeBuffer {
                len,
            } && len >= 1 && len >= size && (size > 0 ==> len == size))
            &&& cmd matches BackendCmd::ImportBuffer { addr, size, .. } ==> r == (Request::Import {
                addr,
                size,
            })
            &&& cmd matches BackendCmd::CreateImage { id, width, height, format }
                ==> if res.images.contains_key(id) {
                r is Nothing
            } else {
                r matches Request::MakeImage { width: w, height: h, format: f } && w == width && h
                    == height && f.raw() == (if format is R8G8B8A8Srgb {
                    43i32
                } else {
                    37
                })
            }
            &&& cmd matches BackendCmd::CreateRenderTarget { id, width, height, format }
                ==> if res.render_targets.contains_key(id) {
                r is Nothing
            } else {
                r matches Request::MakeRenderTarget { width: w, height: h, format: f } && w == width
                    && h == height && f.raw() == (if format is B8G8R8A8Unorm {
                    44i32
                } else if format is R8G8B8A8Unorm {
                    37
                } else {
                    0
                })
            }
            &&& cmd matches BackendCmd::CreateSampler { id, desc } ==> if res.samplers.contains_key(
                id,
            ) {
                r is Nothing
            } else {
                r == (Request::MakeSampler { desc })
            }
            &&& cmd matches BackendCmd::UploadImage { id, .. } ==> if res.images.contains_key(id) {
                r == (Request::WriteImage {
                    image: res.images[id].image,
                    width: res.images[id].width,
                    height: res.images[id].height,
                })
            } else {
                r is Nothing
            }
            &&& cmd is BindPipeline || cmd is DrawAuto || cmd is DrawIndexed || cmd
                is BindVertexBuffer || cmd is BindStorageBuffer || cmd is BindConstBuffer || cmd
                is BindTexture || cmd is SetViewport || cmd is SetScissor || cmd is SetRenderTarget
                || cmd is ReadbackRenderTarget || cmd is DumpRenderTargetPng ==> r is Nothing
        }),
{
}

/// An upload is written into the buffer that its id names, at its offset, exactly where there is
/// such a buffer and the bytes lie inside of what it was made for; no byte is ever written
/// beyond.
pub proof fn law_uploads_land_inside(res: ResourcesView, id: u32, offset: u64, data: Vec<u8>)
    ensures
        ({
            let r = request_for(res, BackendCmd::UploadBuffer { id, offset, data });
            let inside = res.buffers.contains_key(id) && data@.len() > 0 && offset + data@.len()
                <= res.buffers[id].len;
            &&& inside ==> r == (Request::WriteBuffer { buffer: res.buffers[id].pooled, offset })
            &&& !inside ==> r is Nothing
        }),
{
}

/// What is freed is destroyed and forgotten: nothing is found under its id afterwards, and what
/// the device holds for it, and that alone, is handed over to be destroyed.  A buffer's region
/// waits to be recycled behind those that wait already.  Other ids stay.
pub proof fn law_free_forgets(res: ResourcesView, id: u32, reply: Reply, other: u32)
    requires
        other != id,
    ensures
        ({
            let cmd = BackendCmd::FreeResource { id };
            let after = apply_cmd(res, cmd, reply);
            let r = request_for(res, cmd);
            let key = (-1i32, id);
            let any = res.imported.contains_key(key) || res.images.contains_key(id)
                || res.render_targets.contains_key(id);
            &&& !after.buffers.contains_key(id) && !after.images.contains_key(id)
            &&& !after.render_targets.contains_key(id) && !after.imported.contains_key(key)
            &&& !after.readback_refused.contains(id)
            &&& after.pipelines == res.pipelines && after.samplers == res.samplers
            &&& after.buffers.contains_key(other) == res.buffers.contains_key(other)
            &&& res.buffers.contains_key(other) ==> after.buffers[other] == res.buffers[other]
            &&& after.images.contains_key(other) == res.images.contains_key(other)
            &&& res.images.contains_key(other) ==> after.images[other] == res.images[other]
            &&& after.render_targets.contains_key(other) == res.render_targets.contains_key(other)
            &&& res.render_targets.contains_key(other) ==> after.render_targets[other]
                == res.render_targets[other]
            &&& if res.buffers.contains_key(id) {
                &&& after.pending_recycle.len() == res.pending_recycle.len() + 1
                &&& after.pending_recycle.drop_last() == res.pending_recycle
                &&& after.pending_recycle.last() == res.buffers[id].pooled
            } else {
                after.pending_recycle == res.pending_recycle
            }
            &&& !any ==> r is Nothing
            &&& any ==> {
                &&& r is Destroy
                &&& r->Destroy_imported is Some <==> res.imported.contains_key(key)
                &&& r->Destroy_imported matches Some(b) ==> b == res.imported[key]
                &&& r->Destroy_image is Some <==> res.images.contains_key(id)
                &&& r->Destroy_image matches Some(i) ==> i == res.images[id]
                &&& r->Destroy_render_target is Some <==> res.render_targets.contains_key(id)
                &&& r->Destroy_render_target matches Some(t) ==> t == res.render_targets[id]
            }
        }),
{
    let after = apply_cmd(res, BackendCmd::FreeResource { id }, reply);
    if res.buffers.contains_key(id) {
        assert(after.pending_recycle.drop_last() =~= res.pending_recycle);
    }
}

} // verus!
