//! The guest side of the display: what is registered, and what is sent.

use vstd::prelude::*;

use crate::gpu::commands::BackendCmd;
use crate::gpu::display::GpuCommand;
use crate::table::{position, Key, Table};

verus! {

/// A framebuffer as the draw path sees it.
#[derive(Clone, Copy, Debug, PartialEq, Eq, Structural)]
pub struct RegisteredBuffer {
    pub base: u64,
    pub width: u32,
    pub height: u32,
}

/// The guest-side mirror of the registered framebuffers.
pub struct DisplayBufferRegistry {
    pub buffers: Table<(i32, u32), RegisteredBuffer>,
}

impl View for DisplayBufferRegistry {
    type V = Map<(i32, u32), RegisteredBuffer>;

    open spec fn view(&self) -> Map<(i32, u32), RegisteredBuffer> {
        self.buffers@
    }
}

impl DisplayBufferRegistry {
    pub open spec fn wf(&self) -> bool {
        self.buffers.wf()
    }

    pub fn new() -> (r: Self)
        ensures
            r.wf(),
            r@ == Map::<(i32, u32), RegisteredBuffer>::empty(),
    {
        DisplayBufferRegistry { buffers: Table::new() }
    }

    /// A registered framebuffer at `base`, if there is one.
    pub fn lookup(&self, base: u64) -> (found: Option<RegisteredBuffer>)
        requires
            self.wf(),
        ensures
            match found {
                Some(b) => b.base == base && exists|key: (i32, u32)| #[trigger]
                    self@.contains_key(key) && self@[key] == b,
                None => forall|key: (i32, u32)| #[trigger]
                    self@.contains_key(key) ==> self@[key].base != base,
            },
    {
        let mut i: usize = 0;
        while i < self.buffers.entries.len()
            invariant
                self.wf(),
                i <= self.buffers.entries@.len(),
                forall|j: int|
                    0 <= j < i ==> (#[trigger] self.buffers.entries@[j]).1.base != base,
            decreases self.buffers.entries@.len() - i,
        {
            let b = self.buffers.entries[i].1;
            if b.base == base {
                proof {
                    let key = self.buffers.entries@[i as int].0;
                    assert(self.buffers.entries@[i as int].0.id() == key);
                    let p = position(self.buffers.entries@, key)->0;
                    assert(p == i) by {
                        if p < i {
                            assert(self.buffers.entries@[p].0.id()
                                != self.buffers.entries@[i as int].0.id());
                        } else if i < p {
                            assert(self.buffers.entries@[i as int].0.id()
                                != self.buffers.entries@[p].0.id());
                        }
                    }
                    assert(self@.contains_key(key));
                }
                return Some(b);
            }
            i = i + 1;
        }
        None
    }
}

/// The guest's handle on the display.
pub struct GpuManager {
    pub display_buffers: DisplayBufferRegistry,
}

impl GpuManager {
    pub open spec fn wf(&self) -> bool {
        self.display_buffers.wf()
    }

    pub fn new() -> (gpu: Self)
        ensures
            gpu.wf(),
            gpu.display_buffers@ == Map::<(i32, u32), RegisteredBuffer>::empty(),
    {
        GpuManager { display_buffers: DisplayBufferRegistry::new() }
    }

    /// The registered framebuffers, for the draw path to look color targets up in.
    pub fn display_buffer_source(&self) -> (source: &DisplayBufferRegistry)
        ensures
            *source == self.display_buffers,
    {
        &self.display_buffers
    }

    /// The command that shows a framebuffer; the guest call waits for `signal`.
    pub fn submit_flip(&self, handle: i32, index: u32, signal: u64) -> (cmd: GpuCommand)
        ensures
            cmd == (GpuCommand::SubmitFlip { handle, index, signal }),
    {
        GpuCommand::SubmitFlip { handle, index, signal }
    }

    /// The command that has a list replayed; the guest call waits for `signal`.
    pub fn run_command_list(&self, cmds: Vec<BackendCmd>, signal: u64) -> (cmd: GpuCommand)
        ensures
            cmd == (GpuCommand::RunCommandList { cmds, signal }),
    {
        GpuCommand::RunCommandList { cmds, signal }
    }

    /// Register a framebuffer: it is in the mirror at once, before any draw against it
    /// can be submitted, and the returned command tells the display thread.
    pub fn register_buffer(
        &mut self,
        ptr: u64,
        w: u32,
        h: u32,
        pixel_format: u32,
        handle: i32,
        idx: u32,
    ) -> (cmd: GpuCommand)
        requires
            old(self).wf(),
        ensures
            final(self).wf(),
            final(self).display_buffers@ == old(self).display_buffers@.insert(
                (handle, idx),
                RegisteredBuffer { base: ptr, width: w, height: h },
            ),
            cmd == (GpuCommand::RegisterBuffer {
                ptr,
                width: w,
                height: h,
                pixel_format,
                handle,
                index: idx,
            }),
    {
        self.display_buffers.buffers.insert(
            (handle, idx),
            RegisteredBuffer { base: ptr, width: w, height: h },
        );
        GpuCommand::RegisterBuffer {
            ptr,
            width: w,
            height: h,
            pixel_format,
            handle,
            index: idx,
        }
    }
}

/// Framebuffers registered under different handles or indices do not displace each other.
pub proof fn law_registrations_are_independent(
    m: Map<(i32, u32), RegisteredBuffer>,
    a: (i32, u32),
    b: (i32, u32),
    x: RegisteredBuffer,
    y: RegisteredBuffer,
)
    requires
        a != b,
    ensures
        m.insert(a, x).insert(b, y)[a] == x,
        m.insert(a, x).insert(b, y)[b] == y,
{
}

} // verus!
