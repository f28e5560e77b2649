//! Counters of the aggregate profiler.
//!
//! Times are nanoseconds summed over a run.  Sums wrap around, as a counter of a
//! machine word does.

use vstd::prelude::*;
use vstd::string::StrSliceExecFns;

use crate::gpu::commands::BackendCmd;

verus! {

broadcast use vstd::string::group_string_axioms;

/// One refresh period at sixty hertz, in whole nanoseconds: a gap is shorter than the period
/// exactly where it is shorter than this.  Only a present that follows another sooner can
/// have been dropped by the display.
pub const VBLANK_NS: u64 = 16_666_667;

/// How many kinds of command are counted apart.
pub const CMD_KINDS: usize = 18;

/// The number a text of decimal digits stands for, if it is one.
pub open spec fn parse_digits(s: Seq<char>) -> Option<nat>
    decreases s.len(),
{
    if s.len() == 0 {
        None
    } else {
        let c = s.last() as int;
        let head = s.drop_last();
        if !(48 <= c <= 57) {
            None
        } else if head.len() == 0 {
            Some((c - 48) as nat)
        } else {
            match parse_digits(head) {
                Some(n) => Some((10 * n + (c - 48)) as nat),
                None => None,
            }
        }
    }
}

/// The number a text stands for, with a plus sign or without.
pub open spec fn parse_number(s: Seq<char>) -> Option<nat> {
    if s.len() > 0 && s[0] == '+' {
        parse_digits(s.skip(1))
    } else {
        parse_digits(s)
    }
}

/// The profiler's setting turns it on: a number from one up, in a machine word.
pub open spec fn setting_enables(value: Option<Seq<char>>) -> bool {
    match value {
        None => false,
        Some(text) => match parse_number(text) {
            Some(n) => 0 < n <= u64::MAX,
            None => false,
        },
    }
}

/// The text from `from` on, as far as it is a number that a machine word holds.
fn read_digits(text: &str, from: usize, len: usize) -> (n: Option<u64>)
    requires
        from <= len == text@.len(),
    ensures
        match n {
            Some(n) => parse_digits(text@.skip(from as int)) == Some(n as nat),
            None => match parse_digits(text@.skip(from as int)) {
                Some(m) => m > u64::MAX,
                None => true,
            },
        },
{
    if from == len {
        return None;
    }
    let mut value: u64 = 0;
    let mut i: usize = from;
    let ghost tail = text@.skip(from as int);
    let mut fits: bool = true;
    while i < len
        invariant
            from < len == text@.len(),
            from <= i <= len,
            tail == text@.skip(from as int),
            i == from ==> value == 0 && fits,
            i > from && fits ==> parse_digits(tail.take(i - from)) == Some(value as nat),
            i > from && !fits ==> (parse_digits(tail.take(i - from)) matches Some(m) && m
                > u64::MAX),
        decreases len - i,
    {
        let c = text.get_char(i);
        let ghost part = tail.take(i + 1 - from);
        assert(part.last() == c);
        assert(part.drop_last() == tail.take(i - from));
        if c < '0' || c > '9' {
            proof {
                lemma_digits_prefix(tail, i + 1 - from);
            }
            return None;
        }
        let d: u64 = (c as u32 - '0' as u32) as u64;
        if fits {
            if value <= (u64::MAX - d) / 10 {
                value = value * 10 + d;
            } else {
                fits = false;
            }
        }
        i = i + 1;
    }
    assert(tail.take(i - from) == tail);
    if fits {
        Some(value)
    } else {
        None
    }
}

/// A text with a part that is no number is none.
proof fn lemma_digits_prefix(s: Seq<char>, n: int)
    requires
        0 < n <= s.len(),
        parse_digits(s.take(n)) is None,
    ensures
        parse_digits(s) is None,
    decreases s.len(),
{
    if n == s.len() {
        assert(s.take(n) == s);
    } else {
        assert(s.drop_last().take(n) == s.take(n));
        lemma_digits_prefix(s.drop_last(), n);
    }
}

/// Whether a value of the profiler's setting turns it on.
pub fn enabled(value: Option<&str>) -> (on: bool)
    ensures
        on == setting_enables(
            match value {
                Some(text) => Some(text@),
                None => None,
            },
        ),
{
    match value {
        None => false,
        Some(text) => {
            let len: usize = text.unicode_len();
            let signed: bool = len > 0 && text.get_char(0) == '+';
            let number = if signed {
                read_digits(text, 1, len)
            } else {
                assert(text@.skip(0) =~= text@);
                read_digits(text, 0, len)
            };
            match number {
                Some(n) => n > 0,
                None => false,
            }
        },
    }
}

/// Counters of the present path.
#[derive(Clone, Copy, Debug, PartialEq, Eq, Structural)]
pub struct PresentStats {
    pub frames: u64,
    pub fence_wait_ns: u64,
    pub acquire_ns: u64,
    pub fb_copy_ns: u64,
    pub record_submit_ns: u64,
    pub present_ns: u64,
    pub pace_sleep_ns: u64,
    pub present_gap_ns: u64,
    /// The largest word until a gap has been seen.
    pub present_gap_min_ns: u64,
    pub present_gap_max_ns: u64,
    pub presents_within_vblank: u64,
    /// When the last present was, zero before the first.
    pub last_present_ns: u64,
}

impl PresentStats {
    pub fn new() -> (s: Self)
        ensures
            s == (PresentStats {
                frames: 0,
                fence_wait_ns: 0,
                acquire_ns: 0,
                fb_copy_ns: 0,
                record_submit_ns: 0,
                present_ns: 0,
                pace_sleep_ns: 0,
                present_gap_ns: 0,
                present_gap_min_ns: u64::MAX,
                present_gap_max_ns: 0,
                presents_within_vblank: 0,
                last_present_ns: 0,
            }),
    {
        PresentStats {
            frames: 0,
            fence_wait_ns: 0,
            acquire_ns: 0,
            fb_copy_ns: 0,
            record_submit_ns: 0,
            present_ns: 0,
            pace_sleep_ns: 0,
            present_gap_ns: 0,
            present_gap_min_ns: u64::MAX,
            present_gap_max_ns: 0,
            presents_within_vblank: 0,
            last_present_ns: 0,
        }
    }
}

/// `a + b` as a machine word counts it.
pub open spec fn wrapped(a: u64, b: u64) -> u64 {
    if a + b <= u64::MAX {
        (a + b) as u64
    } else {
        (a + b - 0x1_0000_0000_0000_0000) as u64
    }
}

/// The counters after a present at `now`.
pub open spec fn noted(s: PresentStats, now: u64) -> PresentStats {
    let t = PresentStats { last_present_ns: now, ..s };
    if s.last_present_ns == 0 {
        t
    } else {
        let gap = if now < s.last_present_ns {
            0u64
        } else {
            (now - s.last_present_ns) as u64
        };
        PresentStats {
            present_gap_ns: wrapped(s.present_gap_ns, gap),
            present_gap_min_ns: if gap < s.present_gap_min_ns {
                gap
            } else {
                s.present_gap_min_ns
            },
            present_gap_max_ns: if gap > s.present_gap_max_ns {
                gap
            } else {
                s.present_gap_max_ns
            },
            presents_within_vblank: if gap < VBLANK_NS {
                wrapped(s.presents_within_vblank, 1)
            } else {
                s.presents_within_vblank
            },
            ..t
        }
    }
}

/// Note a present at `now`.  The display does not say which images it dropped; a present
/// less than a refresh period after another is the only kind it can have.
pub fn note_present(stats: &mut PresentStats, now: u64)
    ensures
        *final(stats) == noted(*old(stats), now),
{
    let prev: u64 = stats.last_present_ns;
    stats.last_present_ns = now;
    if prev == 0 {
        return;
    }
    let gap: u64 = now.saturating_sub(prev);
    stats.present_gap_ns = stats.present_gap_ns.wrapping_add(gap);
    if gap < stats.present_gap_min_ns {
        stats.present_gap_min_ns = gap;
    }
    if gap > stats.present_gap_max_ns {
        stats.present_gap_max_ns = gap;
    }
    if gap < VBLANK_NS {
        stats.presents_within_vblank = stats.presents_within_vblank.wrapping_add(1);
    }
}

/// Counters of the submit path.
#[derive(Clone, Copy, Debug, PartialEq, Eq, Structural)]
pub struct SubmitStats {
    pub guest_submit_calls: u64,
    pub guest_submit_ns: u64,
    pub guest_flip_ns: u64,
    pub backend_ns: u64,
    pub walk_ns: u64,
    pub record_passes_ns: u64,
    pub record_ns: u64,
    pub transient_create_ns: u64,
    pub transient_destroy_ns: u64,
    pub queue_submit_ns: u64,
    pub draw_fence_ns: u64,
    pub readback_ns: u64,
    pub passes: u64,
    pub draws: u64,
    pub transient_render_passes: u64,
    pub transient_framebuffers: u64,
    pub descriptor_pools: u64,
}

impl SubmitStats {
    pub fn new() -> (s: Self)
        ensures
            s == (SubmitStats {
                guest_submit_calls: 0,
                guest_submit_ns: 0,
                guest_flip_ns: 0,
                backend_ns: 0,
                walk_ns: 0,
                record_passes_ns: 0,
                record_ns: 0,
                transient_create_ns: 0,
                transient_destroy_ns: 0,
                queue_submit_ns: 0,
                draw_fence_ns: 0,
                readback_ns: 0,
                passes: 0,
                draws: 0,
                transient_render_passes: 0,
                transient_framebuffers: 0,
                descriptor_pools: 0,
            }),
    {
        SubmitStats {
            guest_submit_calls: 0,
            guest_submit_ns: 0,
            guest_flip_ns: 0,
            backend_ns: 0,
            walk_ns: 0,
            record_passes_ns: 0,
            record_ns: 0,
            transient_create_ns: 0,
            transient_destroy_ns: 0,
            queue_submit_ns: 0,
            draw_fence_ns: 0,
            readback_ns: 0,
            passes: 0,
            draws: 0,
            transient_render_passes: 0,
            transient_framebuffers: 0,
            descriptor_pools: 0,
        }
    }

    /// Count a submit whose fence signalled.  Every transient target is one render pass
    /// and one framebuffer.
    pub fn count_submit(&mut self, plan: &crate::gpu::passes::SubmitPlan)
        ensures
            *final(self) == (SubmitStats {
                passes: wrapped(old(self).passes, plan.passes),
                draws: wrapped(old(self).draws, plan.draws),
                transient_render_passes: wrapped(
                    old(self).transient_render_passes,
                    plan.transients,
                ),
                transient_framebuffers: wrapped(
                    old(self).transient_framebuffers,
                    plan.transients,
                ),
                descriptor_pools: wrapped(old(self).descriptor_pools, plan.descriptor_pools),
                ..*old(self)
            }),
    {
        self.passes = self.passes.wrapping_add(plan.passes);
        self.draws = self.draws.wrapping_add(plan.draws);
        self.transient_render_passes = self.transient_render_passes.wrapping_add(plan.transients);
        self.transient_framebuffers = self.transient_framebuffers.wrapping_add(plan.transients);
        self.descriptor_pools = self.descriptor_pools.wrapping_add(plan.descriptor_pools);
    }
}

/// The number under which a command is counted.  The render-target commands share the
/// last one.
pub open spec fn kind_of(cmd: BackendCmd) -> int {
    match cmd {
        BackendCmd::CreatePipeline { .. } => 0,
        BackendCmd::BindPipeline { .. } => 1,
        BackendCmd::DrawAuto { .. } => 2,
        BackendCmd::BindVertexBuffer { .. } => 3,
        BackendCmd::BindStorageBuffer { .. } => 4,
        BackendCmd::BindConstBuffer { .. } => 5,
        BackendCmd::DrawIndexed { .. } => 6,
        BackendCmd::SetViewport(_) => 7,
        BackendCmd::SetScissor(_) => 8,
        BackendCmd::CreateBuffer { .. } => 9,
        BackendCmd::UploadBuffer { .. } => 10,
        BackendCmd::ImportBuffer { .. } => 11,
        BackendCmd::FreeResource { .. } => 12,
        BackendCmd::CreateImage { .. } => 13,
        BackendCmd::UploadImage { .. } => 14,
        BackendCmd::CreateSampler { .. } => 15,
        BackendCmd::BindTexture { .. } => 16,
        _ => 17,
    }
}

pub fn cmd_index(cmd: &BackendCmd) -> (i: usize)
    ensures
        i == kind_of(*cmd),
        i < CMD_KINDS,
{
    match cmd {
        BackendCmd::CreatePipeline { .. } => 0,
        BackendCmd::BindPipeline { .. } => 1,
        BackendCmd::DrawAuto { .. } => 2,
        BackendCmd::BindVertexBuffer { .. } => 3,
        BackendCmd::BindStorageBuffer { .. } => 4,
        BackendCmd::BindConstBuffer { .. } => 5,
        BackendCmd::DrawIndexed { .. } => 6,
        BackendCmd::SetViewport(_) => 7,
        BackendCmd::SetScissor(_) => 8,
        BackendCmd::CreateBuffer { .. } => 9,
        BackendCmd::UploadBuffer { .. } => 10,
        BackendCmd::ImportBuffer { .. } => 11,
        BackendCmd::FreeResource { .. } => 12,
        BackendCmd::CreateImage { .. } => 13,
        BackendCmd::UploadImage { .. } => 14,
        BackendCmd::CreateSampler { .. } => 15,
        BackendCmd::BindTexture { .. } => 16,
        _ => 17,
    }
}

/// The name a command kind is reported under.
pub open spec fn kind_name(i: int) -> Seq<char> {
    if i == 0 {
        "CreatePipeline"@
    } else if i == 1 {
        "BindPipeline"@
    } else if i == 2 {
        "DrawAuto"@
    } else if i == 3 {
        "BindVertexBuffer"@
    } else if i == 4 {
        "BindStorageBuffer"@
    } else if i == 5 {
        "BindConstBuffer"@
    } else if i == 6 {
        "DrawIndexed"@
    } else if i == 7 {
        "SetViewport"@
    } else if i == 8 {
        "SetScissor"@
    } else if i == 9 {
        "CreateBuffer"@
    } else if i == 10 {
        "UploadBuffer"@
    } else if i == 11 {
        "ImportBuffer"@
    } else if i == 12 {
        "FreeResource"@
    } else if i == 13 {
        "CreateImage"@
    } else if i == 14 {
        "UploadImage"@
    } else if i == 15 {
        "CreateSampler"@
    } else if i == 16 {
        "BindTexture"@
    } else {
        "other"@
    }
}

pub fn cmd_name(i: usize) -> (name: &'static str)
    ensures
        name@ == kind_name(i as int),
{
    match i {
        0 => "CreatePipeline",
        1 => "BindPipeline",
        2 => "DrawAuto",
        3 => "BindVertexBuffer",
        4 => "BindStorageBuffer",
        5 => "BindConstBuffer",
        6 => "DrawIndexed",
        7 => "SetViewport",
        8 => "SetScissor",
        9 => "CreateBuffer",
        10 => "UploadBuffer",
        11 => "ImportBuffer",
        12 => "FreeResource",
        13 => "CreateImage",
        14 => "UploadImage",
        15 => "CreateSampler",
        16 => "BindTexture",
        _ => "other",
    }
}

/// Counters of the command walk, by kind of command.
#[derive(Debug)]
pub struct CmdStats {
    pub count: Vec<u64>,
    pub ns: Vec<u64>,
    pub upload_bytes: u64,
}

impl CmdStats {
    pub open spec fn wf(&self) -> bool {
        self.count@.len() == CMD_KINDS && self.ns@.len() == CMD_KINDS
    }

    pub fn new() -> (s: Self)
        ensures
            s.wf(),
            s.count@ == Seq::new(18, |i: int| 0u64),
            s.ns@ == Seq::new(18, |i: int| 0u64),
            s.upload_bytes == 0,
    {
        let s = CmdStats {
            count: vec![0u64; CMD_KINDS],
            ns: vec![0u64; CMD_KINDS],
            upload_bytes: 0,
        };
        assert(s.count@ =~= Seq::new(18, |i: int| 0u64));
        assert(s.ns@ =~= Seq::new(18, |i: int| 0u64));
        s
    }

    /// Charge one command with the time it took.
    pub fn charge(&mut self, cmd: &BackendCmd, ns: u64)
        requires
            old(self).wf(),
        ensures
            final(self).wf(),
            final(self).count@ == old(self).count@.update(
                kind_of(*cmd),
                wrapped(old(self).count@[kind_of(*cmd)], 1),
            ),
            final(self).ns@ == old(self).ns@.update(
                kind_of(*cmd),
                wrapped(old(self).ns@[kind_of(*cmd)], ns),
            ),
            final(self).upload_bytes == (match *cmd {
                BackendCmd::UploadBuffer { data, .. } => wrapped(
                    old(self).upload_bytes,
                    data@.len() as u64,
                ),
                _ => old(self).upload_bytes,
            }),
    {
        let i: usize = cmd_index(cmd);
        let count: u64 = self.count[i].wrapping_add(1);
        let total: u64 = self.ns[i].wrapping_add(ns);
        self.count.set(i, count);
        self.ns.set(i, total);
        if let BackendCmd::UploadBuffer { data, .. } = cmd {
            self.upload_bytes = self.upload_bytes.wrapping_add(data.len() as u64);
        }
    }
}

/// Counters of the buffer pool.
#[derive(Clone, Copy, Debug, PartialEq, Eq, Structural)]
pub struct PoolStats {
    pub live_buffers: u64,
    pub live_allocations: u64,
    pub alloc_bytes: u64,
    pub recycled: u64,
    pub fresh: u64,
    pub blocks: u64,
}

impl PoolStats {
    pub fn new() -> (s: Self)
        ensures
            s == (PoolStats {
                live_buffers: 0,
                live_allocations: 0,
                alloc_bytes: 0,
                recycled: 0,
                fresh: 0,
                blocks: 0,
            }),
    {
        PoolStats {
            live_buffers: 0,
            live_allocations: 0,
            alloc_bytes: 0,
            recycled: 0,
            fresh: 0,
            blocks: 0,
        }
    }

    /// Count a region handed out.
    pub fn count_region(&mut self, recycled: bool)
        ensures
            *final(self) == (PoolStats {
                recycled: if recycled {
                    wrapped(old(self).recycled, 1)
                } else {
                    old(self).recycled
                },
                fresh: if recycled {
                    old(self).fresh
                } else {
                    wrapped(old(self).fresh, 1)
                },
                ..*old(self)
            }),
    {
        if recycled {
            self.recycled = self.recycled.wrapping_add(1);
        } else {
            self.fresh = self.fresh.wrapping_add(1);
        }
    }

    /// Count a block the device allocated.
    pub fn count_block(&mut self, bytes: u64)
        ensures
            *final(self) == (PoolStats {
                blocks: wrapped(old(self).blocks, 1),
                live_allocations: wrapped(old(self).live_allocations, 1),
                alloc_bytes: wrapped(old(self).alloc_bytes, bytes),
                ..*old(self)
            }),
    {
        self.blocks = self.blocks.wrapping_add(1);
        self.live_allocations = self.live_allocations.wrapping_add(1);
        self.alloc_bytes = self.alloc_bytes.wrapping_add(bytes);
    }
}

/// A read of the pool counters.
#[derive(Clone, Copy, Debug, PartialEq, Eq, Structural)]
pub struct PoolSnapshot {
    pub live_buffers: u64,
    pub live_allocations: u64,
    pub alloc_bytes: u64,
    pub recycled: u64,
    pub fresh: u64,
    pub blocks: u64,
}

pub fn pool_snapshot(stats: &PoolStats) -> (s: PoolSnapshot)
    ensures
        s.live_buffers == stats.live_buffers,
        s.live_allocations == stats.live_allocations,
        s.alloc_bytes == stats.alloc_bytes,
        s.recycled == stats.recycled,
        s.fresh == stats.fresh,
        s.blocks == stats.blocks,
{
    PoolSnapshot {
        live_buffers: stats.live_buffers,
        live_allocations: stats.live_allocations,
        alloc_bytes: stats.alloc_bytes,
        recycled: stats.recycled,
        fresh: stats.fresh,
        blocks: stats.blocks,
    }
}

/// A read of the walk counters.
#[derive(Debug)]
pub struct CmdSnapshot {
    pub count: Vec<u64>,
    pub ns: Vec<u64>,
    pub upload_bytes: u64,
}

pub fn cmd_snapshot(stats: &CmdStats) -> (s: CmdSnapshot)
    requires
        stats.wf(),
    ensures
        s.count@ == stats.count@,
        s.ns@ == stats.ns@,
        s.upload_bytes == stats.upload_bytes,
{
    let mut count: Vec<u64> = Vec::new();
    let mut ns: Vec<u64> = Vec::new();
    let mut i: usize = 0;
    while i < CMD_KINDS
        invariant
            stats.wf(),
            i <= CMD_KINDS,
            count@ == stats.count@.take(i as int),
            ns@ == stats.ns@.take(i as int),
        decreases CMD_KINDS - i,
    {
        count.push(stats.count[i]);
        ns.push(stats.ns[i]);
        i = i + 1;
    }
    assert(stats.count@.take(i as int) == stats.count@);
    assert(stats.ns@.take(i as int) == stats.ns@);
    CmdSnapshot { count, ns, upload_bytes: stats.upload_bytes }
}

/// A read of the present counters.
#[derive(Clone, Copy, Debug, PartialEq, Eq, Structural)]
pub struct PresentSnapshot {
    pub frames: u64,
    pub fence_wait_ns: u64,
    pub acquire_ns: u64,
    pub fb_copy_ns: u64,
    pub record_submit_ns: u64,
    pub present_ns: u64,
    pub pace_sleep_ns: u64,
    pub present_gap_ns: u64,
    pub present_gap_min_ns: u64,
    pub present_gap_max_ns: u64,
    pub presents_within_vblank: u64,
}

/// The smallest gap seen, zero where none was.
pub open spec fn gap_min(stored: u64) -> u64 {
    if stored == u64::MAX {
        0
    } else {
        stored
    }
}

/// Take the extremes of the gaps, so that the next reader sees only what comes after.
pub fn take_present_gap_extremes(stats: &mut PresentStats) -> (extremes: (u64, u64))
    ensures
        extremes == (gap_min(old(stats).present_gap_min_ns), old(stats).present_gap_max_ns),
        *final(stats) == (PresentStats {
            present_gap_min_ns: u64::MAX,
            present_gap_max_ns: 0,
            ..*old(stats)
        }),
{
    let min: u64 = stats.present_gap_min_ns;
    let max: u64 = stats.present_gap_max_ns;
    stats.present_gap_min_ns = u64::MAX;
    stats.present_gap_max_ns = 0;
    let shown: u64 = if min == u64::MAX {
        0
    } else {
        min
    };
    (shown, max)
}

pub fn snapshot(stats: &PresentStats) -> (s: PresentSnapshot)
    ensures
        s == (PresentSnapshot {
            frames: stats.frames,
            fence_wait_ns: stats.fence_wait_ns,
            acquire_ns: stats.acquire_ns,
            fb_copy_ns: stats.fb_copy_ns,
            record_submit_ns: stats.record_submit_ns,
            present_ns: stats.present_ns,
            pace_sleep_ns: stats.pace_sleep_ns,
            present_gap_ns: stats.present_gap_ns,
            present_gap_min_ns: gap_min(stats.present_gap_min_ns),
            present_gap_max_ns: stats.present_gap_max_ns,
            presents_within_vblank: stats.presents_within_vblank,
        }),
{
    let shown: u64 = if stats.present_gap_min_ns == u64::MAX {
        0
    } else {
        stats.present_gap_min_ns
    };
    PresentSnapshot {
        frames: stats.frames,
        fence_wait_ns: stats.fence_wait_ns,
        acquire_ns: stats.acquire_ns,
        fb_copy_ns: stats.fb_copy_ns,
        record_submit_ns: stats.record_submit_ns,
        present_ns: stats.present_ns,
        pace_sleep_ns: stats.pace_sleep_ns,
        present_gap_ns: stats.present_gap_ns,
        present_gap_min_ns: shown,
        present_gap_max_ns: stats.present_gap_max_ns,
        presents_within_vblank: stats.presents_within_vblank,
    }
}

/// A read of the submit counters.
#[derive(Clone, Copy, Debug, PartialEq, Eq, Structural)]
pub struct SubmitSnapshot {
    pub guest_submit_calls: u64,
    pub guest_submit_ns: u64,
    pub guest_flip_ns: u64,
    pub backend_ns: u64,
    pub walk_ns: u64,
    pub record_passes_ns: u64,
    pub record_ns: u64,
    pub transient_create_ns: u64,
    pub transient_destroy_ns: u64,
    pub queue_submit_ns: u64,
    pub draw_fence_ns: u64,
    pub readback_ns: u64,
    pub passes: u64,
    pub draws: u64,
    pub transient_render_passes: u64,
    pub transient_framebuffers: u64,
    pub descriptor_pools: u64,
}

pub fn submit_snapshot(stats: &SubmitStats) -> (s: SubmitSnapshot)
    ensures
        s == (SubmitSnapshot {
            guest_submit_calls: stats.guest_submit_calls,
            guest_submit_ns: stats.guest_submit_ns,
            guest_flip_ns: stats.guest_flip_ns,
            backend_ns: stats.backend_ns,
            walk_ns: stats.walk_ns,
            record_passes_ns: stats.record_passes_ns,
            record_ns: stats.record_ns,
            transient_create_ns: stats.transient_create_ns,
            transient_destroy_ns: stats.transient_destroy_ns,
            queue_submit_ns: stats.queue_submit_ns,
            draw_fence_ns: stats.draw_fence_ns,
            readback_ns: stats.readback_ns,
            passes: stats.passes,
            draws: stats.draws,
            transient_render_passes: stats.transient_render_passes,
            transient_framebuffers: stats.transient_framebuffers,
            descriptor_pools: stats.descriptor_pools,
        }),
{
    SubmitSnapshot {
        guest_submit_calls: stats.guest_submit_calls,
        guest_submit_ns: stats.guest_submit_ns,
        guest_flip_ns: stats.guest_flip_ns,
        backend_ns: stats.backend_ns,
        walk_ns: stats.walk_ns,
        record_passes_ns: stats.record_passes_ns,
        record_ns: stats.record_ns,
        transient_create_ns: stats.transient_create_ns,
        transient_destroy_ns: stats.transient_destroy_ns,
        queue_submit_ns: stats.queue_submit_ns,
        draw_fence_ns: stats.draw_fence_ns,
        readback_ns: stats.readback_ns,
        passes: stats.passes,
        draws: stats.draws,
        transient_render_passes: stats.transient_render_passes,
        transient_framebuffers: stats.transient_framebuffers,
        descriptor_pools: stats.descriptor_pools,
    }
}

/// A present that comes a refresh period at sixty hertz after another, or later, is not
/// counted: the display cannot have dropped an image for it.
pub proof fn law_spaced_presents_are_not_counted(s: PresentStats, now: u64)
    requires
        60 * (now - s.last_present_ns) >= 1_000_000_000,
    ensures
        noted(s, now).presents_within_vblank == s.presents_within_vblank,
{
}

/// Every present that comes less than a refresh period at sixty hertz after another is
/// counted.
pub proof fn law_close_presents_are_counted(s: PresentStats, now: u64)
    requires
        s.last_present_ns != 0,
        60 * (now - s.last_present_ns) < 1_000_000_000,
    ensures
        noted(s, now).presents_within_vblank == wrapped(s.presents_within_vblank, 1),
{
}

/// The counters after presents at these times.
pub open spec fn noted_all(s: PresentStats, times: Seq<u64>) -> PresentStats
    decreases times.len(),
{
    if times.len() == 0 {
        s
    } else {
        noted(noted_all(s, times.drop_last()), times.last())
    }
}

/// When the present before present `i` was: `last` for the first of them.
pub open spec fn present_before(last: u64, times: Seq<u64>, i: int) -> u64 {
    if i == 0 {
        last
    } else {
        times[i - 1]
    }
}

/// A counter that has not moved is a proof of absence: no present came less than a refresh
/// period after the one before it, so that the display dropped no image.  A counter that has
/// moved is a bound: it counts no more than there were presents.
pub proof fn law_unmoved_counter_proves_absence(s: PresentStats, times: Seq<u64>)
    requires
        s.presents_within_vblank + times.len() <= u64::MAX,
    ensures
        s.presents_within_vblank <= noted_all(s, times).presents_within_vblank
            <= s.presents_within_vblank + times.len(),
        noted_all(s, times).presents_within_vblank == s.presents_within_vblank ==> forall|i: int|
            0 <= i < times.len() && #[trigger] present_before(s.last_present_ns, times, i) != 0
                ==> 60 * (times[i] - present_before(s.last_present_ns, times, i))
                >= 1_000_000_000,
    decreases times.len(),
{
    lemma_last_present(s, times);
    if times.len() > 0 {
        let head = times.drop_last();
        let n = head.len() as int;
        law_unmoved_counter_proves_absence(s, head);
        lemma_last_present(s, head);
        let last = s.last_present_ns;
        if noted_all(s, times).presents_within_vblank == s.presents_within_vblank {
            assert forall|i: int|
                0 <= i < times.len() && #[trigger] present_before(last, times, i) != 0 implies 60
                * (times[i] - present_before(last, times, i)) >= 1_000_000_000 by {
                if i < n {
                    assert(present_before(last, head, i) == present_before(last, times, i));
                    assert(head[i] == times[i]);
                } else {
                    assert(present_before(last, times, n) == noted_all(s, head).last_present_ns);
                }
            }
        }
    }
}

/// The last present is the last that was noted.
proof fn lemma_last_present(s: PresentStats, times: Seq<u64>)
    ensures
        noted_all(s, times).last_present_ns == present_before(
            s.last_present_ns,
            times,
            times.len() as int,
        ),
{
}

/// The extremes bound every gap noted since they were last taken.
pub proof fn law_extremes_bound_gaps(s: PresentStats, now: u64)
    requires
        0 < s.last_present_ns <= now,
    ensures
        noted(s, now).present_gap_min_ns <= now - s.last_present_ns <= noted(
            s,
            now,
        ).present_gap_max_ns,
        noted(s, now).present_gap_min_ns <= s.present_gap_min_ns,
        noted(s, now).present_gap_max_ns >= s.present_gap_max_ns,
{
}

/// Sums are taken modulo two to the 64.
pub proof fn law_sums_wrap(a: u64, b: u64)
    ensures
        wrapped(a, b) == (a + b) % 0x1_0000_0000_0000_0000,
{
}

/// A text is a number exactly where it has digits and nothing else, and it is the number that
/// the digits stand for.
pub proof fn law_numbers_are_read(s: Seq<char>)
    ensures
        parse_digits(s) is Some <==> s.len() > 0 && forall|i: int|
            0 <= i < s.len() ==> '0' <= #[trigger] s[i] <= '9',
        parse_digits(s) matches Some(n) ==> n == crate::text::value(s),
    decreases s.len(),
{
    if s.len() > 0 {
        let head = s.drop_last();
        law_numbers_are_read(head);
        if head.len() == 0 {
            reveal_with_fuel(crate::text::value, 2);
        }
        if parse_digits(s) is Some {
            assert forall|i: int| 0 <= i < s.len() implies '0' <= #[trigger] s[i] <= '9' by {
                if i < head.len() {
                    assert(s[i] == head[i]);
                }
            }
        }
        if forall|i: int| 0 <= i < s.len() ==> '0' <= #[trigger] s[i] <= '9' {
            assert(forall|i: int| 0 <= i < head.len() ==> #[trigger] head[i] == s[i]);
        }
    }
}

/// The setting turns the profiler on exactly where it is a number from one up that a machine
/// word holds, written with digits alone or with one plus sign before them.
pub proof fn law_setting(text: Seq<char>)
    ensures
        !setting_enables(None),
        text.len() == 0 || text[0] != '+' ==> (setting_enables(Some(text)) <==> all_digits(text)
            && 1 <= crate::text::value(text) <= 0xFFFF_FFFF_FFFF_FFFF),
        text.len() > 0 && text[0] == '+' ==> (setting_enables(Some(text)) <==> all_digits(
            text.skip(1),
        ) && 1 <= crate::text::value(text.skip(1)) <= 0xFFFF_FFFF_FFFF_FFFF),
{
    law_numbers_are_read(text);
    law_numbers_are_read(text.skip(1));
}

/// A text of digits, at least one.
pub open spec fn all_digits(s: Seq<char>) -> bool {
    s.len() > 0 && forall|i: int| 0 <= i < s.len() ==> '0' <= #[trigger] s[i] <= '9'
}

/// A present adds the time since the one before to the sum of gaps, and is the next one's
/// before; the first has no gap.  Nothing else is counted.
pub proof fn law_gaps_are_summed(s: PresentStats, now: u64)
    ensures
        ({
            let t = noted(s, now);
            &&& t.last_present_ns == now
            &&& t.frames == s.frames && t.fence_wait_ns == s.fence_wait_ns && t.acquire_ns
                == s.acquire_ns && t.fb_copy_ns == s.fb_copy_ns && t.record_submit_ns
                == s.record_submit_ns && t.present_ns == s.present_ns && t.pace_sleep_ns
                == s.pace_sleep_ns
            &&& s.last_present_ns == 0 ==> t.present_gap_ns == s.present_gap_ns
                && t.present_gap_min_ns == s.present_gap_min_ns && t.present_gap_max_ns
                == s.present_gap_max_ns && t.presents_within_vblank == s.presents_within_vblank
            &&& 0 < s.last_present_ns <= now ==> {
                let gap = now - s.last_present_ns;
                &&& t.present_gap_ns == (s.present_gap_ns + gap) % 0x1_0000_0000_0000_0000
                &&& t.present_gap_min_ns == gap || t.present_gap_min_ns == s.present_gap_min_ns
                &&& t.present_gap_max_ns == gap || t.present_gap_max_ns == s.present_gap_max_ns
                &&& t.present_gap_min_ns <= gap <= t.present_gap_max_ns
            }
        }),
{
}

/// Every kind of command is counted under a number of its own, and reported under its own name;
/// what has none is counted as the last.
pub proof fn law_kinds_have_their_names(cmd: BackendCmd)
    ensures
        0 <= kind_of(cmd) < 18,
        cmd is CreatePipeline <==> kind_of(cmd) == 0,
        cmd is BindPipeline <==> kind_of(cmd) == 1,
        cmd is DrawAuto <==> kind_of(cmd) == 2,
        cmd is BindVertexBuffer <==> kind_of(cmd) == 3,
        cmd is BindStorageBuffer <==> kind_of(cmd) == 4,
        cmd is BindConstBuffer <==> kind_of(cmd) == 5,
        cmd is DrawIndexed <==> kind_of(cmd) == 6,
        cmd is SetViewport <==> kind_of(cmd) == 7,
        cmd is SetScissor <==> kind_of(cmd) == 8,
        cmd is CreateBuffer <==> kind_of(cmd) == 9,
        cmd is UploadBuffer <==> kind_of(cmd) == 10,
        cmd is ImportBuffer <==> kind_of(cmd) == 11,
        cmd is FreeResource <==> kind_of(cmd) == 12,
        cmd is CreateImage <==> kind_of(cmd) == 13,
        cmd is UploadImage <==> kind_of(cmd) == 14,
        cmd is CreateSampler <==> kind_of(cmd) == 15,
        cmd is BindTexture <==> kind_of(cmd) == 16,
        cmd is CreatePipeline ==> kind_name(kind_of(cmd)) == "CreatePipeline"@,
        cmd is BindPipeline ==> kind_name(kind_of(cmd)) == "BindPipeline"@,
        cmd is DrawAuto ==> kind_name(kind_of(cmd)) == "DrawAuto"@,
        cmd is BindVertexBuffer ==> kind_name(kind_of(cmd)) == "BindVertexBuffer"@,
        cmd is BindStorageBuffer ==> kind_name(kind_of(cmd)) == "BindStorageBuffer"@,
        cmd is BindConstBuffer ==> kind_name(kind_of(cmd)) == "BindConstBuffer"@,
        cmd is DrawIndexed ==> kind_name(kind_of(cmd)) == "DrawIndexed"@,
        cmd is SetViewport ==> kind_name(kind_of(cmd)) == "SetViewport"@,
        cmd is SetScissor ==> kind_name(kind_of(cmd)) == "SetScissor"@,
        cmd is CreateBuffer ==> kind_name(kind_of(cmd)) == "CreateBuffer"@,
        cmd is UploadBuffer ==> kind_name(kind_of(cmd)) == "UploadBuffer"@,
        cmd is ImportBuffer ==> kind_name(kind_of(cmd)) == "ImportBuffer"@,
        cmd is FreeResource ==> kind_name(kind_of(cmd)) == "FreeResource"@,
        cmd is CreateImage ==> kind_name(kind_of(cmd)) == "CreateImage"@,
        cmd is UploadImage ==> kind_name(kind_of(cmd)) == "UploadImage"@,
        cmd is CreateSampler ==> kind_name(kind_of(cmd)) == "CreateSampler"@,
        cmd is BindTexture ==> kind_name(kind_of(cmd)) == "BindTexture"@,
        kind_of(cmd) == 17 ==> kind_name(kind_of(cmd)) == "other"@,
{
}

/// The smallest gap that is reported is the one that was seen, or zero before any was.
pub proof fn law_no_gap_is_zero(stored: u64)
    ensures
        stored == 0xFFFF_FFFF_FFFF_FFFF ==> gap_min(stored) == 0,
        stored != 0xFFFF_FFFF_FFFF_FFFF ==> gap_min(stored) == stored,
{
}

} // verus!
