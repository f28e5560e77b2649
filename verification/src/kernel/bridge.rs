//! What the guest's calls into the kernel come to where they meet guest memory and the
//! display.

use crate::gpu::formats::DEFAULT_SCANOUT_FORMAT;
use crate::kernel::process::Process;
use vstd::prelude::*;

verus! {

pub const ENOMEM: i32 = 12;
pub const EFAULT: i32 = 14;

/// The error of a thread that could not be made or started.
pub const THREAD_ERROR: i64 = 0x8002_0001;

/// How many buffers one call registers at most.
pub const MAX_BUFFERS: i32 = 16;

/// The size and pixel format of the buffers that a guest shows.
#[derive(Clone, Copy, Debug, PartialEq, Eq, Structural)]
pub struct VideoOutBufferAttribute {
    pub width: u32,
    pub height: u32,
    pub pixel_format: u32,
}

/// What a guest gets that states no attribute.
pub open spec fn default_attr() -> VideoOutBufferAttribute {
    VideoOutBufferAttribute { width: 1920, height: 1080, pixel_format: DEFAULT_SCANOUT_FORMAT }
}

/// The attribute that a guest states, from what its memory holds: `None` stands for memory
/// that cannot be read.
pub open spec fn attr_of(
    attr_ptr: u64,
    pixel_format: Option<u32>,
    width: Option<u32>,
    height: Option<u32>,
) -> VideoOutBufferAttribute {
    if attr_ptr != 0 && width is Some && height is Some && width != Some(0u32) && height != Some(
        0u32,
    ) {
        VideoOutBufferAttribute {
            width: width->0,
            height: height->0,
            pixel_format: match pixel_format {
                Some(f) => f,
                None => DEFAULT_SCANOUT_FORMAT,
            },
        }
    } else {
        default_attr()
    }
}

/// Where the fields of an attribute lie: the format, the width and the height.
pub fn attr_fields(attr_ptr: u64) -> (at: (u64, u64, u64))
    requires
        attr_ptr + 16 <= u64::MAX,
    ensures
        at == (attr_ptr, (attr_ptr + 12) as u64, (attr_ptr + 16) as u64),
{
    (attr_ptr, attr_ptr + 12, attr_ptr + 16)
}

/// How many entries of a list of buffers are read.
pub open spec fn buffer_count(count: i32) -> int {
    if count <= 0 {
        0
    } else if count >= MAX_BUFFERS {
        MAX_BUFFERS as int
    } else {
        count as int
    }
}

/// The bits of a display index.
pub open spec fn index_bits(i: int) -> u32 {
    if i >= 0 {
        i as u32
    } else {
        (i + 0x1_0000_0000) as u32
    }
}

/// A buffer to register: its address, and the index it is shown by.
#[derive(Clone, Copy, Debug, PartialEq, Eq, Structural)]
pub struct Registration {
    pub addr: u64,
    pub index: u32,
}

/// The buffers of a list that are registered: those that could be read and are not null,
/// each at its own index.
pub open spec fn registrations_of(start: i32, reads: Seq<Option<u64>>) -> Seq<Registration>
    decreases reads.len(),
{
    if reads.len() == 0 {
        Seq::empty()
    } else {
        let front = registrations_of(start, reads.drop_last());
        match reads.last() {
            Some(addr) => if addr != 0 {
                front.push(Registration { addr, index: index_bits(start + reads.len() - 1) })
            } else {
                front
            },
            None => front,
        }
    }
}

/// A display index in bits.
fn bits_of(i: i32) -> (b: u32)
    ensures
        b == index_bits(i as int),
{
    if i >= 0 {
        i as u32
    } else {
        0xFFFF_FFFF - (-(i + 1)) as u32
    }
}

/// Reserve room for `len` more bytes.
///
/// This is `Vec::try_reserve_exact`.  It is trusted that the bytes held stay as they are,
/// that nothing more is always granted, and that more bytes than a vector can ever hold
/// are refused.  Whether other lengths are granted is up to the allocator, and is left
/// unsaid.
#[verifier::external_body]
fn try_reserve_exact(buf: &mut Vec<u8>, len: usize) -> (ok: bool)
    ensures
        final(buf)@ == old(buf)@,
        len == 0 ==> ok,
        old(buf)@.len() + len > isize::MAX ==> !ok,
{
    buf.try_reserve_exact(len).is_ok()
}

/// A buffer of zeros, once room for it was asked for: an error where it was refused.
pub fn scratch(buf: Vec<u8>, reserved: bool, len: usize) -> (r: Result<Vec<u8>, i32>)
    requires
        buf@.len() == 0,
    ensures
        match r {
            Ok(v) => reserved && v@ == Seq::new(len as nat, |i: int| 0u8),
            Err(e) => !reserved && e == ENOMEM,
        },
{
    if !reserved {
        return Err(ENOMEM);
    }
    let mut buf = buf;
    buf.resize(len, 0);
    assert(buf@ =~= Seq::new(len as nat, |i: int| 0u8));
    Ok(buf)
}

/// A buffer of zeros for a transfer.  A length that no memory is to be had for is an
/// error, not the end of the program.
pub fn alloc_io_scratch(len: usize) -> (r: Result<Vec<u8>, i32>)
    ensures
        match r {
            Ok(v) => v@ == Seq::new(len as nat, |i: int| 0u8),
            Err(e) => e == ENOMEM,
        },
        len == 0 ==> r is Ok,
        len > isize::MAX ==> r is Err,
{
    let mut buf: Vec<u8> = Vec::new();
    let reserved: bool = try_reserve_exact(&mut buf, len);
    scratch(buf, reserved, len)
}

/// What a read returns once its bytes were put into guest memory, or could not be.
pub fn delivered(n: usize, written: bool) -> (r: Result<usize, i32>)
    ensures
        r == (if written {
            Ok::<usize, i32>(n)
        } else {
            Err::<usize, i32>(EFAULT)
        }),
{
    if written {
        Ok(n)
    } else {
        Err(EFAULT)
    }
}

/// What making a thread returns.
pub fn created(tid: Option<u32>) -> (r: Result<u32, i64>)
    ensures
        r == (match tid {
            Some(t) => Ok::<u32, i64>(t),
            None => Err::<u32, i64>(THREAD_ERROR),
        }),
{
    match tid {
        Some(t) => Ok(t),
        None => Err(THREAD_ERROR),
    }
}

/// The kernel as a guest calls it.
pub struct KernelBridge {
    pub process: Process,
}

impl KernelBridge {
    pub fn new(process: Process) -> (b: Self)
        requires
            process.wf(),
        ensures
            b.process == process,
    {
        KernelBridge { process }
    }

    /// The attribute that a guest states.
    pub fn read_videoout_attr(
        attr_ptr: u64,
        pixel_format: Option<u32>,
        width: Option<u32>,
        height: Option<u32>,
    ) -> (attr: VideoOutBufferAttribute)
        ensures
            attr == attr_of(attr_ptr, pixel_format, width, height),
    {
        let default = VideoOutBufferAttribute {
            width: 1920,
            height: 1080,
            pixel_format: DEFAULT_SCANOUT_FORMAT,
        };
        if attr_ptr == 0 {
            return default;
        }
        match (width, height) {
            (Some(w), Some(h)) => {
                if w == 0 || h == 0 {
                    return default;
                }
                let format: u32 = match pixel_format {
                    Some(f) => f,
                    None => DEFAULT_SCANOUT_FORMAT,
                };
                VideoOutBufferAttribute { width: w, height: h, pixel_format: format }
            },
            _ => default,
        }
    }

    /// Where the entries of a list of buffers lie that are to be read.
    pub fn buffer_list(ptr: u64, count: i32) -> (at: Vec<u64>)
        requires
            buffer_count(count) == 0 || ptr + 8 * (buffer_count(count) - 1) <= u64::MAX,
        ensures
            at@ == Seq::new(buffer_count(count) as nat, |i: int| (ptr + 8 * i) as u64),
    {
        let n: u64 = if count <= 0 {
            0
        } else if count >= MAX_BUFFERS {
            16
        } else {
            count as u64
        };
        let mut at: Vec<u64> = Vec::new();
        let mut i: u64 = 0;
        while i < n
            invariant
                n == buffer_count(count),
                n == 0 || ptr + 8 * (n - 1) <= u64::MAX,
                i <= n,
                at@.len() == i,
                forall|k: int| 0 <= k < i ==> at@[k] == ptr + 8 * k,
            decreases n - i,
        {
            at.push(ptr + 8 * i);
            i = i + 1;
        }
        assert(at@ =~= Seq::new(buffer_count(count) as nat, |i: int| (ptr + 8 * i) as u64));
        at
    }

    /// The buffers to register, given what was read of the list: `None` stands for an
    /// entry that could not be read.
    pub fn video_out_register_buffers(start_index: i32, reads: &Vec<Option<u64>>) -> (out: Vec<
        Registration,
    >)
        requires
            start_index + reads@.len() <= i32::MAX + 1,
        ensures
            out@ == registrations_of(start_index, reads@),
    {
        let mut out: Vec<Registration> = Vec::new();
        let mut i: usize = 0;
        assert(reads@.take(0) =~= Seq::empty());
        while i < reads.len()
            invariant
                start_index + reads@.len() <= i32::MAX + 1,
                i <= reads@.len(),
                out@ == registrations_of(start_index, reads@.take(i as int)),
            decreases reads@.len() - i,
        {
            assert(reads@.take(i + 1).drop_last() =~= reads@.take(i as int));
            if let Some(addr) = reads[i] {
                if addr != 0 {
                    let shift: i64 = i as i64;
                    let index: i32 = (start_index as i64 + shift) as i32;
                    out.push(Registration { addr, index: bits_of(index) });
                }
            }
            i = i + 1;
        }
        assert(reads@.take(i as int) =~= reads@);
        out
    }

    /// The display a guest opens: there is one.
    pub fn video_out_open() -> (r: Result<i32, i32>)
        ensures
            r == Ok::<i32, i32>(0),
    {
        Ok(0)
    }

    /// The index of the buffer that a flip shows.
    pub fn video_out_submit_flip(index: i32) -> (i: u32)
        ensures
            i == index_bits(index as int),
    {
        bits_of(index)
    }
}

/// Every buffer of a list is registered at its place in the list: that others cannot be
/// read does not move it.
pub proof fn law_buffers_keep_their_index(start: i32, reads: Seq<Option<u64>>, i: int)
    requires
        0 <= i < reads.len(),
        reads[i] is Some,
        reads[i] != Some(0u64),
    ensures
        registrations_of(start, reads).contains(
            Registration { addr: reads[i]->0, index: index_bits(start + i) },
        ),
    decreases reads.len(),
{
    let r = Registration { addr: reads[i]->0, index: index_bits(start + i) };
    let front = registrations_of(start, reads.drop_last());
    let all = registrations_of(start, reads);
    if i == reads.len() - 1 {
        assert(all.last() == r);
    } else {
        law_buffers_keep_their_index(start, reads.drop_last(), i);
        let k = choose|k: int| 0 <= k < front.len() && front[k] == r;
        assert(all[k] == r);
    }
}

/// An attribute counts where there is one and its size can be read and is not null; its format
/// counts where it can be read.  Else the size is 1920 by 1080 and the format 0x8000_0000.
pub proof fn law_attributes(
    attr_ptr: u64,
    pixel_format: Option<u32>,
    width: Option<u32>,
    height: Option<u32>,
)
    ensures
        ({
            let a = attr_of(attr_ptr, pixel_format, width, height);
            let counts = attr_ptr != 0 && width is Some && height is Some && width->0 > 0
                && height->0 > 0;
            &&& counts ==> a.width == width->0 && a.height == height->0
            &&& counts && pixel_format is Some ==> a.pixel_format == pixel_format->0
            &&& counts && pixel_format is None ==> a.pixel_format == 0x8000_0000
            &&& !counts ==> a.width == 1920 && a.height == 1080 && a.pixel_format == 0x8000_0000
        }),
        ENOMEM == 12 && EFAULT == 14 && THREAD_ERROR == 0x8002_0001,
{
}

/// Of a list as many entries are read as it has, and no more than 16.
pub proof fn law_lists_are_bounded(count: i32)
    ensures
        count <= 0 ==> buffer_count(count) == 0,
        0 <= count <= 16 ==> buffer_count(count) == count,
        count > 16 ==> buffer_count(count) == 16,
{
}

/// A display index keeps its 32 bits.
pub proof fn law_indices_keep_their_bits(i: i32)
    ensures
        (index_bits(i as int) - i) % 0x1_0000_0000 == 0,
{
}

/// A list of buffers registers those entries, in order, that could be read and are not null, each
/// at the place that it has in the list, from the first index on.
pub proof fn law_registrations(start: i32, reads: Seq<Option<u64>>, next: Option<u64>)
    ensures
        registrations_of(start, Seq::<Option<u64>>::empty()).len() == 0,
        next is None || next == Some(0u64) ==> registrations_of(start, reads.push(next))
            == registrations_of(start, reads),
        next is Some && next != Some(0u64) ==> registrations_of(start, reads.push(next))
            == registrations_of(start, reads).push(
            Registration { addr: next->0, index: index_bits(start + reads.len()) },
        ),
{
    assert(reads.push(next).drop_last() =~= reads);
}

} // verus!
