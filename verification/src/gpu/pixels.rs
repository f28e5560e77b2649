//! Swapchain pixels as 8-bit RGBA.

use vstd::prelude::*;

use crate::bytes::{from_le32, read_le32};
use crate::gpu::vk::Format;

verus! {

/// The word of texel `i` of a packed picture.
pub open spec fn packed_texel(raw: Seq<u8>, i: int) -> int {
    from_le32(raw.subrange(4 * i, 4 * i + 4))
}

/// Channel `c` (red, green, blue, alpha) of a packed 2-10-10-10 texel, in 8 bits: the
/// lowest field is red, unless `r_high`; the two alpha bits are spread over the range.
pub open spec fn unpacked_channel(v: int, r_high: bool, c: int) -> int {
    let low = v % 1024;
    let mid = v / 1024 % 1024;
    let high = v / 1048576 % 1024;
    let alpha = v / 1073741824;
    if c == 0 {
        (if r_high { high } else { low }) / 4
    } else if c == 1 {
        mid / 4
    } else if c == 2 {
        (if r_high { low } else { high }) / 4
    } else {
        alpha * 85
    }
}

/// The unpacked picture of `raw`; bytes behind the last whole texel are left out.
pub open spec fn unpacked(raw: Seq<u8>, r_high: bool) -> Seq<u8> {
    Seq::new(
        (raw.len() / 4 * 4) as nat,
        |k: int| unpacked_channel(packed_texel(raw, k / 4), r_high, k % 4) as u8,
    )
}

/// Unpack a 2-10-10-10 picture; `r_high` says that red is in the high field.
pub fn unpack_a2_10_10_10(raw: &[u8], r_high: bool) -> (out: Vec<u8>)
    ensures
        out@ == unpacked(raw@, r_high),
{
    let mut out: Vec<u8> = Vec::new();
    let n: usize = raw.len();
    let count: usize = n / 4;
    let mut i: usize = 0;
    while i < count
        invariant
            i <= count,
            n == raw@.len(),
            count == n / 4,
            out@.len() == 4 * i,
            forall|k: int, c: int|
                0 <= k < i && 0 <= c < 4 ==> #[trigger] out@[4 * k + c] == unpacked_channel(
                    packed_texel(raw@, k),
                    r_high,
                    c,
                ),
        decreases count - i,
    {
        let v: u32 = read_le32(raw, 4 * i);
        let low: u32 = v % 1024;
        let mid: u32 = v / 1024 % 1024;
        let high: u32 = v / 1048576 % 1024;
        let alpha: u32 = v / 1073741824;
        let (r, b): (u32, u32) = if r_high {
            (high, low)
        } else {
            (low, high)
        };
        let ghost before = out@;
        out.push((r / 4) as u8);
        out.push((mid / 4) as u8);
        out.push((b / 4) as u8);
        out.push((alpha * 255 / 3) as u8);
        assert forall|k: int, c: int| 0 <= k < i + 1 && 0 <= c < 4 implies #[trigger] out@[4 * k + c]
            == unpacked_channel(packed_texel(raw@, k), r_high, c) by {
            if k < i {
                assert(before[4 * k + c] == out@[4 * k + c]);
            }
        }
        i = i + 1;
    }
    assert forall|k: int| 0 <= k < out@.len() implies out@[k] == unpacked(raw@, r_high)[k] by {
        assert(out@[4 * (k / 4) + k % 4] == unpacked_channel(
            packed_texel(raw@, k / 4),
            r_high,
            k % 4,
        ));
    }
    assert(out@ =~= unpacked(raw@, r_high));
    out
}

/// Byte `k` of a picture whose first and third channel change places; bytes behind the
/// last whole texel stay.
pub open spec fn swapped_byte(raw: Seq<u8>, k: int) -> u8 {
    if k / 4 >= raw.len() / 4 {
        raw[k]
    } else if k % 4 == 0 {
        raw[k + 2]
    } else if k % 4 == 2 {
        raw[k - 2]
    } else {
        raw[k]
    }
}

fn swap_red_blue(raw: &[u8]) -> (out: Vec<u8>)
    ensures
        out@ == Seq::new(raw@.len(), |k: int| swapped_byte(raw@, k)),
{
    let mut out: Vec<u8> = Vec::new();
    let n: usize = raw.len();
    let mut k: usize = 0;
    while k < n
        invariant
            k <= n,
            n == raw@.len(),
            out@.len() == k,
            forall|j: int| 0 <= j < k ==> #[trigger] out@[j] == swapped_byte(raw@, j),
        decreases n - k,
    {
        let whole: bool = k / 4 < n / 4;
        let b: u8 = if whole && k % 4 == 0 {
            raw[k + 2]
        } else if whole && k % 4 == 2 {
            raw[k - 2]
        } else {
            raw[k]
        };
        out.push(b);
        k = k + 1;
    }
    assert(out@ =~= Seq::new(raw@.len(), |k: int| swapped_byte(raw@, k)));
    out
}

/// The 8-bit RGBA picture of a swapchain readback.  The surface may be 8-bit in either
/// channel order or packed 10-bit; bytes of any other format are passed on as they are.
pub open spec fn rgba8_of(raw: Seq<u8>, format: Format) -> Seq<u8> {
    match format {
        Format::B8G8R8A8Unorm | Format::B8G8R8A8Srgb => Seq::new(
            raw.len(),
            |k: int| swapped_byte(raw, k),
        ),
        Format::A2B10G10R10UnormPack32 => unpacked(raw, false),
        Format::A2R10G10B10UnormPack32 => unpacked(raw, true),
        _ => raw,
    }
}

/// The 8-bit RGBA picture of a swapchain readback.
pub fn swapchain_to_rgba8(raw: &[u8], format: Format) -> (out: Vec<u8>)
    ensures
        out@ == rgba8_of(raw@, format),
{
    match format {
        Format::B8G8R8A8Unorm | Format::B8G8R8A8Srgb => swap_red_blue(raw),
        Format::A2B10G10R10UnormPack32 => unpack_a2_10_10_10(raw, false),
        Format::A2R10G10B10UnormPack32 => unpack_a2_10_10_10(raw, true),
        _ => {
            let mut out: Vec<u8> = Vec::new();
            crate::bytes::push_all(&mut out, raw);
            assert(out@ =~= raw@);
            out
        },
    }
}

/// Swapping red and blue twice changes nothing.
pub proof fn law_swap_is_an_involution(raw: Seq<u8>, k: int)
    requires
        0 <= k < raw.len(),
    ensures
        swapped_byte(Seq::new(raw.len(), |j: int| swapped_byte(raw, j)), k) == raw[k],
{
}

/// The two packed formats differ in which of red and blue is which.
pub proof fn law_r_high_swaps_red_and_blue(v: int)
    ensures
        unpacked_channel(v, true, 0) == unpacked_channel(v, false, 2),
        unpacked_channel(v, true, 2) == unpacked_channel(v, false, 0),
        unpacked_channel(v, true, 1) == unpacked_channel(v, false, 1),
        unpacked_channel(v, true, 3) == unpacked_channel(v, false, 3),
{
}

/// A picture in 8-bit RGBA has the channels of the readback, each in its place.  In a packed
/// texel the fields are 10 bits wide, red the lowest or, in the other format, blue, and two bits
/// of alpha the highest: the upper 8 bits of a field are kept, and alpha is spread over 0, 85,
/// 170 and 255.  Of BGRA texels the first and third byte change places.
pub proof fn law_channels_are_kept(
    raw: Seq<u8>,
    i: int,
    low: int,
    mid: int,
    high: int,
    alpha: int,
    format: Format,
)
    requires
        0 <= i < raw.len() / 4,
        0 <= low < 1024,
        0 <= mid < 1024,
        0 <= high < 1024,
        0 <= alpha < 4,
    ensures
        ({
            let out = rgba8_of(raw, format);
            let word = raw[4 * i] + 0x100 * raw[4 * i + 1] + 0x1_0000 * raw[4 * i + 2]
                + 0x100_0000 * raw[4 * i + 3];
            let fields = word == low + 0x400 * mid + 0x10_0000 * high + 0x4000_0000 * alpha;
            &&& format is A2B10G10R10UnormPack32 && fields ==> out.len() == raw.len() - raw.len()
                % 4 && out[4 * i] == low / 4 && out[4 * i + 1] == mid / 4 && out[4 * i + 2] == high
                / 4 && out[4 * i + 3] == alpha * 85
            &&& format is A2R10G10B10UnormPack32 && fields ==> out.len() == raw.len() - raw.len()
                % 4 && out[4 * i] == high / 4 && out[4 * i + 1] == mid / 4 && out[4 * i + 2] == low
                / 4 && out[4 * i + 3] == alpha * 85
            &&& format is B8G8R8A8Unorm || format is B8G8R8A8Srgb ==> out.len() == raw.len()
                && out[4 * i] == raw[4 * i + 2] && out[4 * i + 1] == raw[4 * i + 1] && out[4 * i
                + 2] == raw[4 * i] && out[4 * i + 3] == raw[4 * i + 3]
            &&& !(format is A2B10G10R10UnormPack32 || format is A2R10G10B10UnormPack32 || format
                is B8G8R8A8Unorm || format is B8G8R8A8Srgb) ==> out == raw
        }),
{
    let out = rgba8_of(raw, format);
    let word = raw[4 * i] + 0x100 * raw[4 * i + 1] + 0x1_0000 * raw[4 * i + 2] + 0x100_0000 * raw[4
        * i + 3];
    assert(packed_texel(raw, i) == word);
    if word == low + 0x400 * mid + 0x10_0000 * high + 0x4000_0000 * alpha {
        lemma_fields(word, low, mid, high, alpha);
    }
    assert((4 * i) / 4 == i && (4 * i + 1) / 4 == i && (4 * i + 2) / 4 == i && (4 * i + 3) / 4 == i);
    assert((4 * i) % 4 == 0 && (4 * i + 1) % 4 == 1 && (4 * i + 2) % 4 == 2 && (4 * i + 3) % 4 == 3);
}

proof fn lemma_fields(v: int, low: int, mid: int, high: int, alpha: int)
    requires
        v == low + 0x400 * mid + 0x10_0000 * high + 0x4000_0000 * alpha,
        0 <= low < 1024,
        0 <= mid < 1024,
        0 <= high < 1024,
        0 <= alpha < 4,
    ensures
        unpacked_channel(v, false, 0) == low / 4,
        unpacked_channel(v, false, 1) == mid / 4,
        unpacked_channel(v, false, 2) == high / 4,
        unpacked_channel(v, false, 3) == alpha * 85,
        unpacked_channel(v, true, 0) == high / 4,
        unpacked_channel(v, true, 1) == mid / 4,
        unpacked_channel(v, true, 2) == low / 4,
        unpacked_channel(v, true, 3) == alpha * 85,
{
    assert(v % 1024 == low);
    assert(v / 1024 == mid + 0x400 * high + 0x10_0000 * alpha);
    assert(v / 1024 % 1024 == mid);
    assert(v / 1048576 == high + 0x400 * alpha);
    assert(v / 1048576 % 1024 == high);
    assert(v / 1073741824 == alpha);
}

} // verus!
