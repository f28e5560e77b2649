//! A plain PNG encoder: 8-bit RGBA, stored without compression.

use crate::text::{append_padded, law_padded_decimal_is_injective, padded_decimal};
use vstd::prelude::*;
use vstd::string::StrSliceExecFns;
use vstd::string::StringExecFns;

use crate::bytes::{be32, le16, push_all, push_be32, push_le16};

verus! {

broadcast use vstd::string::group_string_axioms;

/// One bit of the CRC.
pub open spec fn crc_bit(crc: u32) -> u32 {
    if crc & 1 == 1 {
        (crc >> 1u32) ^ 0xEDB8_8320
    } else {
        crc >> 1u32
    }
}

pub open spec fn crc_bits(crc: u32, n: nat) -> u32
    decreases n,
{
    if n == 0 {
        crc
    } else {
        crc_bit(crc_bits(crc, (n - 1) as nat))
    }
}

/// The CRC register after some bytes.
pub open spec fn crc_register(bytes: Seq<u8>) -> u32
    decreases bytes.len(),
{
    if bytes.len() == 0 {
        0xFFFF_FFFF
    } else {
        crc_bits(crc_register(bytes.drop_last()) ^ (bytes.last() as u32), 8)
    }
}

pub open spec fn crc_of(bytes: Seq<u8>) -> u32 {
    !crc_register(bytes)
}

pub fn crc32(bytes: &[u8]) -> (crc: u32)
    ensures
        crc == crc_of(bytes@),
{
    let mut crc: u32 = 0xFFFF_FFFF;
    let mut i: usize = 0;
    assert(bytes@.take(0) == Seq::<u8>::empty());
    while i < bytes.len()
        invariant
            i <= bytes@.len(),
            crc == crc_register(bytes@.take(i as int)),
        decreases bytes@.len() - i,
    {
        let ghost start = crc ^ (bytes@[i as int] as u32);
        proof {
            assert(bytes@.take(i + 1).drop_last() == bytes@.take(i as int));
        }
        crc = crc ^ (bytes[i] as u32);
        let mut n: u32 = 0;
        while n < 8
            invariant
                n <= 8,
                crc == crc_bits(start, n as nat),
            decreases 8 - n,
        {
            crc = if crc & 1 == 1 {
                (crc >> 1u32) ^ 0xEDB8_8320
            } else {
                crc >> 1u32
            };
            n = n + 1;
        }
        i = i + 1;
    }
    assert(bytes@.take(i as int) == bytes@);
    !crc
}

/// The two running sums of an Adler checksum.
pub open spec fn adler_sums(bytes: Seq<u8>) -> (int, int)
    decreases bytes.len(),
{
    if bytes.len() == 0 {
        (1, 0)
    } else {
        let (a, b) = adler_sums(bytes.drop_last());
        let a2 = (a + bytes.last()) % 65521;
        (a2, (b + a2) % 65521)
    }
}

pub open spec fn adler_of(bytes: Seq<u8>) -> int {
    adler_sums(bytes).1 * 65536 + adler_sums(bytes).0
}

pub fn adler32(bytes: &[u8]) -> (sum: u32)
    ensures
        sum == adler_of(bytes@),
{
    let mut a: u32 = 1;
    let mut b: u32 = 0;
    let mut i: usize = 0;
    assert(bytes@.take(0) == Seq::<u8>::empty());
    while i < bytes.len()
        invariant
            i <= bytes@.len(),
            a < 65521,
            b < 65521,
            adler_sums(bytes@.take(i as int)) == (a as int, b as int),
        decreases bytes@.len() - i,
    {
        proof {
            assert(bytes@.take(i + 1).drop_last() == bytes@.take(i as int));
        }
        a = (a + bytes[i] as u32) % 65521;
        b = (b + a) % 65521;
        i = i + 1;
    }
    assert(bytes@.take(i as int) == bytes@);
    b * 65536 + a
}

/// A chunk: its length, its kind, its data, and the checksum of the last two.
pub open spec fn chunk_bytes(kind: Seq<u8>, data: Seq<u8>) -> Seq<u8> {
    be32((data.len() % 0x1_0000_0000) as u32) + kind + data + be32(crc_of(kind + data))
}

fn chunk(out: &mut Vec<u8>, kind: &[u8], data: &[u8])
    ensures
        final(out)@ == old(out)@ + chunk_bytes(kind@, data@),
{
    push_be32(out, (data.len() as u64 % 0x1_0000_0000) as u32);
    let mut covered: Vec<u8> = Vec::new();
    push_all(&mut covered, kind);
    push_all(&mut covered, data);
    assert(covered@ =~= kind@ + data@);
    push_all(out, kind);
    push_all(out, data);
    push_be32(out, crc32(covered.as_slice()));
    assert(out@ =~= old(out)@ + chunk_bytes(kind@, data@));
}

/// The rows of a picture, each behind a filter byte that says it is not filtered.
pub open spec fn scanlines(w: nat, h: nat, pixels: Seq<u8>) -> Seq<u8>
    decreases h,
{
    if h == 0 {
        Seq::empty()
    } else {
        let n = (h - 1) as nat;
        scanlines(w, n, pixels) + seq![0u8] + pixels.subrange(
            (n * (w * 4)) as int,
            (n * (w * 4) + w * 4) as int,
        )
    }
}

/// How long the next stored block is.
pub open spec fn block_len(raw: Seq<u8>) -> int {
    if raw.len() < 0xFFFF {
        raw.len() as int
    } else {
        0xFFFF
    }
}

/// One stored block: whether it is the last, its length, the length's complement, and
/// its bytes.
pub open spec fn stored_block(raw: Seq<u8>) -> Seq<u8> {
    let n = block_len(raw);
    seq![if n == raw.len() { 1u8 } else { 0u8 }] + le16(n as u16) + le16((0xFFFF - n) as u16)
        + raw.take(n)
}

/// Bytes cut into stored blocks.
pub open spec fn stored_blocks(raw: Seq<u8>) -> Seq<u8>
    decreases raw.len(),
{
    if raw.len() == 0 {
        Seq::empty()
    } else {
        stored_block(raw) + stored_blocks(raw.skip(block_len(raw)))
    }
}

pub open spec fn zlib_stream(raw: Seq<u8>) -> Seq<u8> {
    seq![0x78u8, 0x01u8] + stored_blocks(raw) + be32(adler_of(raw) as u32)
}

pub open spec fn png_signature() -> Seq<u8> {
    seq![0x89u8, 0x50, 0x4E, 0x47, 0x0D, 0x0A, 0x1A, 0x0A]
}

pub open spec fn png_header(w: u32, h: u32) -> Seq<u8> {
    be32(w) + be32(h) + seq![8u8, 6, 0, 0, 0]
}

/// The whole file: signature, header, picture data, end.
pub open spec fn png_file(w: u32, h: u32, pixels: Seq<u8>) -> Seq<u8> {
    png_signature() + chunk_bytes(seq![0x49u8, 0x48, 0x44, 0x52], png_header(w, h)) + chunk_bytes(
        seq![0x49u8, 0x44, 0x41, 0x54],
        zlib_stream(scanlines(w as nat, h as nat, pixels)),
    ) + chunk_bytes(seq![0x49u8, 0x45, 0x4E, 0x44], Seq::empty())
}

fn push_scanlines(out: &mut Vec<u8>, w: u32, h: u32, pixels: &[u8])
    requires
        pixels@.len() >= h * (w * 4),
    ensures
        final(out)@ == old(out)@ + scanlines(w as nat, h as nat, pixels@),
{
    let mut y: u32 = 0;
    let total: usize = pixels.len();
    let ghost row: nat = (w * 4) as nat;
    assert(old(out)@ + scanlines(w as nat, 0, pixels@) =~= old(out)@);
    while y < h
        invariant
            y <= h,
            row == w * 4,
            total == pixels@.len(),
            total >= h * row,
            out@ == old(out)@ + scanlines(w as nat, y as nat, pixels@),
        decreases h - y,
    {
        assert(y * row + row == (y + 1) * row) by (nonlinear_arith);
        assert((y + 1) * row <= h * row) by (nonlinear_arith)
            requires
                y + 1 <= h,
                0 <= row,
        ;
        assert(0 <= y * row) by (nonlinear_arith)
            requires
                0 <= row,
                0 <= y,
        ;
        assert(row <= (y + 1) * row) by (nonlinear_arith)
            requires
                0 <= y,
                0 <= row,
        ;
        let row_bytes: usize = w as usize * 4;
        let start: usize = y as usize * row_bytes;
        let end: usize = start + row_bytes;
        let ghost before = out@;
        out.push(0);
        push_all(out, vstd::slice::slice_subrange(pixels, start, end));
        assert(out@ =~= before + (seq![0u8] + pixels@.subrange(start as int, end as int)));
        proof {
            let n = y as nat;
            assert(((y + 1) as nat - 1) as nat == n);
            assert(n * ((w as nat) * 4) == start);
            assert(scanlines(w as nat, (y + 1) as nat, pixels@) == scanlines(w as nat, n, pixels@)
                + seq![0u8] + pixels@.subrange(start as int, end as int));
            assert(out@ =~= old(out)@ + scanlines(w as nat, (y + 1) as nat, pixels@));
        }
        y = y + 1;
    }
}

fn push_stored(out: &mut Vec<u8>, raw: &Vec<u8>)
    ensures
        final(out)@ == old(out)@ + stored_blocks(raw@),
{
    let mut off: usize = 0;
    assert(raw@.skip(0) =~= raw@);
    while off < raw.len()
        invariant
            off <= raw@.len(),
            out@ + stored_blocks(raw@.skip(off as int)) == old(out)@ + stored_blocks(raw@),
        decreases raw@.len() - off,
    {
        let ghost rest = raw@.skip(off as int);
        let ghost before = out@;
        let remaining: usize = raw.len() - off;
        let block: usize = if remaining < 0xFFFF {
            remaining
        } else {
            0xFFFF
        };
        let last: u8 = if block == remaining {
            1
        } else {
            0
        };
        out.push(last);
        push_le16(out, block as u16);
        push_le16(out, 0xFFFF - block as u16);
        push_all(out, vstd::slice::slice_subrange(raw.as_slice(), off, off + block));
        proof {
            assert(raw@.subrange(off as int, off + block) =~= rest.take(block as int));
            assert(out@ =~= before + stored_block(rest));
            assert(rest.skip(block as int) =~= raw@.skip(off + block));
            assert(before + (stored_block(rest) + stored_blocks(rest.skip(block as int))) =~= (
            before + stored_block(rest)) + stored_blocks(rest.skip(block as int)));
        }
        off = off + block;
    }
    assert(raw@.skip(off as int) =~= Seq::<u8>::empty());
    assert(out@ + stored_blocks(raw@.skip(off as int)) =~= out@);
}

/// The file of a `w` by `h` picture.
pub fn encode_rgba_png(w: u32, h: u32, pixels: &[u8]) -> (png: Vec<u8>)
    requires
        pixels@.len() >= h * (w * 4),
    ensures
        png@ == png_file(w, h, pixels@),
{
    let mut raw: Vec<u8> = Vec::new();
    push_scanlines(&mut raw, w, h, pixels);
    assert(raw@ =~= scanlines(w as nat, h as nat, pixels@));
    let mut zlib: Vec<u8> = Vec::new();
    zlib.push(0x78);
    zlib.push(0x01);
    push_stored(&mut zlib, &raw);
    push_be32(&mut zlib, adler32(raw.as_slice()));
    assert(zlib@ =~= zlib_stream(raw@));

    let mut png: Vec<u8> = Vec::new();
    let signature: [u8; 8] = [0x89, 0x50, 0x4E, 0x47, 0x0D, 0x0A, 0x1A, 0x0A];
    push_all(&mut png, signature.as_slice());
    assert(png@ =~= png_signature());
    let mut header: Vec<u8> = Vec::new();
    push_be32(&mut header, w);
    push_be32(&mut header, h);
    header.push(8);
    header.push(6);
    header.push(0);
    header.push(0);
    header.push(0);
    assert(header@ =~= png_header(w, h));
    let ihdr: [u8; 4] = [0x49, 0x48, 0x44, 0x52];
    let idat: [u8; 4] = [0x49, 0x44, 0x41, 0x54];
    let iend: [u8; 4] = [0x49, 0x45, 0x4E, 0x44];
    let nothing: Vec<u8> = Vec::new();
    chunk(&mut png, ihdr.as_slice(), header.as_slice());
    chunk(&mut png, idat.as_slice(), zlib.as_slice());
    chunk(&mut png, iend.as_slice(), nothing.as_slice());
    assert(ihdr@ =~= seq![0x49u8, 0x48, 0x44, 0x52]);
    assert(idat@ =~= seq![0x49u8, 0x44, 0x41, 0x54]);
    assert(iend@ =~= seq![0x49u8, 0x45, 0x4E, 0x44]);
    assert(nothing@ =~= Seq::<u8>::empty());
    assert(png@ =~= png_file(w, h, pixels@));
    png
}

/// Reading stored blocks: the bytes up to and with the last block, and what follows it.
/// `None` where the blocks are malformed.
pub open spec fn read_stored(stream: Seq<u8>) -> Option<(Seq<u8>, Seq<u8>)>
    decreases stream.len(),
{
    if stream.len() < 5 {
        None
    } else {
        let n = stream[1] + 256 * stream[2];
        if stream[3] + 256 * stream[4] != 0xFFFF - n || stream.len() < 5 + n {
            None
        } else {
            let data = stream.subrange(5, 5 + n);
            let rest = stream.skip(5 + n);
            if stream[0] == 1 {
                Some((data, rest))
            } else if stream[0] == 0 {
                match read_stored(rest) {
                    Some((more, end)) => Some((data + more, end)),
                    None => None,
                }
            } else {
                None
            }
        }
    }
}

/// A reader of the stored blocks gets the picture's rows back, byte for byte, and finds
/// the checksum right behind them.
pub proof fn law_stored_blocks_read_back(raw: Seq<u8>, tail: Seq<u8>)
    requires
        raw.len() > 0,
    ensures
        read_stored(stored_blocks(raw) + tail) == Some((raw, tail)),
    decreases raw.len(),
{
    let n = block_len(raw);
    let rest = raw.skip(n);
    let stream = stored_blocks(raw) + tail;
    let head = stored_block(raw);
    assert(stream =~= head + (stored_blocks(rest) + tail));
    assert(head.len() == 5 + n);
    assert(stream[1] == head[1] && stream[2] == head[2] && stream[3] == head[3] && stream[4]
        == head[4] && stream[0] == head[0]);
    assert(stream[1] + 256 * stream[2] == n);
    assert(stream.subrange(5, 5 + n) =~= raw.take(n));
    assert(stream.skip(5 + n) =~= stored_blocks(rest) + tail);
    if n == raw.len() {
        assert(rest =~= Seq::<u8>::empty());
        assert(stored_blocks(rest) + tail =~= tail);
        assert(raw.take(n) =~= raw);
    } else {
        law_stored_blocks_read_back(rest, tail);
        assert(raw.take(n) + rest =~= raw);
    }
}

/// Where frames are dumped to: one file that is written over, or a directory with a file
/// for each frame.
#[derive(Debug)]
pub struct DumpPng {
    pub path: String,
    pub is_dir: bool,
    pub frame: u32,
}

/// The name of a frame's file.
pub open spec fn frame_file(frame: u32) -> Seq<char> {
    "frame_"@ + padded_decimal(frame as nat, 4) + ".png"@
}

impl DumpPng {
    /// Dump to a path.  It is a directory where there is one, or where its name has no
    /// extension or ends in a slash.
    pub fn new(path: String, is_there: bool, has_extension: bool) -> (dump: Self)
        ensures
            dump.path == path,
            dump.is_dir == (is_there || !has_extension || (path@.len() > 0 && path@.last()
                == '/')),
            dump.frame == 0,
    {
        let n: usize = path.as_str().unicode_len();
        let slash: bool = n > 0 && path.as_str().get_char(n - 1) == '/';
        DumpPng { is_dir: is_there || !has_extension || slash, path, frame: 0 }
    }

    /// The name, in the directory, of the file for the next frame; `None` where the path
    /// itself is the file.
    pub fn next_file(&mut self) -> (name: Option<String>)
        ensures
            final(self).path == old(self).path,
            final(self).is_dir == old(self).is_dir,
            final(self).frame == (old(self).frame + 1) % 0x1_0000_0000,
            match name {
                Some(n) => old(self).is_dir && n@ == frame_file(old(self).frame),
                None => !old(self).is_dir,
            },
    {
        let frame: u32 = self.frame;
        self.frame = if frame == 0xFFFF_FFFF {
            0
        } else {
            frame + 1
        };
        if !self.is_dir {
            return None;
        }
        let mut name = String::from_str("frame_");
        append_padded(&mut name, frame as u64, 4);
        name.append(".png");
        Some(name)
    }
}

/// Frames go to files of their own, as long as the count of frames has not come round.
pub proof fn law_frames_have_their_own_files(a: u32, b: u32)
    requires
        frame_file(a) == frame_file(b),
    ensures
        a == b,
{
    let k = "frame_"@.len() as int;
    let pa = padded_decimal(a as nat, 4);
    let pb = padded_decimal(b as nat, 4);
    assert(frame_file(a).len() == k + pa.len() + ".png"@.len());
    assert(frame_file(b).len() == k + pb.len() + ".png"@.len());
    assert(pa =~= frame_file(a).subrange(k, k + pa.len()));
    assert(pb =~= frame_file(b).subrange(k, k + pb.len()));
    law_padded_decimal_is_injective(a as nat, b as nat, 4);
}

/// The sum of some bytes.
pub open spec fn byte_sum(bytes: Seq<u8>) -> int
    decreases bytes.len(),
{
    if bytes.len() == 0 {
        0
    } else {
        byte_sum(bytes.drop_last()) + bytes.last()
    }
}

/// The sum of some bytes, each as often as there are bytes from it on.
pub open spec fn weighted_sum(bytes: Seq<u8>) -> int
    decreases bytes.len(),
{
    if bytes.len() == 0 {
        0
    } else {
        weighted_sum(bytes.drop_last()) + byte_sum(bytes)
    }
}

/// The Adler checksum holds, modulo 65521, one more than the sum of the bytes in its lower half,
/// and the sum of all sums on the way in its upper half.
pub proof fn law_adler(bytes: Seq<u8>)
    ensures
        adler_of(bytes) % 0x1_0000 == (1 + byte_sum(bytes)) % 65521,
        adler_of(bytes) / 0x1_0000 == (bytes.len() + weighted_sum(bytes)) % 65521,
{
    lemma_adler_sums(bytes);
    let a = (1 + byte_sum(bytes)) % 65521;
    let b = (bytes.len() + weighted_sum(bytes)) % 65521;
    assert(0 <= a < 65521 && 0 <= b < 65521);
    assert(adler_of(bytes) == b * 0x1_0000 + a);
}

proof fn lemma_adler_sums(bytes: Seq<u8>)
    ensures
        adler_sums(bytes) == (
            (1 + byte_sum(bytes)) % 65521,
            (bytes.len() + weighted_sum(bytes)) % 65521,
        ),
    decreases bytes.len(),
{
    if bytes.len() > 0 {
        let front = bytes.drop_last();
        lemma_adler_sums(front);
        let s = 1 + byte_sum(front);
        let d = bytes.last() as int;
        lemma_sum_mod(s, d);
        lemma_sum_mod(front.len() + weighted_sum(front), (s + d) % 65521);
        lemma_sum_mod(s + d, front.len() + weighted_sum(front));
    }
}

/// A remainder may be taken of a part first.
proof fn lemma_sum_mod(a: int, b: int)
    ensures
        (a % 65521 + b) % 65521 == (a + b) % 65521,
{
}

/// The register of the checksum is taken through eight bits for each byte: it is the remainder
/// of a division by the polynomial 0xEDB88320 of bits, lowest first, that begins with all ones.
pub proof fn law_crc(bytes: Seq<u8>, b: u8)
    ensures
        crc_of(Seq::<u8>::empty()) == 0,
        crc_of(bytes.push(b)) == !divided(
            divided(
                divided(
                    divided(
                        divided(
                            divided(divided(divided(!crc_of(bytes) ^ (b as u32)))),
                        ),
                    ),
                ),
            ),
        ),
{
    assert(bytes.push(b).drop_last() =~= bytes);
    let register = crc_register(bytes);
    assert(!(!register) == register) by (bit_vector);
    assert(!0xFFFF_FFFFu32 == 0u32) by (bit_vector);
    reveal_with_fuel(crc_bits, 9);
    let x = register ^ (b as u32);
    assert forall|v: u32| #[trigger] crc_bit(v) == divided(v) by {
        assert((v >> 1u32) == v / 2 && (v & 1 == 1 <==> v % 2 == 1)) by (bit_vector);
    }
}

/// One step of the division.
pub open spec fn divided(register: u32) -> u32 {
    if register % 2 == 1 {
        (register / 2) ^ 0xEDB8_8320
    } else {
        register / 2
    }
}

/// The rows of a picture follow one another, each a zero and then its bytes as they are.
pub proof fn law_scanlines(w: nat, h: nat, pixels: Seq<u8>, y: int, k: int)
    requires
        pixels.len() >= h * (w * 4),
        0 <= y < h,
        0 <= k < w * 4,
    ensures
        scanlines(w, h, pixels).len() == h * (w * 4 + 1),
        scanlines(w, h, pixels)[y * (w * 4 + 1)] == 0,
        scanlines(w, h, pixels)[y * (w * 4 + 1) + 1 + k] == pixels[y * (w * 4) + k],
    decreases h,
{
    let n = (h - 1) as nat;
    let row = w * 4;
    assert(h * row == n * row + row) by (nonlinear_arith)
        requires
            h == n + 1,
    ;
    assert(h * (row + 1) == n * (row + 1) + row + 1) by (nonlinear_arith)
        requires
            h == n + 1,
    ;
    lemma_scanlines_len(w, n, pixels);
    if y < n {
        law_scanlines(w, n, pixels, y, k);
        assert(0 <= y * (row + 1) && y * (row + 1) + row + 1 <= n * (row + 1)) by (nonlinear_arith)
            requires
                0 <= y,
                y + 1 <= n,
        ;
    }
}

proof fn lemma_scanlines_len(w: nat, h: nat, pixels: Seq<u8>)
    requires
        pixels.len() >= h * (w * 4),
    ensures
        scanlines(w, h, pixels).len() == h * (w * 4 + 1),
    decreases h,
{
    let row = w * 4;
    if h > 0 {
        let n = (h - 1) as nat;
        assert(h * row == n * row + row) by (nonlinear_arith)
            requires
                h == n + 1,
        ;
        assert(h * (row + 1) == n * (row + 1) + row + 1) by (nonlinear_arith)
            requires
                h == n + 1,
        ;
        lemma_scanlines_len(w, n, pixels);
    } else {
        assert(0 * (row + 1) == 0) by (nonlinear_arith);
    }
}

/// The parts of the file: the signature, and three chunks.
proof fn lemma_file(w: u32, h: u32, pixels: Seq<u8>)
    ensures
        ({
            let file = png_file(w, h, pixels);
            let head = png_header(w, h);
            let stream = zlib_stream(scanlines(w as nat, h as nat, pixels));
            let n = stream.len() as int;
            &&& head.len() == 13
            &&& file.len() == 57 + n
            &&& file.take(8) == png_signature()
            &&& is_chunk(file, 8, seq![0x49u8, 0x48, 0x44, 0x52], head)
            &&& is_chunk(file, 33, seq![0x49u8, 0x44, 0x41, 0x54], stream)
            &&& is_chunk(file, 45 + n, seq![0x49u8, 0x45, 0x4E, 0x44], Seq::<u8>::empty())
        }),
{
    let file = png_file(w, h, pixels);
    let stream = zlib_stream(scanlines(w as nat, h as nat, pixels));
    let head = png_header(w, h);
    let ihdr = seq![0x49u8, 0x48, 0x44, 0x52];
    let idat = seq![0x49u8, 0x44, 0x41, 0x54];
    let iend = seq![0x49u8, 0x45, 0x4E, 0x44];
    let none = Seq::<u8>::empty();
    let sig = png_signature();
    let a = chunk_bytes(ihdr, head);
    let b = chunk_bytes(idat, stream);
    let c = chunk_bytes(iend, none);
    assert(head.len() == 13);
    lemma_order(sig, a, b, c);
    lemma_chunk(sig, ihdr, head, b + c);
    lemma_chunk(sig + a, idat, stream, c);
    lemma_chunk(sig + a + b, iend, none, none);
}

/// From a place on, a file holds a chunk: its length, its kind, its data, and the checksum of the
/// last two.
pub open spec fn is_chunk(file: Seq<u8>, at: int, kind: Seq<u8>, data: Seq<u8>) -> bool {
    let n = data.len() as int;
    &&& at + 12 + n <= file.len()
    &&& file.subrange(at, at + 4) == be32((n % 0x1_0000_0000) as u32)
    &&& file.subrange(at + 4, at + 8) == kind
    &&& file.subrange(at + 8, at + 8 + n) == data
    &&& file.subrange(at + 8 + n, at + 12 + n) == be32(crc_of(kind + data))
}

/// A file begins with the eight bytes of the signature and a header chunk of 13 bytes that gives
/// the size of the picture, and 8 bits for each of red, green, blue and alpha.
pub proof fn law_png_begins(w: u32, h: u32, pixels: Seq<u8>)
    ensures
        ({
            let file = png_file(w, h, pixels);
            &&& file.take(8) == seq![0x89u8, 0x50, 0x4E, 0x47, 0x0D, 0x0A, 0x1A, 0x0A]
            &&& file.subrange(8, 12) == seq![0u8, 0, 0, 13]
            &&& file.subrange(12, 16) == seq![0x49u8, 0x48, 0x44, 0x52]
            &&& file.subrange(16, 20) == be32(w)
            &&& file.subrange(20, 24) == be32(h)
            &&& file.subrange(24, 29) == seq![8u8, 6, 0, 0, 0]
            &&& file.subrange(29, 33) == be32(crc_of(file.subrange(12, 29)))
        }),
{
    lemma_file(w, h, pixels);
    let file = png_file(w, h, pixels);
    let head = png_header(w, h);
    lemma_header(file, head, w, h);
    lemma_two(file, 12, 16, 29);
    assert(be32(13) =~= seq![0u8, 0, 0, 13]);
}

/// One chunk holds the rows, in stored blocks behind the two bytes of a stream and before the
/// checksum of the rows.
pub proof fn law_png_goes_on(w: u32, h: u32, pixels: Seq<u8>)
    ensures
        ({
            let file = png_file(w, h, pixels);
            let rows = scanlines(w as nat, h as nat, pixels);
            let n = stored_blocks(rows).len() as int;
            &&& file.len() == 63 + n
            &&& n + 6 < 0x1_0000_0000 ==> file.subrange(33, 37) == be32((n + 6) as u32)
            &&& file.subrange(37, 41) == seq![0x49u8, 0x44, 0x41, 0x54]
            &&& file.subrange(41, 43) == seq![0x78u8, 0x01]
            &&& file.subrange(43, 43 + n) == stored_blocks(rows)
            &&& file.subrange(43 + n, 47 + n) == be32(adler_of(rows) as u32)
            &&& file.subrange(47 + n, 51 + n) == be32(crc_of(file.subrange(37, 47 + n)))
        }),
{
    lemma_file(w, h, pixels);
    let file = png_file(w, h, pixels);
    let rows = scanlines(w as nat, h as nat, pixels);
    lemma_data(file, rows);
}

proof fn lemma_data(file: Seq<u8>, rows: Seq<u8>)
    requires
        is_chunk(file, 33, seq![0x49u8, 0x44, 0x41, 0x54], zlib_stream(rows)),
    ensures
        ({
            let n = stored_blocks(rows).len() as int;
            &&& zlib_stream(rows).len() == n + 6
            &&& n + 6 < 0x1_0000_0000 ==> file.subrange(33, 37) == be32((n + 6) as u32)
            &&& file.subrange(37, 41) == seq![0x49u8, 0x44, 0x41, 0x54]
            &&& file.subrange(41, 43) == seq![0x78u8, 0x01]
            &&& file.subrange(43, 43 + n) == stored_blocks(rows)
            &&& file.subrange(43 + n, 47 + n) == be32(adler_of(rows) as u32)
            &&& file.subrange(47 + n, 51 + n) == be32(crc_of(file.subrange(37, 47 + n)))
        }),
{
    let n = stored_blocks(rows).len() as int;
    lemma_stream_len(rows);
    lemma_stream(file, rows);
    lemma_two(file, 37, 41, 47 + n);
}

proof fn lemma_stream_len(rows: Seq<u8>)
    ensures
        zlib_stream(rows).len() == stored_blocks(rows).len() + 6,
{
}

/// An empty chunk ends the file.
pub proof fn law_png_ends(w: u32, h: u32, pixels: Seq<u8>)
    ensures
        ({
            let file = png_file(w, h, pixels);
            let n = file.len() - 12;
            &&& file.subrange(n, n + 4) == seq![0u8, 0, 0, 0]
            &&& file.subrange(n + 4, n + 8) == seq![0x49u8, 0x45, 0x4E, 0x44]
            &&& file.subrange(n + 8, n + 12) == be32(crc_of(seq![0x49u8, 0x45, 0x4E, 0x44]))
        }),
{
    lemma_file(w, h, pixels);
    assert(be32(0) =~= seq![0u8, 0, 0, 0]);
    let iend = seq![0x49u8, 0x45, 0x4E, 0x44];
    assert(iend + Seq::<u8>::empty() =~= iend);
}

proof fn lemma_order(sig: Seq<u8>, a: Seq<u8>, b: Seq<u8>, c: Seq<u8>)
    ensures
        sig + a + b + c == sig + a + (b + c),
        sig + a + b + c == sig + a + b + c + Seq::<u8>::empty(),
        (sig + a + b + c).take(sig.len() as int) == sig,
{
    assert(sig + a + b + c =~= sig + a + (b + c));
    assert(sig + a + b + c =~= sig + a + b + c + Seq::<u8>::empty());
    assert((sig + a + b + c).take(sig.len() as int) =~= sig);
}

proof fn lemma_two(file: Seq<u8>, i: int, j: int, k: int)
    requires
        0 <= i <= j <= k <= file.len(),
    ensures
        file.subrange(i, k) == file.subrange(i, j) + file.subrange(j, k),
{
    assert(file.subrange(i, k) =~= file.subrange(i, j) + file.subrange(j, k));
}

/// Where the parts of the header lie.
proof fn lemma_header(file: Seq<u8>, head: Seq<u8>, w: u32, h: u32)
    requires
        file.len() >= 29,
        head == png_header(w, h),
        file.subrange(16, 29) == head,
    ensures
        file.subrange(16, 20) == be32(w),
        file.subrange(20, 24) == be32(h),
        file.subrange(24, 29) == seq![8u8, 6, 0, 0, 0],
{
    assert(forall|i: int| 0 <= i < 13 ==> #[trigger] head[i] == file[16 + i]);
    assert(file.subrange(16, 20) =~= head.subrange(0, 4));
    assert(head.subrange(0, 4) =~= be32(w));
    assert(file.subrange(20, 24) =~= head.subrange(4, 8));
    assert(head.subrange(4, 8) =~= be32(h));
    assert(file.subrange(24, 29) =~= head.subrange(8, 13));
    assert(head.subrange(8, 13) =~= seq![8u8, 6, 0, 0, 0]);
}

/// Where the parts of the stream lie.
proof fn lemma_stream(file: Seq<u8>, rows: Seq<u8>)
    requires
        file.len() >= 47 + stored_blocks(rows).len(),
        file.subrange(41, 47 + stored_blocks(rows).len() as int) == zlib_stream(rows),
    ensures
        file.subrange(41, 43) == seq![0x78u8, 0x01],
        file.subrange(43, 43 + stored_blocks(rows).len() as int) == stored_blocks(rows),
        file.subrange(
            43 + stored_blocks(rows).len() as int,
            47 + stored_blocks(rows).len() as int,
        ) == be32(adler_of(rows) as u32),
{
    let blocks = stored_blocks(rows);
    let n = blocks.len() as int;
    let stream = zlib_stream(rows);
    assert(stream.len() == 6 + n);
    assert(forall|i: int| 0 <= i < 6 + n ==> #[trigger] stream[i] == file[41 + i]);
    assert(file.subrange(41, 43) =~= stream.take(2));
    assert(stream.take(2) =~= seq![0x78u8, 0x01]);
    assert(file.subrange(43, 43 + n) =~= stream.subrange(2, 2 + n));
    assert(stream.subrange(2, 2 + n) =~= blocks);
    assert(file.subrange(43 + n, 47 + n) =~= stream.skip(2 + n));
    assert(stream.skip(2 + n) =~= be32(adler_of(rows) as u32));
}

/// Where the parts of a chunk lie in a file.
proof fn lemma_chunk(before: Seq<u8>, kind: Seq<u8>, data: Seq<u8>, after: Seq<u8>)
    requires
        kind.len() == 4,
    ensures
        ({
            let file = before + chunk_bytes(kind, data) + after;
            let k = before.len() as int;
            let n = data.len() as int;
            &&& file.len() == k + 12 + n + after.len()
            &&& file.subrange(k, k + 4) == be32((n % 0x1_0000_0000) as u32)
            &&& file.subrange(k + 4, k + 8) == kind
            &&& file.subrange(k + 8, k + 8 + n) == data
            &&& file.subrange(k + 4, k + 8 + n) == kind + data
            &&& file.subrange(k + 8 + n, k + 12 + n) == be32(crc_of(kind + data))
        }),
{
    let file = before + chunk_bytes(kind, data) + after;
    let k = before.len() as int;
    let n = data.len() as int;
    assert(file.subrange(k, k + 4) =~= be32((n % 0x1_0000_0000) as u32));
    assert(file.subrange(k + 4, k + 8) =~= kind);
    assert(file.subrange(k + 8, k + 8 + n) =~= data);
    assert(file.subrange(k + 4, k + 8 + n) =~= kind + data);
    assert(file.subrange(k + 8 + n, k + 12 + n) =~= be32(crc_of(kind + data)));
}

/// The file of a frame is named by its number, in four digits or as many as it takes.
pub proof fn law_frame_file(frame: u32)
    ensures
        ({
            let name = frame_file(frame);
            let digits = name.subrange(6, name.len() - 4);
            &&& name.len() >= 14
            &&& name.take(6) == seq!['f', 'r', 'a', 'm', 'e', '_']
            &&& name.skip(name.len() - 4) == seq!['.', 'p', 'n', 'g']
            &&& crate::text::value(digits) == frame
            &&& digits.len() > 4 ==> digits[0] != '0'
        }),
{
    reveal_strlit("frame_");
    reveal_strlit(".png");
    let name = frame_file(frame);
    let p = padded_decimal(frame as nat, 4);
    crate::text::law_padded_decimal(frame as nat, 4);
    assert(name.subrange(6, name.len() - 4) =~= p);
    assert(name.take(6) =~= seq!['f', 'r', 'a', 'm', 'e', '_']);
    assert(name.skip(name.len() - 4) =~= seq!['.', 'p', 'n', 'g']);
}

} // verus!
