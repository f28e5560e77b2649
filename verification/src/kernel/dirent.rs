//! Directory entries as a guest reads them: records of varying length, packed into a
//! buffer.
//!
//! A record holds the file number in four bytes, the record's length in two, the type of
//! the entry in one, the length of its name in one, the name, and zeros up to a multiple
//! of eight bytes: one at least.

use crate::bytes::{le16, le32, push_le16, push_le32};
use vstd::prelude::*;
use vstd::utf8::encode_utf8;

verus! {

broadcast use vstd::string::group_string_axioms;

pub const DT_UNKNOWN: u8 = 0;
pub const DT_DIR: u8 = 4;
pub const DT_REG: u8 = 8;
pub const DT_LNK: u8 = 10;

/// The longest name that a record holds.
pub const NAME_MAX: usize = 255;

/// The longest record.
pub const RECORD_MAX: usize = 264;

/// What the host says of an entry.
#[derive(Clone, Copy, Debug, PartialEq, Eq, Structural)]
pub enum EntryKind {
    Directory,
    Symlink,
    File,
    Other,
}

/// One entry of a host directory.
#[derive(Debug)]
pub struct HostEntry {
    pub name: String,
    pub kind: EntryKind,
    pub inode: u64,
}

/// One entry as the guest sees it.
#[derive(Debug)]
pub struct DirentInfo {
    pub name: String,
    pub d_type: u8,
    pub fileno: u32,
}

/// A directory being read: its entries, and how many have been read.
#[derive(Debug)]
pub struct DirCursor {
    pub entries: Vec<DirentInfo>,
    pub pos: usize,
}

#[verifier::ext_equal]
pub struct DirentView {
    pub name: Seq<char>,
    pub d_type: u8,
    pub fileno: u32,
}

impl View for DirentInfo {
    type V = DirentView;

    open spec fn view(&self) -> DirentView {
        DirentView { name: self.name@, d_type: self.d_type, fileno: self.fileno }
    }
}

pub open spec fn dirents(v: Seq<DirentInfo>) -> Seq<DirentView> {
    Seq::new(v.len(), |i: int| v[i]@)
}

pub open spec fn d_type_of(kind: EntryKind) -> u8 {
    match kind {
        EntryKind::Directory => DT_DIR,
        EntryKind::Symlink => DT_LNK,
        EntryKind::File => DT_REG,
        EntryKind::Other => DT_UNKNOWN,
    }
}

/// A file number is never 0, which reads as a deleted entry, nor 1, which is that of the
/// directory and its parent.
pub open spec fn fileno_of(inode: u64) -> u32 {
    let low = (inode % 0x1_0000_0000) as u32;
    if low < 2 {
        2
    } else {
        low
    }
}

pub open spec fn dirent_of(e: HostEntry) -> DirentView {
    DirentView { name: e.name@, d_type: d_type_of(e.kind), fileno: fileno_of(e.inode) }
}

/// What a directory reads as: itself, its parent, and the entries the host gave.
pub open spec fn listing(host: Seq<HostEntry>) -> Seq<DirentView> {
    seq![
        DirentView { name: "."@, d_type: DT_DIR, fileno: 1 },
        DirentView { name: ".."@, d_type: DT_DIR, fileno: 1 },
    ] + Seq::new(host.len(), |i: int| dirent_of(host[i]))
}

/// How many bytes of the name a record holds.
pub open spec fn name_len(e: DirentView) -> int {
    let n = encode_utf8(e.name).len() as int;
    if n <= NAME_MAX {
        n
    } else {
        NAME_MAX as int
    }
}

/// The length of a record.
pub open spec fn record_len(e: DirentView) -> int {
    (8 + name_len(e) + 1 + 7) / 8 * 8
}

/// A record.
pub open spec fn record(e: DirentView) -> Seq<u8> {
    le32(e.fileno) + le16(record_len(e) as u16) + seq![e.d_type, name_len(e) as u8] + encode_utf8(
        e.name,
    ).take(name_len(e)) + Seq::new((record_len(e) - 8 - name_len(e)) as nat, |i: int| 0u8)
}

/// Records one after the other.
pub open spec fn packed(s: Seq<DirentView>) -> Seq<u8>
    decreases s.len(),
{
    if s.len() == 0 {
        Seq::empty()
    } else {
        packed(s.drop_last()) + record(s.last())
    }
}

/// How many records, from the first on, a buffer holds.
pub open spec fn fits(s: Seq<DirentView>, room: int) -> int
    decreases s.len(),
{
    if s.len() == 0 || record_len(s[0]) > room {
        0
    } else {
        1 + fits(s.drop_first(), room - record_len(s[0]))
    }
}

/// Take the snapshot that a directory is read from.
pub fn snapshot(host: Vec<HostEntry>) -> (cursor: DirCursor)
    ensures
        cursor.pos == 0,
        dirents(cursor.entries@) == listing(host@),
{
    let mut entries: Vec<DirentInfo> = Vec::new();
    entries.push(DirentInfo { name: ".".to_string(), d_type: DT_DIR, fileno: 1 });
    entries.push(DirentInfo { name: "..".to_string(), d_type: DT_DIR, fileno: 1 });
    let mut i: usize = 0;
    assert(host@.take(0) =~= Seq::empty());
    assert(dirents(entries@) =~= listing(host@.take(0)));
    while i < host.len()
        invariant
            i <= host@.len(),
            dirents(entries@) == listing(host@.take(i as int)),
        decreases host@.len() - i,
    {
        let e = &host[i];
        let d_type: u8 = match e.kind {
            EntryKind::Directory => DT_DIR,
            EntryKind::Symlink => DT_LNK,
            EntryKind::File => DT_REG,
            EntryKind::Other => DT_UNKNOWN,
        };
        let low: u32 = (e.inode % 0x1_0000_0000) as u32;
        let fileno: u32 = if low < 2 {
            2
        } else {
            low
        };
        let ghost before = dirents(entries@);
        entries.push(DirentInfo { name: e.name.clone(), d_type, fileno });
        proof {
            let ghost n = i as int;
            assert(dirents(entries@) =~= before.push(dirent_of(host@[n])));
            assert(listing(host@.take(n + 1)) =~= listing(host@.take(n)).push(
                dirent_of(host@[n]),
            ));
        }
        i = i + 1;
    }
    assert(host@.take(i as int) =~= host@);
    DirCursor { entries, pos: 0 }
}

proof fn lemma_record_len(e: DirentView)
    ensures
        record(e).len() == record_len(e),
        8 + name_len(e) < record_len(e) <= RECORD_MAX,
        record_len(e) % 8 == 0,
{
    assert(encode_utf8(e.name).take(name_len(e)).len() == name_len(e));
}

/// Append a record.
fn push_record(out: &mut Vec<u8>, e: &DirentInfo)
    ensures
        final(out)@ == old(out)@ + record(e@),
{
    proof {
        lemma_record_len(e@);
    }
    let name = e.name.as_str().as_bytes();
    let namlen: usize = if name.len() <= NAME_MAX {
        name.len()
    } else {
        NAME_MAX
    };
    let reclen: usize = (8 + namlen + 1 + 7) / 8 * 8;
    push_le32(out, e.fileno);
    push_le16(out, reclen as u16);
    out.push(e.d_type);
    out.push(namlen as u8);
    let ghost head = out@;
    assert(head =~= old(out)@ + (le32(e.fileno) + le16(reclen as u16) + seq![
        e.d_type,
        namlen as u8,
    ]));
    let mut i: usize = 0;
    assert(out@ =~= head + name@.take(0));
    while i < namlen
        invariant
            i <= namlen <= name@.len(),
            out@ == head + name@.take(i as int),
        decreases namlen - i,
    {
        out.push(name[i]);
        i = i + 1;
        assert(out@ =~= head + name@.take(i as int));
    }
    let ghost named = out@;
    let pad: usize = reclen - 8 - namlen;
    let mut k: usize = 0;
    assert(out@ =~= named + Seq::new(0, |j: int| 0u8));
    while k < pad
        invariant
            k <= pad,
            out@ == named + Seq::new(k as nat, |j: int| 0u8),
        decreases pad - k,
    {
        out.push(0);
        k = k + 1;
        assert(out@ =~= named + Seq::new(k as nat, |j: int| 0u8));
    }
    assert(out@ =~= old(out)@ + record(e@));
}

/// The length of an entry's record.
fn reclen_of(e: &DirentInfo) -> (n: usize)
    ensures
        n == record_len(e@),
        9 <= n <= RECORD_MAX,
{
    proof {
        lemma_record_len(e@);
    }
    let bytes = e.name.as_str().as_bytes();
    let namlen: usize = if bytes.len() <= NAME_MAX {
        bytes.len()
    } else {
        NAME_MAX
    };
    (8 + namlen + 1 + 7) / 8 * 8
}

/// What is left of a listing after some entries.
pub open spec fn unread(c: DirCursor) -> Seq<DirentView> {
    dirents(c.entries@).skip(c.pos as int)
}

/// Read on: as many whole records as the buffer holds.  A buffer that is too small for
/// the next record is refused; at the end there is nothing more to read.
pub fn read_on(cursor: &mut DirCursor, room: usize) -> (r: Result<Vec<u8>, i32>)
    requires
        old(cursor).pos <= old(cursor).entries@.len(),
    ensures
        ({
            let rest = unread(*old(cursor));
            let n = fits(rest, room as int);
            if rest.len() > 0 && n == 0 {
                r == Err::<Vec<u8>, i32>(22) && *final(cursor) == *old(cursor)
            } else {
                &&& r matches Ok(bytes)
                &&& bytes@ == packed(rest.take(n))
                &&& bytes@.len() <= room
                &&& final(cursor).entries == old(cursor).entries
                &&& final(cursor).pos == old(cursor).pos + n
                &&& final(cursor).pos <= old(cursor).entries@.len()
            }
        }),
{
    let ghost all = dirents(cursor.entries@);
    let ghost rest = unread(*cursor);
    let first: usize = cursor.pos;
    let mut out: Vec<u8> = Vec::new();
    let mut pos: usize = first;
    let total: usize = cursor.entries.len();
    assert(rest.take(0) =~= Seq::empty());
    assert(rest.skip(0) =~= rest);
    while pos < total
        invariant_except_break
            *cursor == *old(cursor),
            all == dirents(cursor.entries@),
            rest == all.skip(first as int),
            total == cursor.entries@.len(),
            first <= pos <= total,
            out@ == packed(rest.take(pos - first)),
            out@.len() <= room,
            fits(rest, room as int) == pos - first + fits(
                rest.skip(pos - first),
                room - out@.len(),
            ),
        ensures
            *cursor == *old(cursor),
            first <= pos <= total,
            out@ == packed(rest.take(pos - first)),
            out@.len() <= room,
            fits(rest, room as int) == pos - first,
            out@.len() == 0 ==> pos == first,
        decreases total - pos,
    {
        let ghost n = pos - first;
        let ghost left = rest.skip(n);
        let e = &cursor.entries[pos];
        assert(all[pos as int] == e@);
        assert(left[0] == e@);
        let reclen: usize = reclen_of(e);
        if reclen > room - out.len() {
            proof {
                if pos > first {
                    lemma_packed_nonempty(rest.take(n));
                }
            }
            break;
        }
        push_record(&mut out, e);
        proof {
            lemma_record_len(e@);
            assert(left.drop_first() =~= rest.skip(n + 1));
            assert(rest.take(n + 1).drop_last() =~= rest.take(n));
            assert(rest.take(n + 1).last() == e@);
        }
        pos = pos + 1;
        proof {
            if pos == total {
                assert(rest.skip(n + 1) =~= Seq::empty());
                lemma_packed_nonempty(rest.take(n + 1));
            }
        }
    }
    if out.len() == 0 && first < total {
        return Err(22);
    }
    proof {
        if first < total {
            assert(rest.len() > 0);
        }
    }
    cursor.pos = pos;
    Ok(out)
}

proof fn lemma_packed_nonempty(s: Seq<DirentView>)
    requires
        s.len() > 0,
    ensures
        packed(s).len() > 0,
{
    lemma_record_len(s.last());
}

proof fn lemma_fits(s: Seq<DirentView>, room: int)
    ensures
        0 <= fits(s, room) <= s.len(),
    decreases s.len(),
{
    if s.len() > 0 && record_len(s[0]) <= room {
        lemma_fits(s.drop_first(), room - record_len(s[0]));
    }
}

proof fn lemma_packed_concat(a: Seq<DirentView>, b: Seq<DirentView>)
    ensures
        packed(a + b) == packed(a) + packed(b),
    decreases b.len(),
{
    if b.len() == 0 {
        assert(a + b =~= a);
        assert(packed(a) + packed(b) =~= packed(a));
    } else {
        lemma_packed_concat(a, b.drop_last());
        assert((a + b).drop_last() =~= a + b.drop_last());
        assert(packed(a + b) =~= packed(a) + packed(b));
    }
}

/// A listing comes out in order, whole and once: what is read first, followed by what is
/// left, is the listing, in entries and in bytes.
pub proof fn law_listing_is_read_once_in_order(s: Seq<DirentView>, room: int)
    ensures
        0 <= fits(s, room) <= s.len(),
        s.take(fits(s, room)) + s.skip(fits(s, room)) == s,
        packed(s.take(fits(s, room))) + packed(s.skip(fits(s, room))) == packed(s),
{
    lemma_fits(s, room);
    let n = fits(s, room);
    assert(s.take(n) + s.skip(n) =~= s);
    lemma_packed_concat(s.take(n), s.skip(n));
}

/// A buffer of the longest record's length always takes at least one entry, so that
/// reading on comes to the end.
pub proof fn law_reading_on_ends(s: Seq<DirentView>, room: int)
    requires
        s.len() > 0,
        room >= RECORD_MAX,
    ensures
        fits(s, room) >= 1,
{
    lemma_record_len(s[0]);
    lemma_fits(s.drop_first(), room - record_len(s[0]));
}

/// A record describes itself: a reader that goes on by the length that a record states
/// comes to the next record, and finds the type, and the name with a zero behind it.
pub proof fn law_records_are_walked_by_length(e: DirentView, rest: Seq<DirentView>)
    ensures
        ({
            let bytes = packed(seq![e] + rest);
            let len = bytes[4] + 256 * bytes[5];
            &&& bytes.take(4) == le32(e.fileno)
            &&& len == record_len(e)
            &&& len % 8 == 0
            &&& bytes.skip(len) == packed(rest)
            &&& bytes[6] == e.d_type
            &&& bytes[7] == name_len(e)
            &&& bytes.subrange(8, 8 + name_len(e)) == encode_utf8(e.name).take(name_len(e))
            &&& bytes[8 + name_len(e)] == 0
        }),
{
    lemma_record_len(e);
    lemma_packed_concat(seq![e], rest);
    assert(seq![e].drop_last() =~= Seq::empty());
    assert(packed(seq![e]) =~= record(e)) by {
        assert(packed(seq![e].drop_last()) =~= Seq::empty());
        assert(seq![e].last() == e);
    }
    let bytes = packed(seq![e] + rest);
    let r = record(e);
    assert(bytes == r + packed(rest));
    assert(r[4] == le16(record_len(e) as u16)[0]);
    assert(r[5] == le16(record_len(e) as u16)[1]);
    assert(bytes.take(4) =~= le32(e.fileno));
    assert(bytes.skip(record_len(e)) =~= packed(rest));
    assert(bytes.subrange(8, 8 + name_len(e)) =~= encode_utf8(e.name).take(name_len(e)));
}

/// The types and numbers of entries: 4 for a directory, 8 for a file, 10 for a link and 0 for
/// what is none of these; the lower half of the host's number, or 2 where that is 0 or 1.
pub proof fn law_entries(e: HostEntry)
    ensures
        ({
            let d = dirent_of(e);
            let low = e.inode % 0x1_0000_0000;
            &&& d.name == e.name@
            &&& e.kind is Directory ==> d.d_type == 4
            &&& e.kind is File ==> d.d_type == 8
            &&& e.kind is Symlink ==> d.d_type == 10
            &&& e.kind is Other ==> d.d_type == 0
            &&& low >= 2 ==> d.fileno == low
            &&& low < 2 ==> d.fileno == 2
        }),
{
}

/// A directory reads as "." and "..", both directories with the number 1, and then the entries of
/// the host, each once and in their order.
pub proof fn law_listing(host: Seq<HostEntry>, i: int)
    requires
        0 <= i < host.len(),
    ensures
        listing(host).len() == host.len() + 2,
        listing(host)[0] == (DirentView { name: seq!['.'], d_type: 4, fileno: 1 }),
        listing(host)[1] == (DirentView { name: seq!['.', '.'], d_type: 4, fileno: 1 }),
        listing(host)[i + 2] == dirent_of(host[i]),
{
    reveal_strlit(".");
    reveal_strlit("..");
    assert("."@ =~= seq!['.']);
    assert(".."@ =~= seq!['.', '.']);
}

/// A record holds the bytes of a name, or the first 255 of them, and has room for eight bytes
/// before and a zero behind; it is as long as the next multiple of eight.
pub proof fn law_record_lengths(e: DirentView)
    ensures
        ({
            let n = encode_utf8(e.name).len();
            let held = if n <= 255 {
                n as int
            } else {
                255
            };
            &&& name_len(e) == held
            &&& record_len(e) % 8 == 0
            &&& held + 9 <= record_len(e) < held + 17
            &&& record(e).len() == record_len(e)
            &&& record_len(e) <= RECORD_MAX == 264
        }),
{
    lemma_record_len(e);
}

/// A read takes as many records as the buffer holds, and not one fewer: those that it takes fit,
/// and with the next they would not.
pub proof fn law_buffers_are_filled(s: Seq<DirentView>, room: int)
    requires
        room >= 0,
    ensures
        0 <= fits(s, room) <= s.len(),
        packed(s.take(fits(s, room))).len() <= room,
        fits(s, room) < s.len() ==> packed(s.take(fits(s, room) + 1)).len() > room,
    decreases s.len(),
{
    lemma_fits(s, room);
    if s.len() > 0 {
        let n = fits(s, room);
        let first = seq![s[0]];
        let tail = s.drop_first();
        lemma_record_len(s[0]);
        assert(first.drop_last() =~= Seq::<DirentView>::empty());
        let none = first.drop_last();
        assert(packed(none).len() == 0);
        assert(packed(first) == packed(none) + record(s[0]));
        assert(packed(first).len() == record_len(s[0]));
        if record_len(s[0]) <= room {
            law_buffers_are_filled(tail, room - record_len(s[0]));
            assert(s.take(n) =~= first + tail.take(n - 1));
            lemma_packed_concat(first, tail.take(n - 1));
            if n < s.len() {
                assert(s.take(n + 1) =~= first + tail.take(n));
                lemma_packed_concat(first, tail.take(n));
            }
        } else {
            assert(s.take(1) =~= first);
        }
    }
}

/// What is left of a listing begins where reading stopped.
pub proof fn law_reading_goes_on(c: DirCursor, i: int)
    requires
        c.pos <= c.entries@.len(),
        0 <= i < c.entries@.len() - c.pos,
    ensures
        unread(c).len() == c.entries@.len() - c.pos,
        unread(c)[i] == c.entries@[c.pos + i]@,
{
}

} // verus!
