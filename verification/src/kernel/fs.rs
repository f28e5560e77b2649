//! The guest's file system: mounts, path resolution and open files.
//!
//! The disk is behind this module's callers.  A path resolves in two steps: `candidates`
//! says where on the host it may lie, in the order in which the mounts are consulted, and
//! `resolve` picks one from what the disk says of each.

use crate::kernel::dirent::{DirCursor, HostEntry};
use crate::kernel::dirent::{dirents, listing, read_on, snapshot};
use crate::kernel::path::{anchored, below, collapse, is_root_name, prefix_matches, split, texts};
use crate::kernel::path::{fallback_path, mount_prefix_matches, names_root};
use crate::kernel::path::{normalize_relative, relative_to};
use std::collections::HashMap;
use vstd::prelude::*;
use vstd::string::StringExecFns;
use vstd::utf8::encode_utf8;

verus! {

broadcast use {
    vstd::std_specs::hash::group_hash_axioms,
    vstd::string::group_string_axioms,
};

pub const ENOENT: i32 = 2;
pub const EIO: i32 = 5;
pub const EBADF: i32 = 9;
pub const EACCES: i32 = 13;
pub const EEXIST: i32 = 17;
pub const ENOTDIR: i32 = 20;
pub const EISDIR: i32 = 21;
pub const EINVAL: i32 = 22;
pub const ELOOP: i32 = 62;
pub const ENAMETOOLONG: i32 = 63;
pub const ENOTEMPTY: i32 = 66;

pub const O_RDONLY: i32 = 0;
pub const O_WRONLY: i32 = 1;
pub const O_RDWR: i32 = 2;
pub const O_APPEND: i32 = 0x8;
pub const O_CREAT: i32 = 0x200;
pub const O_TRUNC: i32 = 0x400;

/// The first descriptor given out: 0, 1 and 2 are the standard streams.
pub const FIRST_FD: i32 = 3;

/// What the host says of a call that failed: its kind, and the number of the host's
/// system where there is one.
#[derive(Clone, Copy, Debug, PartialEq, Eq, Structural)]
pub enum HostErrorKind {
    NotFound,
    PermissionDenied,
    AlreadyExists,
    Other,
}

/// The guest's number for a host error.  A host number passes only where the two systems
/// agree, or where it is known what it stands for.
pub open spec fn errno_of(kind: HostErrorKind, raw: Option<i32>) -> i32 {
    match kind {
        HostErrorKind::NotFound => ENOENT,
        HostErrorKind::PermissionDenied => EACCES,
        HostErrorKind::AlreadyExists => EEXIST,
        HostErrorKind::Other => if raw == Some(20i32) {
            ENOTDIR
        } else if raw == Some(21i32) {
            EISDIR
        } else if raw == Some(36i32) {
            ENAMETOOLONG
        } else if raw == Some(39i32) {
            ENOTEMPTY
        } else if raw == Some(40i32) {
            ELOOP
        } else {
            EIO
        },
    }
}

/// The guest's number for a host error.
pub fn io_errno(kind: HostErrorKind, raw: Option<i32>) -> (errno: i32)
    ensures
        errno == errno_of(kind, raw),
{
    match kind {
        HostErrorKind::NotFound => ENOENT,
        HostErrorKind::PermissionDenied => EACCES,
        HostErrorKind::AlreadyExists => EEXIST,
        HostErrorKind::Other => match raw {
            Some(n) => {
                if n == 20 {
                    ENOTDIR
                } else if n == 21 {
                    EISDIR
                } else if n == 36 {
                    ENAMETOOLONG
                } else if n == 39 {
                    ENOTEMPTY
                } else if n == 40 {
                    ELOOP
                } else {
                    EIO
                }
            },
            None => EIO,
        },
    }
}

/// What the host says of the directory behind an open file.
#[derive(Debug)]
pub enum Listing {
    /// The path it was opened by leads nowhere any more.
    Unresolved,
    /// It is there, and no directory.
    NotDirectory,
    /// The host failed to read it.
    Failed { kind: HostErrorKind, raw: Option<i32> },
    Entries(Vec<HostEntry>),
}

/// A mount: a guest prefix, and the number of the host directory behind it.
#[derive(Debug)]
pub struct Mount {
    pub prefix: String,
    pub root: usize,
}

#[verifier::ext_equal]
pub struct MountView {
    pub prefix: Seq<char>,
    pub root: usize,
}

impl View for Mount {
    type V = MountView;

    open spec fn view(&self) -> MountView {
        MountView { prefix: self.prefix@, root: self.root }
    }
}

pub open spec fn mount_views(v: Seq<Mount>) -> Seq<MountView> {
    Seq::new(v.len(), |i: int| v[i]@)
}

/// The length of a text in bytes.
pub open spec fn byte_len(s: Seq<char>) -> usize {
    encode_utf8(s).len() as usize
}

/// Longer prefixes stand first.
pub open spec fn longest_first(s: Seq<MountView>) -> bool {
    forall|i: int, j: int|
        0 <= i < j < s.len() ==> byte_len((#[trigger] s[i]).prefix) >= byte_len(
            (#[trigger] s[j]).prefix,
        )
}

/// Where a prefix of this length goes: behind all that are as long or longer.
pub open spec fn place_for(s: Seq<MountView>, len: usize) -> int
    decreases s.len(),
{
    if s.len() == 0 {
        0
    } else if byte_len(s.last().prefix) >= len {
        s.len() as int
    } else {
        place_for(s.drop_last(), len)
    }
}

/// The mounts with another prefix.
pub open spec fn without(s: Seq<MountView>, prefix: Seq<char>) -> Seq<MountView>
    decreases s.len(),
{
    if s.len() == 0 {
        Seq::empty()
    } else if s.last().prefix == prefix {
        without(s.drop_last(), prefix)
    } else {
        without(s.drop_last(), prefix).push(s.last())
    }
}

/// A place where a path may lie: components below a host directory.
#[derive(Debug)]
pub struct Candidate {
    pub root: usize,
    pub components: Vec<String>,
}

#[verifier::ext_equal]
pub struct CandidateView {
    pub root: usize,
    pub components: Seq<Seq<char>>,
}

pub open spec fn strings(v: Seq<String>) -> Seq<Seq<char>> {
    Seq::new(v.len(), |i: int| v[i]@)
}

impl View for Candidate {
    type V = CandidateView;

    open spec fn view(&self) -> CandidateView {
        CandidateView { root: self.root, components: strings(self.components@) }
    }
}

pub open spec fn candidate_views(v: Seq<Candidate>) -> Seq<CandidateView> {
    Seq::new(v.len(), |i: int| v[i]@)
}

/// Where a path may lie under one mount, if at all.
pub open spec fn under(m: MountView, path: Seq<char>) -> Option<CandidateView> {
    if prefix_matches(path, m.prefix) {
        match collapse(split(below(path, m.prefix))) {
            Some(components) => Some(CandidateView { root: m.root, components }),
            None => None,
        }
    } else {
        None
    }
}

/// Where a path may lie, in the order of the mounts.
pub open spec fn candidates_of(s: Seq<MountView>, path: Seq<char>) -> Seq<CandidateView>
    decreases s.len(),
{
    if s.len() == 0 {
        Seq::empty()
    } else {
        let front = candidates_of(s.drop_last(), path);
        match under(s.last(), path) {
            Some(c) => front.push(c),
            None => front,
        }
    }
}

/// What the disk says of a candidate: whether it stays inside its host directory once
/// links are followed, whether it exists as it is written, and whether something exists
/// there, inside the directory, when the case of letters is ignored.
#[derive(Clone, Copy, Debug, PartialEq, Eq, Structural)]
pub struct Probe {
    pub contained: bool,
    pub exists: bool,
    pub folded: bool,
}

/// Which name of a candidate is meant.
#[derive(Clone, Copy, Debug, PartialEq, Eq, Structural)]
pub enum Spelling {
    Exact,
    Folded,
}

/// The candidate is there.
pub open spec fn is_hit(p: Probe) -> bool {
    p.contained && (p.exists || p.folded)
}

/// The first candidate that is there.
pub open spec fn first_hit(s: Seq<Probe>) -> Option<int>
    decreases s.len(),
{
    if s.len() == 0 {
        None
    } else {
        match first_hit(s.drop_last()) {
            Some(i) => Some(i),
            None => if is_hit(s.last()) {
                Some(s.len() - 1)
            } else {
                None
            },
        }
    }
}

/// The first candidate that stays inside its directory.
pub open spec fn first_contained(s: Seq<Probe>) -> Option<int>
    decreases s.len(),
{
    if s.len() == 0 {
        None
    } else {
        match first_contained(s.drop_last()) {
            Some(i) => Some(i),
            None => if s.last().contained {
                Some(s.len() - 1)
            } else {
                None
            },
        }
    }
}

/// The candidate that a path resolves to: the first that is there, as written where it is
/// there as written; else the first that a file could be created at.
pub open spec fn decision(s: Seq<Probe>) -> Option<(int, Spelling)> {
    match first_hit(s) {
        Some(i) => Some(
            (
                i,
                if s[i].exists {
                    Spelling::Exact
                } else {
                    Spelling::Folded
                },
            ),
        ),
        None => match first_contained(s) {
            Some(i) => Some((i, Spelling::Exact)),
            None => None,
        },
    }
}

/// Pick the candidate that a path resolves to.
pub fn decide(probes: &Vec<Probe>) -> (r: Option<(usize, Spelling)>)
    ensures
        match r {
            Some((i, spelling)) => decision(probes@) == Some((i as int, spelling)) && i
                < probes@.len(),
            None => decision(probes@) is None,
        },
{
    let mut fallback: Option<usize> = None;
    let mut i: usize = 0;
    assert(probes@.take(0) =~= Seq::empty());
    while i < probes.len()
        invariant
            i <= probes@.len(),
            first_hit(probes@.take(i as int)) is None,
            first_contained(probes@.take(i as int)) == (match fallback {
                Some(f) => Some(f as int),
                None => None,
            }),
            fallback matches Some(f) ==> f < i,
        decreases probes@.len() - i,
    {
        let p = probes[i];
        let ghost next = probes@.take(i + 1);
        assert(next.drop_last() =~= probes@.take(i as int));
        if p.contained {
            if p.exists {
                proof {
                    lemma_first_hit(probes@, i + 1);
                }
                return Some((i, Spelling::Exact));
            }
            if p.folded {
                proof {
                    lemma_first_hit(probes@, i + 1);
                }
                return Some((i, Spelling::Folded));
            }
            if fallback.is_none() {
                fallback = Some(i);
            }
        }
        i = i + 1;
    }
    assert(probes@.take(i as int) =~= probes@);
    match fallback {
        Some(f) => Some((f, Spelling::Exact)),
        None => None,
    }
}

/// The first hit stays the first hit when more is asked.
proof fn lemma_first_hit(s: Seq<Probe>, n: int)
    requires
        0 <= n <= s.len(),
        first_hit(s.take(n)) is Some,
    ensures
        first_hit(s) == first_hit(s.take(n)),
        0 <= first_hit(s)->0 < n,
    decreases s.len() - n,
{
    if n < s.len() {
        assert(s.take(n + 1).drop_last() =~= s.take(n));
        lemma_first_hit(s, n + 1);
        lemma_first_hit_bound(s.take(n));
    } else {
        assert(s.take(n) =~= s);
        lemma_first_hit_bound(s);
    }
}

proof fn lemma_first_hit_bound(s: Seq<Probe>)
    requires
        first_hit(s) is Some,
    ensures
        0 <= first_hit(s)->0 < s.len(),
        is_hit(s[first_hit(s)->0]),
    decreases s.len(),
{
    if first_hit(s.drop_last()) is Some {
        lemma_first_hit_bound(s.drop_last());
    }
}

proof fn lemma_first_contained_bound(s: Seq<Probe>)
    requires
        first_contained(s) is Some,
    ensures
        0 <= first_contained(s)->0 < s.len(),
        s[first_contained(s)->0].contained,
    decreases s.len(),
{
    if first_contained(s.drop_last()) is Some {
        lemma_first_contained_bound(s.drop_last());
    }
}

/// What a path resolves to.
#[derive(Debug)]
pub struct Resolved {
    pub candidate: Candidate,
    pub spelling: Spelling,
}

/// A path from the root.
pub open spec fn is_absolute(path: Seq<char>) -> bool {
    path.len() > 0 && path[0] == '/'
}

/// What a path resolves to: where it lies under the mounts; and where it is relative and
/// lies under none of them, where it lies under the working directory.
pub open spec fn resolved_of(
    s: Seq<MountView>,
    path: Seq<char>,
    direct: Seq<Probe>,
    relative: Seq<Probe>,
) -> Option<(CandidateView, Spelling)> {
    match decision(direct) {
        Some((i, spelling)) => Some((candidates_of(s, path)[i], spelling)),
        None => if is_absolute(path) {
            None
        } else {
            match decision(relative) {
                Some((i, spelling)) => Some((candidates_of(s, anchored(path))[i], spelling)),
                None => None,
            }
        },
    }
}

/// The probes answer for the candidates of a path.
pub open spec fn answers(
    s: Seq<MountView>,
    path: Seq<char>,
    direct: Seq<Probe>,
    relative: Seq<Probe>,
) -> bool {
    &&& direct.len() == candidates_of(s, path).len()
    &&& decision(direct) is None && !is_absolute(path) ==> relative.len() == candidates_of(
        s,
        anchored(path),
    ).len()
}

/// The result of resolving, as a plain value.
pub open spec fn resolved_view(r: Option<Resolved>) -> Option<(CandidateView, Spelling)> {
    match r {
        Some(r) => Some((r.candidate@, r.spelling)),
        None => None,
    }
}

/// How a file is to be opened on the host.
#[derive(Clone, Copy, Debug, PartialEq, Eq, Structural)]
pub struct OpenMode {
    pub read: bool,
    pub write: bool,
    pub create: bool,
    pub truncate: bool,
    pub append: bool,
}

/// How the flags of an open ask for the file; `None` where they ask for no access mode
/// there is.
pub open spec fn mode_of(flags: i32) -> Option<OpenMode> {
    let access = flags & 3;
    if access == O_RDONLY || access == O_WRONLY || access == O_RDWR {
        Some(
            OpenMode {
                read: access != O_WRONLY,
                write: access != O_RDONLY,
                create: flags & O_CREAT != 0,
                truncate: flags & O_TRUNC != 0,
                append: flags & O_APPEND != 0,
            },
        )
    } else {
        None
    }
}

/// How the flags of an open ask for the file.
pub fn open_mode(flags: i32) -> (mode: Option<OpenMode>)
    ensures
        mode == mode_of(flags),
{
    let access: i32 = flags & 3;
    if access == O_RDONLY || access == O_WRONLY || access == O_RDWR {
        Some(
            OpenMode {
                read: access != O_WRONLY,
                write: access != O_RDONLY,
                create: flags & O_CREAT != 0,
                truncate: flags & O_TRUNC != 0,
                append: flags & O_APPEND != 0,
            },
        )
    } else {
        None
    }
}

/// A seek, as the host takes it.
#[derive(Clone, Copy, Debug, PartialEq, Eq, Structural)]
pub enum Seek {
    Start(u64),
    Current(i64),
    End(i64),
}

/// The two's complement of an offset.
pub open spec fn as_unsigned(offset: i64) -> u64 {
    if offset >= 0 {
        offset as u64
    } else {
        (offset + 0x1_0000_0000_0000_0000) as u64
    }
}

/// The seek that an offset and a mode ask for.
pub open spec fn seek_of(offset: i64, whence: i32) -> Option<Seek> {
    if whence == 0 {
        Some(Seek::Start(as_unsigned(offset)))
    } else if whence == 1 {
        Some(Seek::Current(offset))
    } else if whence == 2 {
        Some(Seek::End(offset))
    } else {
        None
    }
}

/// An open file: the path and flags it was opened with, and how far it has been read as a
/// directory.
#[derive(Debug)]
pub struct FileDescription {
    pub path: String,
    pub flags: i32,
    pub dir: Option<DirCursor>,
}

#[verifier::ext_equal]
pub struct FsView {
    pub mounts: Seq<MountView>,
    pub files: Map<i32, FileDescription>,
    pub next_fd: i32,
}

pub struct FileSystem {
    mounts: Vec<Mount>,
    files: HashMap<i32, FileDescription>,
    next_fd: i32,
}

impl View for FileSystem {
    type V = FsView;

    closed spec fn view(&self) -> FsView {
        FsView {
            mounts: mount_views(self.mounts@),
            files: self.files@,
            next_fd: self.next_fd,
        }
    }
}

impl FsView {
    /// Longer prefixes stand first, descriptors have been given out, and no directory has
    /// been read past its end.
    pub open spec fn wf(self) -> bool {
        &&& longest_first(self.mounts)
        &&& self.next_fd >= FIRST_FD
        &&& forall|fd: i32| #[trigger]
            self.files.contains_key(fd) ==> FIRST_FD <= fd < self.next_fd
        &&& forall|fd: i32| #[trigger]
            self.files.contains_key(fd) ==> (self.files[fd].dir matches Some(c) ==> c.pos
                <= c.entries@.len())
    }
}

/// The file system once a file has been opened.
pub open spec fn with_open(s: FsView, d: FileDescription) -> FsView {
    FsView {
        files: s.files.insert(s.next_fd, d),
        next_fd: (s.next_fd + 1) as i32,
        ..s
    }
}

/// The file system once a descriptor has been closed.
pub open spec fn with_closed(s: FsView, fd: i32) -> FsView {
    FsView { files: s.files.remove(fd), ..s }
}

/// The access mode of an open file.
pub open spec fn access_of(d: FileDescription) -> i32 {
    d.flags & 3
}

proof fn lemma_place_for(s: Seq<MountView>, len: usize)
    ensures
        0 <= place_for(s, len) <= s.len(),
        forall|i: int| place_for(s, len) <= i < s.len() ==> byte_len((#[trigger] s[i]).prefix) < len,
        place_for(s, len) > 0 ==> byte_len(s[place_for(s, len) - 1].prefix) >= len,
    decreases s.len(),
{
    if s.len() > 0 && byte_len(s.last().prefix) < len {
        lemma_place_for(s.drop_last(), len);
        assert forall|i: int| place_for(s, len) <= i < s.len() implies byte_len(
            (#[trigger] s[i]).prefix,
        ) < len by {
            if i < s.len() - 1 {
                assert(s.drop_last()[i] == s[i]);
            }
        }
    }
}

proof fn lemma_insert_longest_first(s: Seq<MountView>, m: MountView)
    requires
        longest_first(s),
    ensures
        longest_first(s.insert(place_for(s, byte_len(m.prefix)), m)),
{
    let k = place_for(s, byte_len(m.prefix));
    lemma_place_for(s, byte_len(m.prefix));
    let t = s.insert(k, m);
    assert forall|i: int, j: int| 0 <= i < j < t.len() implies byte_len((#[trigger] t[i]).prefix)
        >= byte_len((#[trigger] t[j]).prefix) by {
        let i0 = if i < k {
            i
        } else {
            i - 1
        };
        let j0 = if j < k {
            j
        } else {
            j - 1
        };
        if i == k {
            assert(t[j] == s[j0]);
        } else if j == k {
            assert(t[i] == s[i0]);
            assert(byte_len(s[k - 1].prefix) >= byte_len(m.prefix));
            if i < k - 1 {
                assert(byte_len(s[i].prefix) >= byte_len(s[k - 1].prefix));
            }
        } else {
            assert(t[i] == s[i0] && t[j] == s[j0]);
        }
    }
}

proof fn lemma_without(s: Seq<MountView>, prefix: Seq<char>)
    requires
        longest_first(s),
    ensures
        longest_first(without(s, prefix)),
        without(s, prefix).len() <= s.len(),
        s.len() > 0 ==> forall|i: int|
            0 <= i < without(s, prefix).len() ==> byte_len(
                (#[trigger] without(s, prefix)[i]).prefix,
            ) >= byte_len(s.last().prefix),
    decreases s.len(),
{
    if s.len() > 0 {
        let front = s.drop_last();
        assert(longest_first(front)) by {
            assert forall|i: int, j: int| 0 <= i < j < front.len() implies byte_len(
                (#[trigger] front[i]).prefix,
            ) >= byte_len((#[trigger] front[j]).prefix) by {
                assert(front[i] == s[i] && front[j] == s[j]);
            }
        }
        lemma_without(front, prefix);
        let w = without(front, prefix);
        if front.len() > 0 {
            assert(byte_len(s[s.len() - 2].prefix) >= byte_len(s[s.len() - 1].prefix));
            assert(front.last() == s[s.len() - 2]);
        }
        let t = without(s, prefix);
        assert forall|i: int| 0 <= i < t.len() implies byte_len((#[trigger] t[i]).prefix)
            >= byte_len(s.last().prefix) by {
            if i < w.len() {
                assert(t[i] == w[i]);
            }
        }
        assert forall|i: int, j: int| 0 <= i < j < t.len() implies byte_len(
            (#[trigger] t[i]).prefix,
        ) >= byte_len((#[trigger] t[j]).prefix) by {
            assert(t[i] == w[i]);
            if j < w.len() {
                assert(t[j] == w[j]);
            }
        }
    }
}

impl FileSystem {
    pub fn new() -> (fs: Self)
        ensures
            fs@.wf(),
            fs@ == (FsView { mounts: Seq::empty(), files: Map::empty(), next_fd: FIRST_FD }),
    {
        let fs = FileSystem { mounts: Vec::new(), files: HashMap::new(), next_fd: FIRST_FD };
        assert(fs@.mounts =~= Seq::empty());
        fs
    }

    /// Mount a host directory.  A longer prefix is consulted before a shorter one, and of
    /// two that are equally long the one mounted first.
    pub fn mount(&mut self, guest_path: &str, root: usize)
        requires
            old(self)@.wf(),
        ensures
            final(self)@.wf(),
            ({
                let s = old(self)@.mounts;
                final(self)@ == (FsView {
                    mounts: s.insert(
                        place_for(s, byte_len(guest_path@)),
                        MountView { prefix: guest_path@, root },
                    ),
                    ..old(self)@
                })
            }),
    {
        let ghost s = self@.mounts;
        let len: usize = guest_path.len();
        let mut k: usize = self.mounts.len();
        assert(s.take(k as int) =~= s);
        while k > 0 && self.mounts[k - 1].prefix.as_str().len() < len
            invariant
                *self == *old(self),
                s == mount_views(self.mounts@),
                len == byte_len(guest_path@),
                k <= self.mounts@.len(),
                place_for(s.take(k as int), len) == place_for(s, len),
            decreases k,
        {
            assert(s.take(k as int).drop_last() =~= s.take(k - 1));
            assert(s.take(k as int).last() == self.mounts@[k - 1]@);
            k = k - 1;
        }
        assert(k > 0 ==> s.take(k as int).last() == self.mounts@[k - 1]@);
        assert(k == place_for(s, len));
        let m = Mount { prefix: guest_path.to_string(), root };
        self.mounts.insert(k, m);
        proof {
            lemma_insert_longest_first(s, MountView { prefix: guest_path@, root });
            assert(self@.mounts =~= s.insert(k as int, MountView { prefix: guest_path@, root }));
        }
    }

    /// Remove every mount of a prefix.
    pub fn unmount(&mut self, guest_path: &str)
        requires
            old(self)@.wf(),
        ensures
            final(self)@.wf(),
            final(self)@ == (FsView {
                mounts: without(old(self)@.mounts, guest_path@),
                ..old(self)@
            }),
    {
        let path = guest_path.to_string();
        let ghost s = self@.mounts;
        let mut kept: Vec<Mount> = Vec::new();
        let mut i: usize = 0;
        assert(s.take(0) =~= Seq::empty());
        assert(mount_views(kept@) =~= Seq::empty());
        while i < self.mounts.len()
            invariant
                *self == *old(self),
                s == mount_views(self.mounts@),
                path@ == guest_path@,
                i <= self.mounts@.len(),
                mount_views(kept@) == without(s.take(i as int), guest_path@),
            decreases self.mounts@.len() - i,
        {
            let m = &self.mounts[i];
            assert(s.take(i + 1).drop_last() =~= s.take(i as int));
            assert(s.take(i + 1).last() == m@);
            let ghost before = mount_views(kept@);
            if m.prefix != path {
                kept.push(Mount { prefix: m.prefix.clone(), root: m.root });
                assert(mount_views(kept@) =~= before.push(m@));
            }
            i = i + 1;
        }
        assert(s.take(i as int) =~= s);
        proof {
            lemma_without(s, guest_path@);
        }
        self.mounts = kept;
    }

    /// Where a path may lie on the host, in the order to look.
    pub fn candidates(&self, path: &str) -> (out: Vec<Candidate>)
        requires
            self@.wf(),
        ensures
            candidate_views(out@) == candidates_of(self@.mounts, path@),
    {
        let ghost s = self@.mounts;
        let mut out: Vec<Candidate> = Vec::new();
        let mut i: usize = 0;
        assert(s.take(0) =~= Seq::empty());
        assert(candidate_views(out@) =~= Seq::empty());
        while i < self.mounts.len()
            invariant
                s == mount_views(self.mounts@),
                i <= self.mounts@.len(),
                candidate_views(out@) == candidates_of(s.take(i as int), path@),
            decreases self.mounts@.len() - i,
        {
            let m = &self.mounts[i];
            assert(s.take(i + 1).drop_last() =~= s.take(i as int));
            assert(s.take(i + 1).last() == m@);
            let ghost before = candidate_views(out@);
            if mount_prefix_matches(path, m.prefix.as_str()) {
                let rest = relative_to(path, m.prefix.as_str());
                if let Some(parts) = normalize_relative(rest) {
                    let components = own(&parts);
                    let c = Candidate { root: m.root, components };
                    assert(c@ == CandidateView { root: m.root, components: texts(parts@) });
                    out.push(c);
                    assert(candidate_views(out@) =~= before.push(c@));
                }
            }
            i = i + 1;
        }
        assert(s.take(i as int) =~= s);
        out
    }

    /// Resolve a path.  `direct` is what the disk says of the path's candidates, and
    /// `relative` what it says of those of `fallback_path`, which count only for a
    /// relative path that has none.
    pub fn resolve(&self, path: &str, direct: &Vec<Probe>, relative: &Vec<Probe>) -> (r: Option<
        Resolved,
    >)
        requires
            self@.wf(),
            answers(self@.mounts, path@, direct@, relative@),
        ensures
            resolved_view(r) == resolved_of(self@.mounts, path@, direct@, relative@),
    {
        if let Some((i, spelling)) = decide(direct) {
            let mut all = self.candidates(path);
            assert(candidate_views(all@)[i as int] == all@[i as int]@);
            let candidate = all.swap_remove(i);
            return Some(Resolved { candidate, spelling });
        }
        let anchor = match fallback_path(path) {
            Some(a) => a,
            None => {
                return None;
            },
        };
        if let Some((i, spelling)) = decide(relative) {
            let mut all = self.candidates(anchor.as_str());
            assert(candidate_views(all@)[i as int] == all@[i as int]@);
            let candidate = all.swap_remove(i);
            return Some(Resolved { candidate, spelling });
        }
        None
    }

    /// The host path behind a guest path.
    pub fn host_path(&self, path: &str, direct: &Vec<Probe>, relative: &Vec<Probe>) -> (r: Option<
        Resolved,
    >)
        requires
            self@.wf(),
            answers(self@.mounts, path@, direct@, relative@),
        ensures
            resolved_view(r) == resolved_of(self@.mounts, path@, direct@, relative@),
    {
        self.resolve(path, direct, relative)
    }

    /// The place that a path names, for a call that needs one.
    fn target(&self, path: &str, direct: &Vec<Probe>, relative: &Vec<Probe>) -> (r: Result<
        Resolved,
        i32,
    >)
        requires
            self@.wf(),
            answers(self@.mounts, path@, direct@, relative@),
        ensures
            match r {
                Ok(place) => resolved_of(self@.mounts, path@, direct@, relative@) == Some(
                    (place.candidate@, place.spelling),
                ),
                Err(e) => e == ENOENT && resolved_of(
                    self@.mounts,
                    path@,
                    direct@,
                    relative@,
                ) is None,
            },
    {
        match self.resolve(path, direct, relative) {
            Some(place) => Ok(place),
            None => Err(ENOENT),
        }
    }

    /// The directory to remove.
    pub fn rmdir(&self, path: &str, direct: &Vec<Probe>, relative: &Vec<Probe>) -> (r: Result<
        Resolved,
        i32,
    >)
        requires
            self@.wf(),
            answers(self@.mounts, path@, direct@, relative@),
        ensures
            match r {
                Ok(place) => resolved_of(self@.mounts, path@, direct@, relative@) == Some(
                    (place.candidate@, place.spelling),
                ),
                Err(e) => e == ENOENT && resolved_of(
                    self@.mounts,
                    path@,
                    direct@,
                    relative@,
                ) is None,
            },
    {
        self.target(path, direct, relative)
    }

    /// The file to remove.
    pub fn unlink(&self, path: &str, direct: &Vec<Probe>, relative: &Vec<Probe>) -> (r: Result<
        Resolved,
        i32,
    >)
        requires
            self@.wf(),
            answers(self@.mounts, path@, direct@, relative@),
        ensures
            match r {
                Ok(place) => resolved_of(self@.mounts, path@, direct@, relative@) == Some(
                    (place.candidate@, place.spelling),
                ),
                Err(e) => e == ENOENT && resolved_of(
                    self@.mounts,
                    path@,
                    direct@,
                    relative@,
                ) is None,
            },
    {
        self.target(path, direct, relative)
    }

    /// The file to be told of.
    pub fn stat(&self, path: &str, direct: &Vec<Probe>, relative: &Vec<Probe>) -> (r: Result<
        Resolved,
        i32,
    >)
        requires
            self@.wf(),
            answers(self@.mounts, path@, direct@, relative@),
        ensures
            match r {
                Ok(place) => resolved_of(self@.mounts, path@, direct@, relative@) == Some(
                    (place.candidate@, place.spelling),
                ),
                Err(e) => e == ENOENT && resolved_of(
                    self@.mounts,
                    path@,
                    direct@,
                    relative@,
                ) is None,
            },
    {
        self.target(path, direct, relative)
    }

    /// The place where a directory is to be made.  The working directory is there already.
    pub fn mkdir(&self, path: &str, direct: &Vec<Probe>, relative: &Vec<Probe>) -> (r: Result<
        Resolved,
        i32,
    >)
        requires
            self@.wf(),
            answers(self@.mounts, path@, direct@, relative@),
        ensures
            ({
                let found = resolved_of(self@.mounts, path@, direct@, relative@);
                if path@.len() == 0 {
                    r == Err::<Resolved, i32>(ENOENT)
                } else if is_root_name(path@) {
                    r == Err::<Resolved, i32>(EEXIST)
                } else {
                    match r {
                        Ok(place) => found == Some((place.candidate@, place.spelling)),
                        Err(e) => e == ENOENT && found is None,
                    }
                }
            }),
    {
        if path.is_empty() {
            return Err(ENOENT);
        }
        if names_root(path) {
            return Err(EEXIST);
        }
        self.target(path, direct, relative)
    }

    /// The places that `rename` acts on.  The old path is resolved first.
    pub fn rename(
        &self,
        old_path: &str,
        old_direct: &Vec<Probe>,
        old_relative: &Vec<Probe>,
        new_path: &str,
        new_direct: &Vec<Probe>,
        new_relative: &Vec<Probe>,
    ) -> (r: Result<(Resolved, Resolved), i32>)
        requires
            self@.wf(),
            answers(self@.mounts, old_path@, old_direct@, old_relative@),
            answers(self@.mounts, new_path@, new_direct@, new_relative@),
        ensures
            ({
                let from = resolved_of(self@.mounts, old_path@, old_direct@, old_relative@);
                let to = resolved_of(self@.mounts, new_path@, new_direct@, new_relative@);
                match r {
                    Ok((a, b)) => from == Some((a.candidate@, a.spelling)) && to == Some(
                        (b.candidate@, b.spelling),
                    ),
                    Err(e) => e == ENOENT && (from is None || to is None),
                }
            }),
    {
        let from = match self.target(old_path, old_direct, old_relative) {
            Ok(place) => place,
            Err(e) => {
                return Err(e);
            },
        };
        match self.target(new_path, new_direct, new_relative) {
            Ok(to) => Ok((from, to)),
            Err(e) => Err(e),
        }
    }

    /// What to open on the host, and how.
    pub fn open(
        &self,
        path: &str,
        flags: i32,
        direct: &Vec<Probe>,
        relative: &Vec<Probe>,
    ) -> (r: Result<(Resolved, OpenMode), i32>)
        requires
            self@.wf(),
            answers(self@.mounts, path@, direct@, relative@),
        ensures
            ({
                let found = resolved_of(self@.mounts, path@, direct@, relative@);
                match r {
                    Ok((place, mode)) => found == Some((place.candidate@, place.spelling))
                        && mode_of(flags) == Some(mode),
                    Err(e) => if found is None {
                        e == ENOENT
                    } else {
                        e == EINVAL && mode_of(flags) is None
                    },
                }
            }),
    {
        let place = match self.target(path, direct, relative) {
            Ok(place) => place,
            Err(e) => {
                return Err(e);
            },
        };
        match open_mode(flags) {
            Some(mode) => Ok((place, mode)),
            None => Err(EINVAL),
        }
    }

    /// Give out a descriptor once the host has opened the file.
    pub fn opened(&mut self, path: &str, flags: i32, ok: bool) -> (r: Result<i32, i32>)
        requires
            old(self)@.wf(),
            old(self)@.next_fd < i32::MAX,
        ensures
            final(self)@.wf(),
            if ok {
                &&& r == Ok::<i32, i32>(old(self)@.next_fd)
                &&& final(self)@ == with_open(
                    old(self)@,
                    final(self)@.files[old(self)@.next_fd],
                )
                &&& final(self)@.files[old(self)@.next_fd].path@ == path@
                &&& final(self)@.files[old(self)@.next_fd].flags == flags
                &&& final(self)@.files[old(self)@.next_fd].dir is None
            } else {
                r == Err::<i32, i32>(ENOENT) && final(self)@ == old(self)@
            },
    {
        if !ok {
            return Err(ENOENT);
        }
        let fd: i32 = self.next_fd;
        self.next_fd = fd + 1;
        self.files.insert(fd, FileDescription { path: path.to_string(), flags, dir: None });
        assert(self@ =~= with_open(old(self)@, self@.files[fd]));
        Ok(fd)
    }

    /// Close a descriptor.
    pub fn close(&mut self, fd: i32) -> (r: Result<i32, i32>)
        requires
            old(self)@.wf(),
        ensures
            final(self)@.wf(),
            r == (if old(self)@.files.contains_key(fd) {
                Ok::<i32, i32>(0)
            } else {
                Err::<i32, i32>(EBADF)
            }),
            final(self)@ == with_closed(old(self)@, fd),
    {
        let removed = self.files.remove(&fd);
        assert(self@ =~= with_closed(old(self)@, fd));
        match removed {
            Some(_) => Ok(0),
            None => Err(EBADF),
        }
    }

    /// The path a descriptor was opened with.
    pub fn path_of(&self, fd: i32) -> (path: Option<String>)
        ensures
            match path {
                Some(p) => self@.files.contains_key(fd) && p@ == self@.files[fd].path@,
                None => !self@.files.contains_key(fd),
            },
    {
        match self.files.get(&fd) {
            Some(d) => Some(d.path.clone()),
            None => None,
        }
    }

    /// Whether a descriptor is open.
    fn check(&self, fd: i32) -> (r: Result<(), i32>)
        ensures
            r == (if self@.files.contains_key(fd) {
                Ok::<(), i32>(())
            } else {
                Err::<(), i32>(EBADF)
            }),
    {
        if self.files.contains_key(&fd) {
            Ok(())
        } else {
            Err(EBADF)
        }
    }

    /// Whether a descriptor can be read at a position: any that is open can be tried.
    pub fn pread(&self, fd: i32) -> (r: Result<(), i32>)
        ensures
            r == (if self@.files.contains_key(fd) {
                Ok::<(), i32>(())
            } else {
                Err::<(), i32>(EBADF)
            }),
    {
        self.check(fd)
    }

    /// Whether a descriptor can be told of.
    pub fn fstat(&self, fd: i32) -> (r: Result<(), i32>)
        ensures
            r == (if self@.files.contains_key(fd) {
                Ok::<(), i32>(())
            } else {
                Err::<(), i32>(EBADF)
            }),
    {
        self.check(fd)
    }

    /// Whether a descriptor may be read.
    pub fn read(&self, fd: i32) -> (r: Result<(), i32>)
        ensures
            r == (if self@.files.contains_key(fd) && access_of(self@.files[fd]) != O_WRONLY {
                Ok::<(), i32>(())
            } else {
                Err::<(), i32>(EBADF)
            }),
    {
        match self.files.get(&fd) {
            Some(d) => {
                if d.flags & 3 == O_WRONLY {
                    Err(EBADF)
                } else {
                    Ok(())
                }
            },
            None => Err(EBADF),
        }
    }

    /// Whether a descriptor may be written at a position.
    pub fn pwrite(&self, fd: i32) -> (r: Result<(), i32>)
        ensures
            r == (if self@.files.contains_key(fd) && access_of(self@.files[fd]) != O_RDONLY {
                Ok::<(), i32>(())
            } else {
                Err::<(), i32>(EBADF)
            }),
    {
        match self.files.get(&fd) {
            Some(d) => {
                if d.flags & 3 == O_RDONLY {
                    Err(EBADF)
                } else {
                    Ok(())
                }
            },
            None => Err(EBADF),
        }
    }

    /// Where a write goes: `true` to the console, which takes all of it, `false` to the
    /// open file.
    pub fn write(&self, fd: i32) -> (r: Result<bool, i32>)
        ensures
            r == (if fd == 1 || fd == 2 {
                Ok::<bool, i32>(true)
            } else if self@.files.contains_key(fd) && access_of(self@.files[fd]) != O_RDONLY {
                Ok::<bool, i32>(false)
            } else {
                Err::<bool, i32>(EBADF)
            }),
    {
        if fd == 1 || fd == 2 {
            return Ok(true);
        }
        match self.pwrite(fd) {
            Ok(_) => Ok(false),
            Err(e) => Err(e),
        }
    }

    /// The seek to make.
    pub fn lseek(&self, fd: i32, offset: i64, whence: i32) -> (r: Result<Seek, i32>)
        ensures
            r == (if !self@.files.contains_key(fd) {
                Err::<Seek, i32>(EBADF)
            } else {
                match seek_of(offset, whence) {
                    Some(seek) => Ok::<Seek, i32>(seek),
                    None => Err::<Seek, i32>(EINVAL),
                }
            }),
    {
        if !self.files.contains_key(&fd) {
            return Err(EBADF);
        }
        if whence == 0 {
            Ok(Seek::Start(unsigned(offset)))
        } else if whence == 1 {
            Ok(Seek::Current(offset))
        } else if whence == 2 {
            Ok(Seek::End(offset))
        } else {
            Err(EINVAL)
        }
    }

    /// Whether a directory is yet to be listed before it can be read.
    pub fn needs_listing(&self, fd: i32) -> (r: Result<bool, i32>)
        ensures
            r == (if self@.files.contains_key(fd) {
                Ok::<bool, i32>(self@.files[fd].dir is None)
            } else {
                Err::<bool, i32>(EBADF)
            }),
    {
        match self.files.get(&fd) {
            Some(d) => Ok(d.dir.is_none()),
            None => Err(EBADF),
        }
    }

    /// Keep the listing of a directory, which is read from then on.
    pub fn list(&mut self, fd: i32, host: Vec<HostEntry>)
        requires
            old(self)@.wf(),
            old(self)@.files.contains_key(fd),
        ensures
            final(self)@.wf(),
            final(self)@.mounts == old(self)@.mounts,
            final(self)@.next_fd == old(self)@.next_fd,
            final(self)@.files == old(self)@.files.insert(fd, final(self)@.files[fd]),
            final(self)@.files[fd].path == old(self)@.files[fd].path,
            final(self)@.files[fd].flags == old(self)@.files[fd].flags,
            final(self)@.files[fd].dir matches Some(c) && c.pos == 0 && dirents(c.entries@)
                == listing(host@),
    {
        let cursor = snapshot(host);
        if let Some(d) = self.files.remove(&fd) {
            let FileDescription { path, flags, dir: _ } = d;
            self.files.insert(fd, FileDescription { path, flags, dir: Some(cursor) });
        }
        assert(self@.files =~= old(self)@.files.insert(fd, self@.files[fd]));
    }

    /// Take what the host said of the directory behind an open file: it is listed, or the
    /// error is the guest's to see.
    pub fn listed(&mut self, fd: i32, found: Listing) -> (r: Result<(), i32>)
        requires
            old(self)@.wf(),
        ensures
            final(self)@.wf(),
            r == (if !old(self)@.files.contains_key(fd) {
                Err::<(), i32>(EBADF)
            } else {
                match found {
                    Listing::Unresolved => Err::<(), i32>(EBADF),
                    Listing::NotDirectory => Err::<(), i32>(ENOTDIR),
                    Listing::Failed { kind, raw } => Err::<(), i32>(errno_of(kind, raw)),
                    Listing::Entries(_) => Ok::<(), i32>(()),
                }
            }),
            match found {
                Listing::Entries(host) if old(self)@.files.contains_key(fd) => {
                    &&& final(self)@.mounts == old(self)@.mounts
                    &&& final(self)@.next_fd == old(self)@.next_fd
                    &&& final(self)@.files == old(self)@.files.insert(fd, final(self)@.files[fd])
                    &&& final(self)@.files[fd].path == old(self)@.files[fd].path
                    &&& final(self)@.files[fd].flags == old(self)@.files[fd].flags
                    &&& final(self)@.files[fd].dir matches Some(c)
                    &&& c.pos == 0
                    &&& dirents(c.entries@) == listing(host@)
                },
                _ => final(self)@ == old(self)@,
            },
    {
        if self.files.get(&fd).is_none() {
            return Err(EBADF);
        }
        match found {
            Listing::Unresolved => Err(EBADF),
            Listing::NotDirectory => Err(ENOTDIR),
            Listing::Failed { kind, raw } => Err(io_errno(kind, raw)),
            Listing::Entries(host) => {
                self.list(fd, host);
                Ok(())
            },
        }
    }

    /// Read on in a directory that has been listed, into a buffer of `room` bytes.
    pub fn getdents(&mut self, fd: i32, room: usize) -> (r: Result<Vec<u8>, i32>)
        requires
            old(self)@.wf(),
            old(self)@.files.contains_key(fd) ==> old(self)@.files[fd].dir is Some,
        ensures
            final(self)@.wf(),
            if old(self)@.files.contains_key(fd) {
                let before = old(self)@.files[fd].dir->0;
                let rest = crate::kernel::dirent::unread(before);
                let n = crate::kernel::dirent::fits(rest, room as int);
                &&& final(self)@.files == old(self)@.files.insert(fd, final(self)@.files[fd])
                &&& final(self)@.mounts == old(self)@.mounts
                &&& final(self)@.next_fd == old(self)@.next_fd
                &&& final(self)@.files[fd].path == old(self)@.files[fd].path
                &&& final(self)@.files[fd].flags == old(self)@.files[fd].flags
                &&& if rest.len() > 0 && n == 0 {
                    r == Err::<Vec<u8>, i32>(EINVAL) && final(self)@.files[fd].dir == Some(before)
                } else {
                    &&& r matches Ok(bytes)
                    &&& bytes@ == crate::kernel::dirent::packed(rest.take(n))
                    &&& bytes@.len() <= room
                    &&& final(self)@.files[fd].dir == Some(
                        DirCursor { pos: (before.pos + n) as usize, ..before },
                    )
                }
            } else {
                r == Err::<Vec<u8>, i32>(EBADF) && final(self)@ == old(self)@
            },
    {
        match self.files.remove(&fd) {
            Some(d) => {
                let FileDescription { path, flags, dir } = d;
                match dir {
                    Some(c) => {
                        let mut cursor = c;
                        let r = read_on(&mut cursor, room);
                        self.files.insert(fd, FileDescription { path, flags, dir: Some(cursor) });
                        assert(self@.files =~= old(self)@.files.insert(fd, self@.files[fd]));
                        r
                    },
                    None => {
                        self.files.insert(fd, FileDescription { path, flags, dir: None });
                        Err(EBADF)
                    },
                }
            },
            None => {
                assert(self@.files =~= old(self)@.files);
                Err(EBADF)
            },
        }
    }
}

fn unsigned(offset: i64) -> (u: u64)
    ensures
        u == as_unsigned(offset),
{
    if offset >= 0 {
        offset as u64
    } else {
        (0x7FFF_FFFF_FFFF_FFFF - (-(offset + 1))) as u64 + 0x8000_0000_0000_0000
    }
}

/// Components of their own.
fn own(parts: &Vec<&str>) -> (out: Vec<String>)
    ensures
        strings(out@) == texts(parts@),
{
    let mut out: Vec<String> = Vec::new();
    let mut i: usize = 0;
    while i < parts.len()
        invariant
            i <= parts@.len(),
            out@.len() == i,
            forall|j: int| 0 <= j < i ==> (#[trigger] out@[j])@ == parts@[j]@,
        decreases parts@.len() - i,
    {
        out.push(String::from_str(parts[i]));
        i = i + 1;
    }
    assert(strings(out@) =~= texts(parts@));
    out
}

/// The number of bytes moved, or the error of a transfer that failed.
pub fn transferred(host: Option<usize>) -> (r: Result<usize, i32>)
    ensures
        r == (match host {
            Some(n) => Ok::<usize, i32>(n),
            None => Err::<usize, i32>(EIO),
        }),
{
    match host {
        Some(n) => Ok(n),
        None => Err(EIO),
    }
}

/// The new position, or the error of a seek that failed.
pub fn sought(host: Option<u64>) -> (r: Result<u64, i32>)
    ensures
        r == (match host {
            Some(n) => Ok::<u64, i32>(n),
            None => Err::<u64, i32>(EINVAL),
        }),
{
    match host {
        Some(n) => Ok(n),
        None => Err(EINVAL),
    }
}

/// The mounts are consulted longest prefix first, whatever order they were made in, and a
/// new mount moves no other.
pub proof fn law_longest_prefix_is_first(s: Seq<MountView>, m: MountView)
    requires
        longest_first(s),
    ensures
        ({
            let t = s.insert(place_for(s, byte_len(m.prefix)), m);
            &&& longest_first(t)
            &&& t.contains(m)
            &&& t.remove(place_for(s, byte_len(m.prefix))) == s
        }),
{
    lemma_insert_longest_first(s, m);
    lemma_place_for(s, byte_len(m.prefix));
    let k = place_for(s, byte_len(m.prefix));
    let t = s.insert(k, m);
    assert(t[k] == m);
    assert(t.remove(k) =~= s);
}

/// Unmounting a prefix takes back the mounts made under it, and leaves the others, in
/// their order.
pub proof fn law_unmount_undoes_mount(s: Seq<MountView>, m: MountView)
    requires
        longest_first(s),
        forall|i: int| 0 <= i < s.len() ==> (#[trigger] s[i]).prefix != m.prefix,
    ensures
        without(s.insert(place_for(s, byte_len(m.prefix)), m), m.prefix) == s,
{
    let k = place_for(s, byte_len(m.prefix));
    lemma_place_for(s, byte_len(m.prefix));
    lemma_without_inserted(s, k, m);
}

proof fn lemma_without_inserted(s: Seq<MountView>, k: int, m: MountView)
    requires
        0 <= k <= s.len(),
        forall|i: int| 0 <= i < s.len() ==> (#[trigger] s[i]).prefix != m.prefix,
    ensures
        without(s.insert(k, m), m.prefix) == s,
    decreases s.len(),
{
    let t = s.insert(k, m);
    if k == s.len() {
        assert(t.drop_last() =~= s);
        lemma_without_none(s, m.prefix);
    } else {
        assert(t.drop_last() =~= s.drop_last().insert(k, m));
        assert(t.last() == s.last());
        assert forall|i: int| 0 <= i < s.drop_last().len() implies (
        #[trigger] s.drop_last()[i]).prefix != m.prefix by {
            assert(s.drop_last()[i] == s[i]);
        }
        lemma_without_inserted(s.drop_last(), k, m);
        assert(s.drop_last().push(s.last()) =~= s);
        assert(s.last() == s[s.len() - 1]);
    }
}

proof fn lemma_without_none(s: Seq<MountView>, prefix: Seq<char>)
    requires
        forall|i: int| 0 <= i < s.len() ==> (#[trigger] s[i]).prefix != prefix,
    ensures
        without(s, prefix) == s,
    decreases s.len(),
{
    if s.len() > 0 {
        assert forall|i: int| 0 <= i < s.drop_last().len() implies (
        #[trigger] s.drop_last()[i]).prefix != prefix by {
            assert(s.drop_last()[i] == s[i]);
        }
        lemma_without_none(s.drop_last(), prefix);
        assert(s.last() == s[s.len() - 1]);
        assert(s.drop_last().push(s.last()) =~= s);
    } else {
        assert(s =~= Seq::empty());
    }
}

/// What exists is preferred to what does not, and an earlier mount to a later one; a path
/// resolves only to a place that stays inside its host directory.
pub proof fn law_resolution_stays_inside(probes: Seq<Probe>)
    ensures
        match decision(probes) {
            Some((i, spelling)) => {
                &&& 0 <= i < probes.len()
                &&& probes[i].contained
                &&& spelling == Spelling::Folded ==> probes[i].folded && !probes[i].exists
                &&& is_hit(probes[i]) || forall|j: int|
                    0 <= j < probes.len() ==> !is_hit(#[trigger] probes[j])
            },
            None => forall|j: int| 0 <= j < probes.len() ==> !(#[trigger] probes[j]).contained,
        },
{
    lemma_no_hit(probes);
    if first_hit(probes) is Some {
        lemma_first_hit_bound(probes);
    } else if first_contained(probes) is Some {
        lemma_first_contained_bound(probes);
    }
}

proof fn lemma_no_hit(s: Seq<Probe>)
    ensures
        first_hit(s) is None ==> forall|j: int| 0 <= j < s.len() ==> !is_hit(#[trigger] s[j]),
        first_contained(s) is None ==> forall|j: int|
            0 <= j < s.len() ==> !(#[trigger] s[j]).contained,
    decreases s.len(),
{
    if s.len() > 0 {
        lemma_no_hit(s.drop_last());
        assert forall|j: int| 0 <= j < s.len() && first_hit(s) is None implies !is_hit(
            #[trigger] s[j],
        ) by {
            if j < s.len() - 1 {
                assert(s.drop_last()[j] == s[j]);
            }
        }
        assert forall|j: int| 0 <= j < s.len() && first_contained(s) is None implies !(
        #[trigger] s[j]).contained by {
            if j < s.len() - 1 {
                assert(s.drop_last()[j] == s[j]);
            }
        }
    }
}

/// Once a candidate is found to be there, nothing later matters: the disk need not be
/// asked about the rest.
pub proof fn law_first_hit_decides(probes: Seq<Probe>, n: int, others: Seq<Probe>)
    requires
        0 <= n <= probes.len(),
        first_hit(probes.take(n)) is Some,
    ensures
        decision(probes.take(n) + others) == decision(probes),
{
    let mixed = probes.take(n) + others;
    assert(mixed.take(n) =~= probes.take(n));
    lemma_first_hit(probes, n);
    lemma_first_hit(mixed, n);
    let i = first_hit(probes)->0;
    assert(mixed[i] == probes[i]);
}

proof fn lemma_under(m: MountView, path: Seq<char>)
    ensures
        under(m, path) matches Some(c) ==> c.root == m.root && (forall|j: int|
            0 <= j < c.components.len() ==> !crate::kernel::path::is_parent(
                #[trigger] c.components[j],
            ) && !crate::kernel::path::is_here(c.components[j])),
{
    crate::kernel::path::law_collapsed_paths_only_descend(split(below(path, m.prefix)));
}

/// The host directory is behind a mount that the path lies under.
pub open spec fn is_mounted_at(s: Seq<MountView>, path: Seq<char>, root: usize) -> bool {
    exists|k: int|
        0 <= k < s.len() && (#[trigger] s[k]).root == root && prefix_matches(path, s[k].prefix)
}

/// Every place a path may lie at is below the host directory of a mount: the components
/// from there only descend.
pub proof fn law_candidates_stay_below_their_mount(s: Seq<MountView>, path: Seq<char>)
    ensures
        forall|i: int, j: int|
            0 <= i < candidates_of(s, path).len() && 0 <= j < candidates_of(
                s,
                path,
            )[i].components.len() ==> !crate::kernel::path::is_parent(
                #[trigger] candidates_of(s, path)[i].components[j],
            ),
        forall|i: int|
            0 <= i < candidates_of(s, path).len() ==> is_mounted_at(
                s,
                path,
                (#[trigger] candidates_of(s, path)[i]).root,
            ),
    decreases s.len(),
{
    if s.len() > 0 {
        let front = s.drop_last();
        law_candidates_stay_below_their_mount(front, path);
        lemma_under(s.last(), path);
        let a = candidates_of(front, path);
        let b = candidates_of(s, path);
        assert forall|i: int, j: int|
            0 <= i < b.len() && 0 <= j < b[i].components.len() implies !crate::kernel::path::is_parent(
            #[trigger] b[i].components[j],
        ) by {
            if i < a.len() {
                assert(b[i] == a[i]);
                assert(!crate::kernel::path::is_parent(a[i].components[j]));
            }
        }
        assert forall|i: int| 0 <= i < b.len() implies is_mounted_at(
            s,
            path,
            (#[trigger] b[i]).root,
        ) by {
            if i < a.len() {
                assert(b[i] == a[i]);
                assert(is_mounted_at(front, path, a[i].root));
                let k = choose|k: int|
                    0 <= k < front.len() && (#[trigger] front[k]).root == a[i].root
                        && prefix_matches(path, front[k].prefix);
                assert(s[k] == front[k]);
            } else {
                let k = s.len() - 1;
                assert(s[k].root == b[i].root && prefix_matches(path, s[k].prefix));
            }
        }
    }
}

/// A file that is opened, or a descriptor that is closed.
pub enum FileEvent {
    Open(FileDescription),
    Close(i32),
}

/// The file system after some files have been opened and closed, one after the other.
pub open spec fn after_events(s: FsView, events: Seq<FileEvent>) -> FsView
    decreases events.len(),
{
    if events.len() == 0 {
        s
    } else {
        let t = after_events(s, events.drop_last());
        match events.last() {
            FileEvent::Open(d) => with_open(t, d),
            FileEvent::Close(fd) => with_closed(t, fd),
        }
    }
}

/// A descriptor that has been closed stays closed, whatever is opened afterwards: it is
/// never given out again.
pub proof fn law_descriptors_are_never_reused(s: FsView, events: Seq<FileEvent>, fd: i32)
    requires
        s.next_fd + events.len() <= i32::MAX,
        fd < s.next_fd,
        !s.files.contains_key(fd),
    ensures
        s.next_fd <= after_events(s, events).next_fd <= s.next_fd + events.len(),
        !after_events(s, events).files.contains_key(fd),
    decreases events.len(),
{
    if events.len() > 0 {
        law_descriptors_are_never_reused(s, events.drop_last(), fd);
    }
}

/// A file that is opened gets a descriptor of its own: those that are open stay as they
/// are, and closing the new one leaves the same files open as before.
pub proof fn law_close_undoes_open(s: FsView, d: FileDescription)
    requires
        s.wf(),
        s.next_fd < i32::MAX,
    ensures
        !s.files.contains_key(s.next_fd),
        forall|fd: i32| #[trigger]
            s.files.contains_key(fd) ==> with_open(s, d).files.contains_key(fd) && with_open(
                s,
                d,
            ).files[fd] == s.files[fd],
        with_closed(with_open(s, d), s.next_fd).files == s.files,
{
    assert(with_closed(with_open(s, d), s.next_fd).files =~= s.files);
}

/// The numbers that the guest knows its errors by.
pub proof fn law_error_numbers(kind: HostErrorKind, raw: Option<i32>)
    ensures
        kind is NotFound ==> errno_of(kind, raw) == 2,
        kind is PermissionDenied ==> errno_of(kind, raw) == 13,
        kind is AlreadyExists ==> errno_of(kind, raw) == 17,
        kind is Other ==> errno_of(kind, raw) == (match raw {
            Some(n) => if n == 20 || n == 21 {
                n
            } else if n == 36 {
                63
            } else if n == 39 {
                66
            } else if n == 40 {
                62
            } else {
                5
            },
            None => 5,
        }),
        ENOENT == 2 && EIO == 5 && EBADF == 9 && EACCES == 13 && EEXIST == 17,
        ENOTDIR == 20 && EISDIR == 21 && EINVAL == 22,
        FIRST_FD == 3,
{
}

/// The lowest two bits of the flags say whether a file is read (0), written (1) or both (2), and
/// what is opened so is what a descriptor may then be used for; bits 3, 9 and 10 append, create
/// and truncate.
pub proof fn law_open_flags(flags: i32, d: FileDescription)
    requires
        d.flags == flags,
    ensures
        mode_of(flags) is None <==> flags & 3 == 3,
        mode_of(flags) matches Some(m) ==> {
            &&& m.read <==> flags & 3 == 0 || flags & 3 == 2
            &&& m.write <==> flags & 3 == 1 || flags & 3 == 2
            &&& m.append <==> flags & 0x8 != 0
            &&& m.create <==> flags & 0x200 != 0
            &&& m.truncate <==> flags & 0x400 != 0
            &&& m.read <==> access_of(d) != 1
            &&& m.write <==> access_of(d) != 0
        },
        access_of(d) == flags & 3,
        O_RDONLY == 0 && O_WRONLY == 1,
{
    assert(flags & 3 == 0 || flags & 3 == 1 || flags & 3 == 2 || flags & 3 == 3) by (bit_vector);
}

/// A seek counts from the start (0), from where the file is (1) or from its end (2), and by the
/// offset that was given; from the start the offset is taken as it stands in its 64 bits.
pub proof fn law_seeks(offset: i64, whence: i32)
    ensures
        seek_of(offset, whence) is Some <==> 0 <= whence <= 2,
        whence == 0 ==> (seek_of(offset, whence) matches Some(Seek::Start(at)) && (at - offset)
            % 0x1_0000_0000_0000_0000 == 0),
        whence == 1 ==> seek_of(offset, whence) == Some(Seek::Current(offset)),
        whence == 2 ==> seek_of(offset, whence) == Some(Seek::End(offset)),
{
}

/// Once mounted, the prefixes are consulted from the longest in bytes to the shortest; and one
/// that is as long as others comes behind them.
pub proof fn law_mounts_are_ordered(s: Seq<MountView>, m: MountView, i: int, j: int)
    requires
        forall|a: int, b: int|
            0 <= a < b < s.len() ==> encode_utf8((#[trigger] s[a]).prefix).len() as usize
                >= encode_utf8((#[trigger] s[b]).prefix).len() as usize,
        0 <= i < j <= s.len(),
    ensures
        ({
            let k = place_for(s, byte_len(m.prefix));
            let t = s.insert(k, m);
            &&& 0 <= k <= s.len()
            &&& encode_utf8(t[i].prefix).len() as usize >= encode_utf8(t[j].prefix).len() as usize
            &&& i == k ==> encode_utf8(t[i].prefix).len() as usize > encode_utf8(
                t[j].prefix,
            ).len() as usize
        }),
{
    lemma_place_for(s, byte_len(m.prefix));
    lemma_insert_longest_first(s, m);
    let k = place_for(s, byte_len(m.prefix));
    let t = s.insert(k, m);
    assert(byte_len(t[i].prefix) >= byte_len(t[j].prefix));
    if i == k {
        assert(t[j] == s[j - 1]);
    }
}

/// Unmounting takes every mount of the prefix, and no other, and leaves the rest in order.
pub proof fn law_unmount(s: Seq<MountView>, m: MountView, prefix: Seq<char>)
    ensures
        without(Seq::<MountView>::empty(), prefix).len() == 0,
        m.prefix == prefix ==> without(s.push(m), prefix) == without(s, prefix),
        m.prefix != prefix ==> without(s.push(m), prefix) == without(s, prefix).push(m),
{
    assert(s.push(m).drop_last() =~= s);
}

/// A path may lie under each mount that it begins with, in the order of the mounts: below the
/// mount's directory, along the components that are left once the prefix is taken away; and not
/// where these would leave the directory.
pub proof fn law_candidates(s: Seq<MountView>, m: MountView, path: Seq<char>)
    ensures
        candidates_of(Seq::<MountView>::empty(), path).len() == 0,
        !prefix_matches(path, m.prefix) ==> candidates_of(s.push(m), path) == candidates_of(s, path),
        prefix_matches(path, m.prefix) ==> match collapse(split(below(path, m.prefix))) {
            Some(components) => candidates_of(s.push(m), path) == candidates_of(s, path).push(
                CandidateView { root: m.root, components },
            ),
            None => candidates_of(s.push(m), path) == candidates_of(s, path),
        },
{
    assert(s.push(m).drop_last() =~= s);
}

/// A path resolves to the first place that stays inside its directory and is there, by its
/// letters or but for their case; where none is, to the first that stays inside.  It is spelled
/// as it was given unless only another case of it is there.
pub proof fn law_first_place_wins(probes: Seq<Probe>, j: int)
    ensures
        match decision(probes) {
            Some((i, spelling)) => {
                &&& 0 <= i < probes.len()
                &&& probes[i].contained
                &&& probes[i].exists ==> spelling is Exact
                &&& !probes[i].exists && probes[i].folded ==> spelling is Folded
                &&& !probes[i].exists && !probes[i].folded ==> spelling is Exact
                &&& 0 <= j < i ==> !(probes[j].contained && (probes[j].exists || probes[j].folded))
                &&& !probes[i].exists && !probes[i].folded ==> (0 <= j < i ==> !probes[j].contained)
                    && (0 <= j < probes.len() ==> !(probes[j].contained && (probes[j].exists
                    || probes[j].folded)))
            },
            None => 0 <= j < probes.len() ==> !probes[j].contained,
        },
{
    law_resolution_stays_inside(probes);
    lemma_firsts(probes, j);
    if first_hit(probes) is Some {
        lemma_first_hit_bound(probes);
    } else {
        lemma_no_hit(probes);
        if first_contained(probes) is Some {
            lemma_first_contained_bound(probes);
        }
    }
}

proof fn lemma_firsts(s: Seq<Probe>, j: int)
    ensures
        first_hit(s) matches Some(i) ==> (0 <= j < i ==> !is_hit(s[j])),
        first_contained(s) matches Some(i) ==> (0 <= j < i ==> !s[j].contained),
    decreases s.len(),
{
    if s.len() > 0 {
        let front = s.drop_last();
        lemma_firsts(front, j);
        lemma_no_hit(front);
        if first_hit(front) is Some {
            lemma_first_hit_bound(front);
        }
        if first_contained(front) is Some {
            lemma_first_contained_bound(front);
        }
        if 0 <= j < front.len() {
            assert(front[j] == s[j]);
        }
    }
}

/// A path is looked for as it is first; only one that does not begin with a slash, and was not
/// found so, is looked for once more from the root.
pub proof fn law_relative_paths_are_tried_again(
    s: Seq<MountView>,
    path: Seq<char>,
    direct: Seq<Probe>,
    relative: Seq<Probe>,
)
    ensures
        decision(direct) matches Some(found) ==> resolved_of(s, path, direct, relative) == Some(
            (candidates_of(s, path)[found.0], found.1),
        ),
        decision(direct) is None && path.len() > 0 && path[0] == '/' ==> resolved_of(
            s,
            path,
            direct,
            relative,
        ) is None,
        decision(direct) is None && (path.len() == 0 || path[0] != '/') ==> match decision(relative) {
            Some(found) => resolved_of(s, path, direct, relative) == Some(
                (candidates_of(s, anchored(path))[found.0], found.1),
            ),
            None => resolved_of(s, path, direct, relative) is None,
        },
{
}

/// A new descriptor is one above the last, and leads to what was opened.
pub proof fn law_descriptors_count_up(s: FsView, d: FileDescription)
    requires
        s.next_fd < i32::MAX,
    ensures
        with_open(s, d).next_fd == s.next_fd + 1,
        with_open(s, d).files.contains_key(s.next_fd),
        with_open(s, d).files[s.next_fd] == d,
        with_open(s, d).mounts == s.mounts,
        with_closed(s, s.next_fd).next_fd == s.next_fd,
        with_closed(s, s.next_fd).mounts == s.mounts,
{
}

/// A prefix goes behind all that are as long or longer, and before all that are shorter.
pub proof fn law_mount_has_a_place(s: Seq<MountView>, len: usize)
    ensures
        0 <= place_for(s, len) <= s.len(),
        forall|i: int| place_for(s, len) <= i < s.len() ==> byte_len((#[trigger] s[i]).prefix) < len,
        place_for(s, len) > 0 ==> byte_len(s[place_for(s, len) - 1].prefix) >= len,
{
    lemma_place_for(s, len);
}

} // verus!
