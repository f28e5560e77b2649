//! The guest process: its memory requests, its save data and its thread-local arenas.

use crate::kernel::dirent::EntryKind;
use crate::kernel::direct_memory::{DirectMemory, DirectMemoryView};
use crate::kernel::direct_memory::{after_allocation, after_release, allocated, available};
use crate::kernel::direct_memory::{DIRECT_MEMORY_PAGE, DIRECT_MEMORY_POOL_BASE};
use crate::kernel::direct_memory::DIRECT_MEMORY_POOL_SIZE;
use crate::kernel::fs::{byte_len, place_for, without, FileSystem, FsView, MountView};
use crate::kernel::fs::FIRST_FD;
use crate::kernel::modules::{load_step, symbol_of, LoadStep, ModuleRegistry, RegistryView};
use crate::kernel::modules::module_dlsym;
use crate::kernel::sync::{SyncManager, SyncView};
use crate::kernel::tls::TlsKeys;
use crate::table::Table;
use crate::text::{append_decimal, decimal, law_decimal_is_injective};
use std::collections::HashMap;
use vstd::prelude::*;
use vstd::string::StringExecFns;

verus! {

broadcast use {
    vstd::std_specs::hash::group_hash_axioms,
    vstd::string::group_string_axioms,
};

pub const EIO: i32 = 0x5;
pub const ENODEV: i32 = 0x13;
pub const EINVAL: i32 = 0x16;

/// The size of the structure that stands for the main thread.
pub const PTHREAD_SIZE: usize = 0x4000;

/// No descriptor.
pub const NO_FD: i32 = -1;

/// The size of a thread's arena for thread-local variables.
pub const TLS_ARENA_SIZE: usize = 0x1_0000;

/// The blocks of a save slot that asks for none.
pub const DEFAULT_BLOCKS: u64 = 4096;

pub const PROT_READ: i32 = 1;
pub const PROT_WRITE: i32 = 2;
pub const PROT_EXEC: i32 = 4;
pub const MAP_FIXED: i32 = 0x10;
pub const MAP_ANONYMOUS: i32 = 0x1000;

/// A file that a mapping is filled from, and the position to read at.
#[derive(Clone, Copy, Debug, PartialEq, Eq, Structural)]
pub struct FileFill {
    pub fd: i32,
    pub from: u64,
}

/// A mapping to be made, as the memory takes it.  A `target` of 0 leaves the address to
/// the memory.
#[derive(Clone, Copy, Debug, PartialEq, Eq, Structural)]
pub struct MapPlan {
    pub target: u64,
    pub len: usize,
    pub align: usize,
    pub read: bool,
    pub write: bool,
    pub execute: bool,
    pub file: Option<FileFill>,
}

/// The mapping that a request asks for.  An address counts only where the request fixes
/// it; a descriptor counts where it is one and the request is not for anonymous memory.
pub open spec fn map_plan(
    addr: u64,
    len: usize,
    align: usize,
    prot: i32,
    flags: i32,
    fd: i32,
    offset: i64,
) -> MapPlan {
    MapPlan {
        target: if flags & MAP_FIXED == MAP_FIXED {
            addr
        } else {
            0
        },
        len,
        align,
        read: prot & PROT_READ != 0,
        write: prot & PROT_WRITE != 0,
        execute: prot & PROT_EXEC != 0,
        file: if fd >= 0 && flags & MAP_ANONYMOUS == 0 {
            Some(
                FileFill {
                    fd,
                    from: if offset >= 0 {
                        offset as u64
                    } else {
                        0
                    },
                },
            )
        } else {
            None
        },
    }
}

/// What is left to do once a mapping has been made and filled.
#[derive(Clone, Copy, Debug, PartialEq, Eq, Structural)]
pub enum AfterMap {
    Nothing,
    /// Zero the mapping from this byte on: the file ends there.
    ZeroFrom(usize),
    /// Take the mapping back.
    Unmap,
}

/// A region of memory, as the memory knows it.
#[derive(Debug)]
pub struct Region {
    pub start: u64,
    pub end: u64,
    pub protection: i32,
    pub name: String,
}

/// A region of memory, as a guest is told of it.
#[derive(Debug)]
pub struct VqRegion {
    pub start: u64,
    pub end: u64,
    pub protection: i32,
    pub memory_type: i32,
    pub is_flexible: bool,
    pub name: String,
}

/// A mapping that the guest made while running, by its name.
pub open spec fn names_flexible(name: Seq<char>) -> bool {
    name == "dynamic_alloc"@ || ("flexible"@.len() <= name.len() && name.take(
        "flexible"@.len() as int,
    ) == "flexible"@)
}

/// Whether a mapping is one that the guest made while running.
fn is_flexible_name(name: &String) -> (b: bool)
    ensures
        b == names_flexible(name@),
{
    if *name == "dynamic_alloc".to_string() {
        return true;
    }
    let chars = crate::text::to_chars(name.as_str());
    let word = crate::text::to_chars("flexible");
    if word.len() > chars.len() {
        return false;
    }
    let mut i: usize = 0;
    while i < word.len()
        invariant
            chars@ == name@,
            word@ == "flexible"@,
            word@.len() <= chars@.len(),
            i <= word@.len(),
            forall|j: int| 0 <= j < i ==> chars@[j] == word@[j],
            name@ != "dynamic_alloc"@,
        decreases word@.len() - i,
    {
        if chars[i] != word[i] {
            assert(name@.take(word@.len() as int)[i as int] != word@[i as int]);
            return false;
        }
        i = i + 1;
    }
    assert(name@.take(word@.len() as int) =~= word@);
    true
}

/// The base of a thread's arena: the one it has, or a new one, which is kept.  Where none
/// can be made nothing is kept, so that the next request tries again.
pub fn tls_arena_lookup_or_alloc<F: FnOnce() -> Result<u64, u64>>(
    arenas: &mut HashMap<u32, u64>,
    tid: u32,
    make: F,
) -> (r: Result<u64, u64>)
    requires
        !old(arenas)@.contains_key(tid) ==> call_requires(make, ()),
    ensures
        if old(arenas)@.contains_key(tid) {
            r == Ok::<u64, u64>(old(arenas)@[tid]) && final(arenas)@ == old(arenas)@
        } else {
            &&& call_ensures(make, (), r)
            &&& final(arenas)@ == (match r {
                Ok(base) => old(arenas)@.insert(tid, base),
                Err(_) => old(arenas)@,
            })
        },
{
    if let Some(base) = arenas.get(&tid) {
        return Ok(*base);
    }
    match make() {
        Ok(base) => {
            arenas.insert(tid, base);
            Ok(base)
        },
        Err(e) => Err(e),
    }
}

/// The mount point of a number.
pub open spec fn save_point(n: nat) -> Seq<char> {
    "/savedata"@ + decimal(n)
}

/// The directory is mounted at the point.
pub open spec fn mounted_at(mounts: Map<Seq<char>, String>, point: Seq<char>, dir: Seq<char>) -> bool {
    mounts.contains_key(point) && mounts[point]@ == dir
}

/// The point is what a directory is to be mounted at: where it is mounted already; else
/// the point of the lowest number that nothing is mounted at.
pub open spec fn is_point_for(
    mounts: Map<Seq<char>, String>,
    dir: Seq<char>,
    point: Seq<char>,
) -> bool {
    if exists|p: Seq<char>| mounted_at(mounts, p, dir) {
        mounted_at(mounts, point, dir)
    } else {
        exists|n: nat| #[trigger]
            save_point(n) == point && !mounts.contains_key(point) && forall|m: nat|
                m < n ==> mounts.contains_key(#[trigger] save_point(m))
    }
}

/// No directory is mounted at two points.
pub open spec fn each_once(mounts: Map<Seq<char>, String>) -> bool {
    forall|p: Seq<char>, q: Seq<char>| #[trigger]
        mounts.contains_key(p) && #[trigger] mounts.contains_key(q) && mounts[p]@ == mounts[q]@
            ==> p == q
}

proof fn lemma_save_points_differ(a: nat, b: nat)
    requires
        a != b,
    ensures
        save_point(a) != save_point(b),
{
    if save_point(a) == save_point(b) {
        let k = "/savedata"@.len() as int;
        assert(save_point(a).skip(k) =~= decimal(a));
        assert(save_point(b).skip(k) =~= decimal(b));
        law_decimal_is_injective(a, b);
    }
}

/// Mounting a directory at its point keeps every directory at one point.
proof fn lemma_mounting_keeps_once(mounts: Map<Seq<char>, String>, dir: String, point: Seq<char>)
    requires
        each_once(mounts),
        is_point_for(mounts, dir@, point),
    ensures
        each_once(mounts.insert(point, dir)),
{
    let after = mounts.insert(point, dir);
    assert forall|p: Seq<char>, q: Seq<char>| #[trigger]
        after.contains_key(p) && #[trigger] after.contains_key(q) && after[p]@ == after[q]@
            implies p == q by {
        if p != q && p == point {
            assert(mounted_at(mounts, q, dir@));
        }
        if p != q && q == point {
            assert(mounted_at(mounts, p, dir@));
        }
    }
}

/// As many places as distinct points: no more than there are entries.
proof fn lemma_places_bounded(used: Set<int>, n: int)
    requires
        n >= 0,
        used.finite(),
        forall|p: int| used.contains(p) ==> 0 <= p < n,
    ensures
        used.len() <= n,
{
    let all = vstd::set_lib::set_int_range(0, n);
    vstd::set_lib::lemma_int_range(0, n);
    assert(used.subset_of(all));
    vstd::set_lib::lemma_len_subset(used, all);
}

/// The point to mount a save directory at.
pub fn alloc_savedata_mount_point(mounts: &Table<String, String>, dir_name: &str) -> (point: String)
    requires
        mounts.wf(),
    ensures
        is_point_for(mounts@, dir_name@, point@),
{
    let dir = String::from_str(dir_name);
    let count: usize = mounts.entries.len();
    let mut i: usize = 0;
    while i < count
        invariant
            mounts.wf(),
            count == mounts.entries@.len(),
            dir@ == dir_name@,
            i <= count,
            forall|j: int| 0 <= j < i ==> (#[trigger] mounts.entries@[j]).1@ != dir_name@,
        decreases count - i,
    {
        if mounts.entries[i].1 == dir {
            proof {
                mounts.lemma_at(i as int);
                assert(mounted_at(mounts@, mounts.entries@[i as int].0@, dir_name@));
            }
            return mounts.entries[i].0.clone();
        }
        i = i + 1;
    }
    proof {
        assert(!exists|p: Seq<char>| mounted_at(mounts@, p, dir_name@)) by {
            if exists|p: Seq<char>| mounted_at(mounts@, p, dir_name@) {
                let p = choose|p: Seq<char>| mounted_at(mounts@, p, dir_name@);
                let k = crate::table::position(mounts.entries@, p)->0;
                assert(mounts.entries@[k].1@ != dir_name@);
            }
        }
    }
    let mut n: u64 = 0;
    let ghost mut used: Set<int> = Set::empty();
    proof {
        lemma_places_bounded(used, count as int);
    }
    loop
        invariant
            mounts.wf(),
            count == mounts.entries@.len(),
            !exists|p: Seq<char>| mounted_at(mounts@, p, dir_name@),
            used.finite(),
            used.len() == n,
            n <= count,
            forall|p: int| used.contains(p) ==> 0 <= p < count,
            forall|p: int|
                used.contains(p) ==> exists|m: nat|
                    m < n && (#[trigger] mounts.entries@[p]).0@ == #[trigger] save_point(m),
            forall|m: nat| m < n ==> mounts@.contains_key(#[trigger] save_point(m)),
        decreases count - n,
    {
        let mut point = String::from_str("/savedata");
        append_decimal(&mut point, n);
        assert(point@ == save_point(n as nat));
        if !mounts.contains_key(&point) {
            return point;
        }
        proof {
            let p = crate::table::position(mounts.entries@, point@)->0;
            assert(mounts.entries@[p].0@ == point@);
            assert(!used.contains(p)) by {
                if used.contains(p) {
                    let m = choose|m: nat|
                        m < n && mounts.entries@[p].0@ == #[trigger] save_point(m);
                    lemma_save_points_differ(m, n as nat);
                }
            }
            let before = used;
            used = used.insert(p);
            assert forall|q: int| used.contains(q) implies exists|m: nat|
                m < n + 1 && (#[trigger] mounts.entries@[q]).0@ == #[trigger] save_point(m) by {
                if q == p {
                    assert(mounts.entries@[q].0@ == save_point(n as nat));
                } else {
                    assert(before.contains(q));
                    let m = choose|m: nat|
                        m < n && mounts.entries@[q].0@ == #[trigger] save_point(m);
                    assert(mounts.entries@[q].0@ == save_point(m));
                }
            }
            lemma_places_bounded(used, count as int);
        }
        n = n + 1;
    }
}

/// The host directory behind a mount that is asked for.
#[derive(Clone, Copy, Debug, PartialEq, Eq, Structural)]
pub enum HostDir {
    /// The program's directory is not known.
    NoProgram,
    /// It was not there, and could not be made.
    Unmakeable,
    /// It is there, under this number, and was there before or not.
    There { root: usize, existed: bool },
}

pub struct Process {
    pub id: u32,
    pub fs: FileSystem,
    pub tls_keys: TlsKeys,
    pub sync_manager: SyncManager,
    pub modules: ModuleRegistry,
    pub savedata_mounts: Table<String, String>,
    pub tls_arenas: HashMap<u32, u64>,
    pub direct_memory: DirectMemory,
}

/// The file system with one more mount.
pub open spec fn with_mount(fs: FsView, point: Seq<char>, root: usize) -> FsView {
    FsView {
        mounts: fs.mounts.insert(
            place_for(fs.mounts, byte_len(point)),
            MountView { prefix: point, root },
        ),
        ..fs
    }
}

impl Process {
    pub open spec fn wf(&self) -> bool {
        &&& self.fs@.wf()
        &&& self.sync_manager@.wf()
        &&& self.modules.wf()
        &&& self.savedata_mounts.wf()
        &&& each_once(self.savedata_mounts@)
        &&& self.direct_memory@.wf()
    }

    pub fn new() -> (p: Self)
        ensures
            p.wf(),
            p.id == 1,
            p.fs@ == (FsView { mounts: Seq::empty(), files: Map::empty(), next_fd: FIRST_FD }),
            p.tls_keys@ == Seq::<Option<u64>>::empty(),
            p.savedata_mounts@ == Map::<Seq<char>, String>::empty(),
            p.tls_arenas@ == Map::<u32, u64>::empty(),
            p.direct_memory@ == (DirectMemoryView { next_off: 0, reservations: Seq::empty() }),
            p.sync_manager@ == (SyncView {
                mutexes: Map::empty(),
                primitives: Seq::empty(),
                conds: Map::empty(),
                rwlocks: Set::empty(),
                next_cond: 0,
            }),
            p.modules@ == (RegistryView {
                by_path: Map::empty(),
                mapped: Map::empty(),
                inits: Seq::empty(),
            }),
    {
        Process {
            id: 1,
            fs: FileSystem::new(),
            tls_keys: TlsKeys::new(),
            sync_manager: SyncManager::new(),
            modules: ModuleRegistry::new(),
            savedata_mounts: Table::new(),
            tls_arenas: HashMap::new(),
            direct_memory: DirectMemory::new(),
        }
    }

    /// Whether the main thread gets a structure of its own: only where there are modules
    /// to be told of it.
    pub fn needs_main_thread(&self) -> (b: bool)
        ensures
            b == (self.modules@.inits.len() > 0),
    {
        self.modules.inits.len() > 0
    }

    /// Mount the area for temporary data.
    pub fn tempdata_mount(&mut self, host: HostDir) -> (r: Result<String, i32>)
        requires
            old(self).wf(),
        ensures
            final(self).wf(),
            *final(self) == (Process { fs: final(self).fs, ..*old(self) }),
            match host {
                HostDir::NoProgram => r == Err::<String, i32>(EINVAL) && final(self).fs@ == old(self).fs@,
                HostDir::Unmakeable => r == Err::<String, i32>(EIO) && final(self).fs@ == old(self).fs@,
                HostDir::There { root, .. } => {
                    &&& r matches Ok(point)
                    &&& point@ == "/temp0"@
                    &&& final(self).fs@ == with_mount(old(self).fs@, "/temp0"@, root)
                },
            },
    {
        match host {
            HostDir::NoProgram => Err(EINVAL),
            HostDir::Unmakeable => Err(EIO),
            HostDir::There { root, existed: _ } => {
                self.fs.mount("/temp0", root);
                Ok(String::from_str("/temp0"))
            },
        }
    }

    /// Mount a save directory.  The result is its mount point, 0 where the directory was
    /// there before and 1 where it was not, and its size in blocks.
    pub fn savedata_mount(&mut self, dir_name: &str, requested_blocks: u64, host: HostDir) -> (r:
        Result<(String, u32, u64), i32>)
        requires
            old(self).wf(),
        ensures
            final(self).wf(),
            *final(self) == (Process {
                fs: final(self).fs,
                savedata_mounts: final(self).savedata_mounts,
                ..*old(self)
            }),
            match host {
                HostDir::NoProgram => r == Err::<(String, u32, u64), i32>(EINVAL) && final(self).fs@ == old(self).fs@ && final(self).savedata_mounts@ == old(self).savedata_mounts@,
                HostDir::Unmakeable => r == Err::<(String, u32, u64), i32>(EIO) && final(self).fs@
                    == old(self).fs@ && final(self).savedata_mounts@ == old(self).savedata_mounts@,
                HostDir::There { root, existed } => {
                    &&& r matches Ok((point, status, blocks))
                    &&& is_point_for(old(self).savedata_mounts@, dir_name@, point@)
                    &&& status == (if existed {
                        0u32
                    } else {
                        1u32
                    })
                    &&& blocks == (if requested_blocks == 0 {
                        DEFAULT_BLOCKS
                    } else {
                        requested_blocks
                    })
                    &&& final(self).fs@ == with_mount(old(self).fs@, point@, root)
                    &&& mounted_at(final(self).savedata_mounts@, point@, dir_name@)
                    &&& final(self).savedata_mounts@ == old(self).savedata_mounts@.insert(
                        point@,
                        final(self).savedata_mounts@[point@],
                    )
                },
            },
    {
        match host {
            HostDir::NoProgram => Err(EINVAL),
            HostDir::Unmakeable => Err(EIO),
            HostDir::There { root, existed } => {
                let point = alloc_savedata_mount_point(&self.savedata_mounts, dir_name);
                self.fs.mount(point.as_str(), root);
                let dir = String::from_str(dir_name);
                proof {
                    lemma_mounting_keeps_once(self.savedata_mounts@, dir, point@);
                }
                self.savedata_mounts.insert(point.clone(), dir);
                let status: u32 = if existed {
                    0
                } else {
                    1
                };
                let blocks: u64 = if requested_blocks == 0 {
                    DEFAULT_BLOCKS
                } else {
                    requested_blocks
                };
                Ok((point, status, blocks))
            },
        }
    }

    /// Unmount a save directory.
    pub fn savedata_umount(&mut self, mount_point: &str) -> (r: Result<(), i32>)
        requires
            old(self).wf(),
        ensures
            final(self).wf(),
            *final(self) == (Process {
                fs: final(self).fs,
                savedata_mounts: final(self).savedata_mounts,
                ..*old(self)
            }),
            final(self).savedata_mounts@ == old(self).savedata_mounts@.remove(mount_point@),
            if old(self).savedata_mounts@.contains_key(mount_point@) {
                &&& r == Ok::<(), i32>(())
                &&& final(self).fs@ == (FsView {
                    mounts: without(old(self).fs@.mounts, mount_point@),
                    ..old(self).fs@
                })
            } else {
                r == Err::<(), i32>(ENODEV) && final(self).fs@ == old(self).fs@
            },
    {
        let key = String::from_str(mount_point);
        match self.savedata_mounts.remove(&key) {
            Some(_) => {
                self.fs.unmount(mount_point);
                Ok(())
            },
            None => Err(ENODEV),
        }
    }

    /// How many save directories there are, given what lies in the directory for saves;
    /// none where it cannot be listed.
    pub fn savedata_dir_count(listing: Option<&Vec<EntryKind>>) -> (n: u32)
        requires
            listing matches Some(v) ==> v@.len() <= u32::MAX,
        ensures
            n == (match listing {
                Some(v) => v@.filter(|k: EntryKind| k == EntryKind::Directory).len() as int,
                None => 0,
            }),
    {
        let v = match listing {
            Some(v) => v,
            None => {
                return 0;
            },
        };
        let ghost f = |k: EntryKind| k == EntryKind::Directory;
        let mut n: u32 = 0;
        let mut i: usize = 0;
        proof {
            reveal(Seq::filter);
            assert(v@.take(0) =~= Seq::empty());
        }
        while i < v.len()
            invariant
                v@.len() <= u32::MAX,
                f == (|k: EntryKind| k == EntryKind::Directory),
                i <= v@.len(),
                n <= i,
                n == v@.take(i as int).filter(f).len(),
            decreases v@.len() - i,
        {
            proof {
                reveal(Seq::filter);
                assert(v@.take(i + 1).drop_last() =~= v@.take(i as int));
            }
            if v[i] == EntryKind::Directory {
                n = n + 1;
            }
            i = i + 1;
        }
        assert(v@.take(i as int) =~= v@);
        n
    }

    /// The mapping that a request with an alignment asks for.
    pub fn mmap_aligned(
        addr: u64,
        len: usize,
        align: usize,
        prot: i32,
        flags: i32,
        fd: i32,
        offset: i64,
    ) -> (plan: MapPlan)
        ensures
            plan == map_plan(addr, len, align, prot, flags, fd, offset),
    {
        let target: u64 = if flags & MAP_FIXED == MAP_FIXED {
            addr
        } else {
            0
        };
        let from: u64 = if offset >= 0 {
            offset as u64
        } else {
            0
        };
        let file: Option<FileFill> = if fd >= 0 && flags & MAP_ANONYMOUS == 0 {
            Some(FileFill { fd, from })
        } else {
            None
        };
        MapPlan {
            target,
            len,
            align,
            read: prot & PROT_READ != 0,
            write: prot & PROT_WRITE != 0,
            execute: prot & PROT_EXEC != 0,
            file,
        }
    }

    /// The mapping that a request asks for, aligned as the memory sees fit.
    pub fn mmap(addr: u64, len: usize, prot: i32, flags: i32, fd: i32, offset: i64) -> (plan: MapPlan)
        ensures
            plan == map_plan(addr, len, 0, prot, flags, fd, offset),
    {
        Self::mmap_aligned(addr, len, 0, prot, flags, fd, offset)
    }

    /// What a request for a mapping returns.  `mapped` is the address that the memory gave;
    /// `filled` is what the file gave, where there is one to fill from: the bytes read, or
    /// `None` where reading failed.
    pub fn mmap_result(mapped: Option<u64>, filled: Option<Option<usize>>) -> (r: (
        Result<u64, i64>,
        AfterMap,
    ))
        ensures
            r == (match mapped {
                None => (Err::<u64, i64>(12), AfterMap::Nothing),
                Some(ptr) => match filled {
                    None => (Ok::<u64, i64>(ptr), AfterMap::Nothing),
                    Some(Some(n)) => (Ok::<u64, i64>(ptr), AfterMap::ZeroFrom(n)),
                    Some(None) => (Err::<u64, i64>(9), AfterMap::Unmap),
                },
            }),
    {
        match mapped {
            None => (Err(12), AfterMap::Nothing),
            Some(ptr) => match filled {
                None => (Ok(ptr), AfterMap::Nothing),
                Some(Some(n)) => (Ok(ptr), AfterMap::ZeroFrom(n)),
                Some(None) => (Err(9), AfterMap::Unmap),
            },
        }
    }

    /// What a request to unmap returns, and whether the graphics side is told of it: only
    /// once the memory is gone.
    pub fn munmap(unmapped: bool) -> (r: (Result<i32, i64>, bool))
        ensures
            r == (if unmapped {
                (Ok::<i32, i64>(0), true)
            } else {
                (Err::<i32, i64>(22), false)
            }),
    {
        if unmapped {
            (Ok(0), true)
        } else {
            (Err(22), false)
        }
    }

    /// What a guest is told of a region.
    pub fn virtual_query(region: Option<Region>) -> (r: Option<VqRegion>)
        ensures
            match (region, r) {
                (Some(v), Some(q)) => {
                    &&& q.start == v.start
                    &&& q.end == v.end
                    &&& q.protection == v.protection
                    &&& q.memory_type == 0
                    &&& q.is_flexible == names_flexible(v.name@)
                    &&& q.name == v.name
                },
                (None, None) => true,
                _ => false,
            },
    {
        match region {
            Some(v) => {
                let is_flexible: bool = is_flexible_name(&v.name);
                Some(
                    VqRegion {
                        start: v.start,
                        end: v.end,
                        protection: v.protection,
                        memory_type: 0,
                        is_flexible,
                        name: v.name,
                    },
                )
            },
            None => None,
        }
    }

    /// Begin to load a module while the guest is running.
    pub fn load_start_module(
        &mut self,
        guest_path: &str,
        by_name: Option<i32>,
        host_path: Option<&str>,
    ) -> (r: Result<LoadStep, i32>)
        requires
            old(self).wf(),
        ensures
            final(self).wf(),
            *final(self) == (Process { modules: final(self).modules, ..*old(self) }),
            r == load_step(
                old(self).modules@,
                guest_path@,
                by_name,
                match host_path {
                    Some(p) => Some(p@),
                    None => None,
                },
            ),
            final(self).modules@ == (match r {
                Ok(LoadStep::Loaded(handle)) => RegistryView {
                    by_path: old(self).modules@.by_path.insert(guest_path@, handle),
                    ..old(self).modules@
                },
                _ => old(self).modules@,
            }),
    {
        self.modules.load_start_module(guest_path, by_name, host_path)
    }

    /// The address of a symbol that a module exports, under its own name or under the
    /// number its name stands for.
    pub fn module_dlsym(exports: &Table<String, u64>, name: &str, nid: Option<&str>) -> (addr:
        Option<u64>)
        requires
            exports.wf(),
        ensures
            addr == symbol_of(
                exports@,
                name@,
                match nid {
                    Some(n) => Some(n@),
                    None => None,
                },
            ),
    {
        module_dlsym(exports, name, nid)
    }

    /// Reserve direct memory.
    pub fn allocate_direct_memory(&mut self, len: usize, align: usize) -> (r: Result<u64, i64>)
        requires
            old(self).wf(),
        ensures
            final(self).wf(),
            *final(self) == (Process { direct_memory: final(self).direct_memory, ..*old(self) }),
            match allocated(old(self).direct_memory@, len as u64, align as u64) {
                Some(off) => r == Ok::<u64, i64>(off) && final(self).direct_memory@
                    == after_allocation(old(self).direct_memory@, off, len as u64),
                None => r == Err::<u64, i64>(12) && final(self).direct_memory@ == old(self).direct_memory@,
            },
    {
        match self.direct_memory.allocate(len as u64, align as u64) {
            Some(off) => Ok(off),
            None => Err(12),
        }
    }

    /// The free direct memory in a range, as offset and size.
    pub fn available_direct_memory(&self, search_start: u64, search_end: u64, align: u64) -> (run:
        Option<(u64, u64)>)
        requires
            self.wf(),
        ensures
            run == available(self.direct_memory@, search_start, search_end, align),
    {
        self.direct_memory.available_direct_memory(search_start, search_end, align)
    }

    /// The address of direct memory, and the mapping that backs it.  That the mapping is
    /// there already does no harm.
    pub fn map_direct_memory(phys_off: u64, len: usize) -> (r: (u64, MapPlan))
        requires
            DIRECT_MEMORY_POOL_BASE + phys_off <= u64::MAX,
        ensures
            r.0 == DIRECT_MEMORY_POOL_BASE + phys_off,
            r.1 == map_plan(
                r.0,
                if len == 0 {
                    1
                } else {
                    len
                },
                0,
                3,
                0x1012,
                NO_FD,
                0,
            ),
    {
        let va: u64 = DirectMemory::phys_to_va(phys_off);
        let size: usize = if len == 0 {
            1
        } else {
            len
        };
        (va, Self::mmap_aligned(va, size, 0, 3, 0x1012, NO_FD, 0))
    }

    /// Release direct memory.  This always succeeds: an offset outside of the pool is
    /// nobody's.
    pub fn release_direct_memory(&mut self, phys_off: u64, len: usize) -> (code: i32)
        requires
            old(self).wf(),
            phys_off < DIRECT_MEMORY_POOL_SIZE ==> phys_off + crate::arith::align_up(
                len as int,
                DIRECT_MEMORY_PAGE as int,
            ) <= u64::MAX,
        ensures
            final(self).wf(),
            *final(self) == (Process { direct_memory: final(self).direct_memory, ..*old(self) }),
            code == 0,
            final(self).direct_memory@ == (if phys_off < DIRECT_MEMORY_POOL_SIZE {
                after_release(old(self).direct_memory@, phys_off, len as u64)
            } else {
                old(self).direct_memory@
            }),
    {
        self.direct_memory.take_for_release(phys_off, len as u64);
        0
    }

    /// The mapping that a thread's arena is made by.
    pub fn tls_arena_plan() -> (plan: MapPlan)
        ensures
            plan == map_plan(0, TLS_ARENA_SIZE, 0, 3, 0x1002, NO_FD, 0),
    {
        Self::mmap_aligned(0, TLS_ARENA_SIZE, 0, 3, 0x1002, NO_FD, 0)
    }

    /// The base of a thread's arena, which is made on first use.
    pub fn tls_arena_base<F: FnOnce() -> Result<u64, u64>>(&mut self, tid: u32, make: F) -> (r:
        Result<u64, u64>)
        requires
            old(self).wf(),
            !old(self).tls_arenas@.contains_key(tid) ==> call_requires(make, ()),
        ensures
            final(self).wf(),
            *final(self) == (Process { tls_arenas: final(self).tls_arenas, ..*old(self) }),
            if old(self).tls_arenas@.contains_key(tid) {
                r == Ok::<u64, u64>(old(self).tls_arenas@[tid]) && final(self).tls_arenas@ == old(self).tls_arenas@
            } else {
                &&& call_ensures(make, (), r)
                &&& final(self).tls_arenas@ == (match r {
                    Ok(base) => old(self).tls_arenas@.insert(tid, base),
                    Err(_) => old(self).tls_arenas@,
                })
            },
    {
        tls_arena_lookup_or_alloc(&mut self.tls_arenas, tid, make)
    }

    /// One past the highest key for thread-local storage.
    pub fn tls_keys_max(&self) -> (n: usize)
        ensures
            n == self.tls_keys@.len(),
    {
        self.tls_keys.max_key()
    }

    /// The destructor of a key for thread-local storage.
    pub fn tls_key_destructor(&self, key: u32) -> (dtor: Option<u64>)
        ensures
            dtor == crate::kernel::tls::dtor_at(self.tls_keys@, key),
    {
        self.tls_keys.get_dtor(key)
    }
}

/// No two directories share a point: a point that is given to a directory is free, or the
/// directory's own.  So once one directory is mounted, another one is mounted elsewhere.
pub proof fn law_save_points_do_not_collide(
    mounts: Map<Seq<char>, String>,
    dir: String,
    point: Seq<char>,
    other: Seq<char>,
    other_point: Seq<char>,
)
    requires
        is_point_for(mounts, dir@, point),
        other != dir@,
        is_point_for(mounts.insert(point, dir), other, other_point),
    ensures
        mounts.contains_key(point) ==> mounts[point]@ == dir@,
        other_point != point,
{
}

/// A directory has one point: mounting it again gives the point it was mounted at, and
/// leaves the mounts as they are.
pub proof fn law_remount_is_idempotent(
    mounts: Map<Seq<char>, String>,
    dir: String,
    point: Seq<char>,
    again: Seq<char>,
)
    requires
        each_once(mounts),
        is_point_for(mounts, dir@, point),
        is_point_for(mounts.insert(point, dir), dir@, again),
    ensures
        each_once(mounts.insert(point, dir)),
        again == point,
        mounts.insert(point, dir).insert(again, dir) == mounts.insert(point, dir),
{
    let after = mounts.insert(point, dir);
    assert(mounted_at(after, point, dir@));
    lemma_mounting_keeps_once(mounts, dir, point);
    assert(after.insert(again, dir) =~= after);
}

/// A fixed mapping is made where it is asked for, and no other is: the address of a
/// request that does not fix it is ignored.
pub proof fn law_address_counts_only_where_fixed(
    addr: u64,
    other: u64,
    len: usize,
    align: usize,
    prot: i32,
    flags: i32,
    fd: i32,
    offset: i64,
)
    requires
        flags & MAP_FIXED != MAP_FIXED,
    ensures
        map_plan(addr, len, align, prot, flags, fd, offset) == map_plan(
            other,
            len,
            align,
            prot,
            flags,
            fd,
            offset,
        ),
{
}

/// A mapping of a file holds the file's bytes from the offset that was asked for: where the
/// request names a descriptor and does not ask for anonymous memory (0x1000), it is filled from
/// that descriptor at that position, and one that is negative counts as 0.  Two requests that
/// differ in their offsets are filled from places that lie as far apart.
pub proof fn law_file_mappings_begin_at_their_offset(
    addr: u64,
    len: usize,
    align: usize,
    prot: i32,
    flags: i32,
    fd: i32,
    offset: i64,
    further: i64,
)
    requires
        fd >= 0,
        flags & 0x1000 == 0,
        0 <= offset <= further,
    ensures
        ({
            let a = map_plan(addr, len, align, prot, flags, fd, offset).file;
            let b = map_plan(addr, len, align, prot, flags, fd, further).file;
            &&& a is Some && b is Some
            &&& a->0.fd == fd && b->0.fd == fd
            &&& a->0.from == offset
            &&& b->0.from - a->0.from == further - offset
        }),
        forall|negative: i64|
            negative < 0 ==> {
                let c = #[trigger] map_plan(addr, len, align, prot, flags, fd, negative).file;
                c is Some && c->0.fd == fd && c->0.from == 0
            },
{
}

/// Memory that no file is behind is not filled: without a descriptor, and where the request asks
/// for anonymous memory (0x1000).
pub proof fn law_anonymous_mappings_have_no_file(
    addr: u64,
    len: usize,
    align: usize,
    prot: i32,
    flags: i32,
    fd: i32,
    offset: i64,
)
    requires
        fd < 0 || flags & 0x1000 != 0,
    ensures
        map_plan(addr, len, align, prot, flags, fd, offset).file is None,
{
}

/// A mapping has the length, the alignment and the rights that were asked for, each right by its
/// own bit: 1 to read, 2 to write, 4 to execute.  A request that fixes its address (0x10) is
/// placed there, any other where the memory likes.
pub proof fn law_mappings_are_as_asked_for(
    addr: u64,
    len: usize,
    align: usize,
    prot: i32,
    flags: i32,
    fd: i32,
    offset: i64,
)
    ensures
        ({
            let plan = map_plan(addr, len, align, prot, flags, fd, offset);
            &&& plan.len == len && plan.align == align
            &&& plan.read <==> prot & 1 != 0
            &&& plan.write <==> prot & 2 != 0
            &&& plan.execute <==> prot & 4 != 0
            &&& flags & 0x10 == 0x10 ==> plan.target == addr
            &&& flags & 0x10 != 0x10 ==> plan.target == 0
        }),
{
}

/// The names of mappings that the guest made while running: "dynamic_alloc", and all that begin
/// with "flexible".
pub proof fn law_flexible_names(name: Seq<char>, rest: Seq<char>)
    ensures
        names_flexible(seq!['f', 'l', 'e', 'x', 'i', 'b', 'l', 'e'] + rest),
        names_flexible("dynamic_alloc"@),
        names_flexible(name) ==> name == "dynamic_alloc"@ || (name.len() >= 8 && name.take(8)
            == seq!['f', 'l', 'e', 'x', 'i', 'b', 'l', 'e']),
{
    reveal_strlit("flexible");
    let word = seq!['f', 'l', 'e', 'x', 'i', 'b', 'l', 'e'];
    assert("flexible"@ =~= word);
    assert((word + rest).take(8) =~= word);
}

/// Saved data is mounted at "/savedata" and a number: where it is mounted already, else at the
/// lowest number that is free.
pub proof fn law_save_points(mounts: Map<Seq<char>, String>, dir: Seq<char>, point: Seq<char>, n: nat)
    ensures
        save_point(n).take(9) == seq!['/', 's', 'a', 'v', 'e', 'd', 'a', 't', 'a'],
        crate::text::value(save_point(n).skip(9)) == n,
        (exists|p: Seq<char>| mounts.contains_key(p) && (#[trigger] mounts[p])@ == dir) && is_point_for(
            mounts,
            dir,
            point,
        ) ==> mounts.contains_key(point) && mounts[point]@ == dir,
        (forall|p: Seq<char>| mounts.contains_key(p) ==> (#[trigger] mounts[p])@ != dir)
            && is_point_for(mounts, dir, point) ==> !mounts.contains_key(point) && (
        !mounts.contains_key(save_point(n)) ==> exists|k: nat|
            k <= n && #[trigger] save_point(k) == point),
{
    reveal_strlit("/savedata");
    crate::text::law_decimal(n);
    assert(save_point(n).skip(9) =~= decimal(n));
    assert(save_point(n).take(9) =~= seq!['/', 's', 'a', 'v', 'e', 'd', 'a', 't', 'a']);
    if exists|p: Seq<char>| mounts.contains_key(p) && (#[trigger] mounts[p])@ == dir {
        let p = choose|p: Seq<char>| mounts.contains_key(p) && (#[trigger] mounts[p])@ == dir;
        assert(mounted_at(mounts, p, dir));
    } else if is_point_for(mounts, dir, point) {
        assert(!exists|p: Seq<char>| mounted_at(mounts, p, dir)) by {
            if exists|p: Seq<char>| mounted_at(mounts, p, dir) {
                let p = choose|p: Seq<char>| mounted_at(mounts, p, dir);
                assert(mounts[p]@ == dir);
            }
        }
        let k = choose|k: nat| #[trigger]
            save_point(k) == point && !mounts.contains_key(point) && forall|m: nat|
                m < k ==> mounts.contains_key(#[trigger] save_point(m));
        if !mounts.contains_key(save_point(n)) {
            assert(k <= n);
            assert(save_point(k) == point);
        }
    }
}

/// A mount is added to those that there are, which stay in their order, and nothing else changes.
pub proof fn law_mounting(fs: FsView, point: Seq<char>, root: usize)
    requires
        fs.wf(),
    ensures
        ({
            let t = with_mount(fs, point, root);
            let k = place_for(fs.mounts, byte_len(point));
            &&& 0 <= k < t.mounts.len() == fs.mounts.len() + 1
            &&& t.mounts[k] == (MountView { prefix: point, root })
            &&& t.mounts.remove(k) == fs.mounts
            &&& t.files == fs.files && t.next_fd == fs.next_fd
        }),
{
    crate::kernel::fs::law_longest_prefix_is_first(
        fs.mounts,
        MountView { prefix: point, root },
    );
    crate::kernel::fs::law_mount_has_a_place(fs.mounts, byte_len(point));
}

/// The sizes and codes that a guest knows.
pub proof fn law_process_numbers()
    ensures
        EIO == 5 && ENODEV == 19 && EINVAL == 22,
        PTHREAD_SIZE == 0x4000 && TLS_ARENA_SIZE == 0x1_0000,
        DEFAULT_BLOCKS == 4096,
        NO_FD == -1,
{
}

} // verus!
