//! The calls that the kernel answers itself: a stub in guest memory for each, and the
//! names under which a guest's imports find it.

use crate::arith::{align_up, lemma_align_up};
use crate::bytes::{le32, push_le32};
use crate::table::Table;
use vstd::prelude::*;
use vstd::string::StringExecFns;

verus! {

broadcast use vstd::string::group_string_axioms;

/// Where the stubs begin.
pub const HLE_BASE: u64 = 0x2000_0000;

/// The length of a stub.
pub const STUB_LEN: usize = 32;

/// The length of the page for exported data.
pub const DATA_LEN: u64 = 0x1000;

/// The length of the arena for objects that the kernel keeps in guest memory.
pub const ARENA_LEN: u64 = 0x10_0000;

/// What a guest reads as its stack guard.
pub const STACK_GUARD: u64 = 0x0011_2233_4455_6600;

/// A name of a call, and the number that the name stands for, if it is known.
#[derive(Debug)]
pub struct CallName {
    pub name: String,
    pub nid: Option<String>,
}

/// A call that the kernel answers: its number, the name and symbol number that belong to
/// that, the library it is in, its other names, and further symbol numbers.
#[derive(Debug)]
pub struct HleDef {
    pub id: u32,
    pub id_name: String,
    pub id_nid: String,
    pub lib_name: String,
    pub names: Vec<CallName>,
    pub nids: Vec<String>,
}

/// The symbol of a library.
pub open spec fn key(lib: Seq<char>, name: Seq<char>) -> (Seq<char>, Seq<char>) {
    (lib, name)
}

pub type Exports = Map<(Seq<char>, Seq<char>), u64>;

/// A symbol that is there keeps its address.
pub open spec fn or_insert(m: Exports, k: (Seq<char>, Seq<char>), addr: u64) -> Exports {
    if m.contains_key(k) {
        m
    } else {
        m.insert(k, addr)
    }
}

/// The names of a call, and what they stand for where nothing stands there yet.
pub open spec fn with_names(m: Exports, lib: Seq<char>, names: Seq<CallName>, addr: u64) -> Exports
    decreases names.len(),
{
    if names.len() == 0 {
        m
    } else {
        let front = with_names(m, lib, names.drop_last(), addr);
        let n = names.last();
        let named = front.insert(key(lib, n.name@), addr);
        match n.nid {
            Some(nid) => if nid@.len() > 0 {
                or_insert(named, key(lib, nid@), addr)
            } else {
                named
            },
            None => named,
        }
    }
}

/// The symbol numbers that a call claims for itself, over whatever stood there.
pub open spec fn with_nids(m: Exports, lib: Seq<char>, nids: Seq<String>, addr: u64) -> Exports
    decreases nids.len(),
{
    if nids.len() == 0 {
        m
    } else {
        let front = with_nids(m, lib, nids.drop_last(), addr);
        if nids.last()@.len() > 0 {
            front.insert(key(lib, nids.last()@), addr)
        } else {
            front
        }
    }
}

/// The exports with one more call.
pub open spec fn with_def(m: Exports, def: HleDef, addr: u64) -> Exports {
    let lib = def.lib_name@;
    let named = with_names(m, lib, def.names@, addr);
    let numbered = if def.id_nid@.len() > 0 {
        named.insert(key(lib, def.id_nid@), addr)
    } else {
        named
    };
    let claimed = with_nids(numbered, lib, def.nids@, addr);
    if def.id_name@.len() > 0 && def.id_name@ != "Unknown"@ {
        or_insert(claimed, key(lib, def.id_name@), addr)
    } else {
        claimed
    }
}

/// The address of a stub.
pub open spec fn stub_addr(i: int) -> int {
    HLE_BASE + STUB_LEN * i
}

/// The exports of all calls.
pub open spec fn exports_of(defs: Seq<HleDef>) -> Exports
    decreases defs.len(),
{
    if defs.len() == 0 {
        Map::empty()
    } else {
        with_def(
            exports_of(defs.drop_last()),
            defs.last(),
            stub_addr(defs.len() - 1) as u64,
        )
    }
}

/// The exports with the stack guard, which is data and not a call.
pub open spec fn with_guard(m: Exports, nid: Option<Seq<char>>, addr: u64) -> Exports {
    match nid {
        None => m,
        Some(nid) => {
            let named = m.insert(key("libkernel"@, "__stack_chk_guard"@), addr);
            if nid.len() > 0 {
                named.insert(key("libkernel"@, nid), addr)
            } else {
                named
            }
        },
    }
}

/// The memory that the stubs take.
pub open spec fn stubs_len(n: nat) -> int {
    align_up(n * STUB_LEN, 0x1000)
}

/// A stub: move the fourth argument to where a system call has it, load the number of the
/// call, trap, return; and no-ops up to its length.
pub open spec fn stub(id: u32) -> Seq<u8> {
    seq![0x49u8, 0x89, 0xCA, 0xB8] + le32(id) + seq![0x0Fu8, 0x05, 0xC3] + Seq::new(
        21,
        |i: int| 0x90u8,
    )
}

/// A region to be mapped.
#[derive(Clone, Copy, Debug, PartialEq, Eq, Structural)]
pub struct HleRegion {
    pub addr: u64,
    pub len: u64,
    pub executable: bool,
}

/// What installing the calls comes to: the regions to map, the stub of each call, the
/// page for data, the arena, the libraries, and the exports.
pub struct HlePlan {
    pub stubs: HleRegion,
    pub data: HleRegion,
    pub arena: HleRegion,
    pub code: Vec<(u64, Vec<u8>)>,
    pub libraries: Vec<String>,
    pub exports: Table<(String, String), u64>,
}

/// The libraries, each once, in the order in which they are first named.
pub open spec fn libraries_of(defs: Seq<HleDef>) -> Seq<Seq<char>>
    decreases defs.len(),
{
    if defs.len() == 0 {
        Seq::empty()
    } else {
        let front = libraries_of(defs.drop_last());
        once(front, defs.last().lib_name@)
    }
}

/// The list with a name, if it was not there.
pub open spec fn once(s: Seq<Seq<char>>, name: Seq<char>) -> Seq<Seq<char>> {
    if s.contains(name) {
        s
    } else {
        s.push(name)
    }
}

pub open spec fn texts(v: Seq<String>) -> Seq<Seq<char>> {
    Seq::new(v.len(), |i: int| v[i]@)
}

pub struct HleBootstrap {}

impl HleBootstrap {
    /// The code of a stub.
    pub fn write_stub(id: u32) -> (code: Vec<u8>)
        ensures
            code@ == stub(id),
            code@.len() == STUB_LEN,
    {
        let mut code: Vec<u8> = Vec::new();
        code.push(0x49);
        code.push(0x89);
        code.push(0xCA);
        code.push(0xB8);
        push_le32(&mut code, id);
        code.push(0x0F);
        code.push(0x05);
        code.push(0xC3);
        let ghost head = code@;
        assert(head =~= seq![0x49u8, 0x89, 0xCA, 0xB8] + le32(id) + seq![0x0Fu8, 0x05, 0xC3]);
        assert(code@ =~= head + Seq::new(0, |i: int| 0x90u8));
        while code.len() < STUB_LEN
            invariant
                head.len() == 11,
                code@.len() <= STUB_LEN,
                code@.len() >= 11,
                code@ == head + Seq::new((code@.len() - 11) as nat, |i: int| 0x90u8),
            decreases STUB_LEN - code@.len(),
        {
            let ghost n = code@.len() - 11;
            code.push(0x90);
            assert(code@ =~= head + Seq::new((n + 1) as nat, |i: int| 0x90u8));
        }
        assert(code@ =~= stub(id));
        code
    }

    /// Plan the installation of the calls.  `guard_nid` is the symbol number of the stack
    /// guard, and `None` where the guard is not known by name.
    pub fn install(defs: &Vec<HleDef>, guard_nid: Option<&str>) -> (plan: HlePlan)
        requires
            defs@.len() * STUB_LEN + 0xFFF <= usize::MAX,
            HLE_BASE + stubs_len(defs@.len()) + DATA_LEN + ARENA_LEN <= u64::MAX,
        ensures
            plan.stubs == (HleRegion {
                addr: HLE_BASE,
                len: stubs_len(defs@.len()) as u64,
                executable: true,
            }),
            plan.data == (HleRegion {
                addr: (HLE_BASE + stubs_len(defs@.len())) as u64,
                len: DATA_LEN,
                executable: false,
            }),
            plan.arena == (HleRegion {
                addr: (HLE_BASE + stubs_len(defs@.len()) + DATA_LEN) as u64,
                len: ARENA_LEN,
                executable: false,
            }),
            plan.code@.len() == defs@.len(),
            forall|i: int|
                0 <= i < defs@.len() ==> (#[trigger] plan.code@[i]).0 == stub_addr(i)
                    && plan.code@[i].1@ == stub(defs@[i].id),
            texts(plan.libraries@) == (if guard_nid is Some {
                once(libraries_of(defs@), "libkernel"@)
            } else {
                libraries_of(defs@)
            }),
            plan.exports.wf(),
            plan.exports@ == with_guard(
                exports_of(defs@),
                match guard_nid {
                    Some(n) => Some(n@),
                    None => None,
                },
                plan.data.addr,
            ),
    {
        let count: usize = defs.len();
        proof {
            lemma_align_up(count * STUB_LEN, 0x1000);
        }
        let bytes: usize = count * STUB_LEN;
        let size: u64 = match crate::arith::checked_align_up(bytes as u64, 0x1000) {
            Some(s) => s,
            None => 0,
        };
        let mut code: Vec<(u64, Vec<u8>)> = Vec::new();
        let mut libraries: Vec<String> = Vec::new();
        let mut exports: Table<(String, String), u64> = Table::new();
        let mut i: usize = 0;
        assert(defs@.take(0) =~= Seq::empty());
        assert(texts(libraries@) =~= Seq::empty());
        while i < count
            invariant
                count == defs@.len(),
                bytes == count * STUB_LEN,
                HLE_BASE + stubs_len(defs@.len()) + DATA_LEN + ARENA_LEN <= u64::MAX,
                bytes <= stubs_len(defs@.len()),
                i <= count,
                code@.len() == i,
                forall|k: int|
                    0 <= k < i ==> (#[trigger] code@[k]).0 == stub_addr(k) && code@[k].1@ == stub(
                        defs@[k].id,
                    ),
                texts(libraries@) == libraries_of(defs@.take(i as int)),
                exports.wf(),
                exports@ == exports_of(defs@.take(i as int)),
            decreases count - i,
        {
            let ghost next = defs@.take(i + 1);
            assert(next.drop_last() =~= defs@.take(i as int));
            assert(next.last() == defs@[i as int]);
            let def = &defs[i];
            let addr: u64 = HLE_BASE + (STUB_LEN * i) as u64;
            code.push((addr, Self::write_stub(def.id)));
            add_library(&mut libraries, &def.lib_name);
            export_def(&mut exports, def, addr);
            i = i + 1;
        }
        assert(defs@.take(i as int) =~= defs@);
        let data: u64 = HLE_BASE + size;
        if let Some(nid) = guard_nid {
            let lib = String::from_str("libkernel");
            add_library(&mut libraries, &lib);
            exports.insert((lib.clone(), String::from_str("__stack_chk_guard")), data);
            if !nid.is_empty() {
                exports.insert((lib, String::from_str(nid)), data);
            }
        }
        HlePlan {
            stubs: HleRegion { addr: HLE_BASE, len: size, executable: true },
            data: HleRegion { addr: data, len: DATA_LEN, executable: false },
            arena: HleRegion { addr: data + DATA_LEN, len: ARENA_LEN, executable: false },
            code,
            libraries,
            exports,
        }
    }
}

/// Add a library to the list, once.
fn add_library(libraries: &mut Vec<String>, lib: &String)
    ensures
        texts(final(libraries)@) == once(texts(old(libraries)@), lib@),
{
    let ghost before = texts(libraries@);
    let mut i: usize = 0;
    while i < libraries.len()
        invariant
            *libraries == *old(libraries),
            before == texts(libraries@),
            i <= libraries@.len(),
            forall|j: int| 0 <= j < i ==> before[j] != lib@,
        decreases libraries@.len() - i,
    {
        if libraries[i] == *lib {
            assert(before[i as int] == lib@);
            return ;
        }
        i = i + 1;
    }
    assert(!before.contains(lib@));
    libraries.push(lib.clone());
    assert(texts(libraries@) =~= before.push(lib@));
}

/// Export a symbol where none of that name is exported.
fn export_new(exports: &mut Table<(String, String), u64>, lib: &String, name: &String, addr: u64)
    requires
        old(exports).wf(),
    ensures
        final(exports).wf(),
        final(exports)@ == or_insert(old(exports)@, key(lib@, name@), addr),
{
    let k = (lib.clone(), name.clone());
    if !exports.contains_key(&k) {
        exports.insert(k, addr);
    }
}

/// Export a symbol over whatever was exported under that name.
fn export_over(exports: &mut Table<(String, String), u64>, lib: &String, name: &String, addr: u64)
    requires
        old(exports).wf(),
    ensures
        final(exports).wf(),
        final(exports)@ == old(exports)@.insert(key(lib@, name@), addr),
{
    exports.insert((lib.clone(), name.clone()), addr);
}

/// Export a call under all of its names.
fn export_def(exports: &mut Table<(String, String), u64>, def: &HleDef, addr: u64)
    requires
        old(exports).wf(),
    ensures
        final(exports).wf(),
        final(exports)@ == with_def(old(exports)@, *def, addr),
{
    let ghost before = exports@;
    let lib = &def.lib_name;
    let mut i: usize = 0;
    assert(def.names@.take(0) =~= Seq::empty());
    while i < def.names.len()
        invariant
            exports.wf(),
            lib@ == def.lib_name@,
            i <= def.names@.len(),
            exports@ == with_names(before, lib@, def.names@.take(i as int), addr),
        decreases def.names@.len() - i,
    {
        assert(def.names@.take(i + 1).drop_last() =~= def.names@.take(i as int));
        let n = &def.names[i];
        export_over(exports, lib, &n.name, addr);
        if let Some(nid) = &n.nid {
            if !nid.as_str().is_empty() {
                export_new(exports, lib, nid, addr);
            }
        }
        i = i + 1;
    }
    assert(def.names@.take(i as int) =~= def.names@);
    if !def.id_nid.as_str().is_empty() {
        export_over(exports, lib, &def.id_nid, addr);
    }
    let ghost numbered = exports@;
    let mut k: usize = 0;
    assert(def.nids@.take(0) =~= Seq::empty());
    while k < def.nids.len()
        invariant
            exports.wf(),
            lib@ == def.lib_name@,
            k <= def.nids@.len(),
            exports@ == with_nids(numbered, lib@, def.nids@.take(k as int), addr),
        decreases def.nids@.len() - k,
    {
        assert(def.nids@.take(k + 1).drop_last() =~= def.nids@.take(k as int));
        let nid = &def.nids[k];
        if !nid.as_str().is_empty() {
            export_over(exports, lib, nid, addr);
        }
        k = k + 1;
    }
    assert(def.nids@.take(k as int) =~= def.nids@);
    if !def.id_name.as_str().is_empty() && def.id_name != "Unknown".to_string() {
        export_new(exports, lib, &def.id_name, addr);
    }
}

/// Stubs do not overlap, and all lie in the region mapped for them.
pub proof fn law_stubs_are_disjoint(n: nat, i: int, j: int)
    requires
        0 <= i < j < n,
    ensures
        stub_addr(i) + STUB_LEN <= stub_addr(j),
        HLE_BASE <= stub_addr(i),
        stub_addr(j) + STUB_LEN <= HLE_BASE + stubs_len(n),
{
    lemma_align_up(n * STUB_LEN, 0x1000);
}

proof fn lemma_with_names_keeps(m: Exports, lib: Seq<char>, names: Seq<CallName>, addr: u64)
    ensures
        m.dom().subset_of(with_names(m, lib, names, addr).dom()),
        forall|i: int|
            0 <= i < names.len() ==> with_names(m, lib, names, addr).contains_key(
                key(lib, (#[trigger] names[i]).name@),
            ) && with_names(m, lib, names, addr)[key(lib, names[i].name@)] == addr,
        forall|k: (Seq<char>, Seq<char>)| #[trigger]
            with_names(m, lib, names, addr).contains_key(k) ==> with_names(
                m,
                lib,
                names,
                addr,
            )[k] == addr || (m.contains_key(k) && with_names(m, lib, names, addr)[k] == m[k]),
    decreases names.len(),
{
    if names.len() > 0 {
        lemma_with_names_keeps(m, lib, names.drop_last(), addr);
        let out = with_names(m, lib, names, addr);
        assert forall|i: int| 0 <= i < names.len() implies out.contains_key(
            key(lib, (#[trigger] names[i]).name@),
        ) && out[key(lib, names[i].name@)] == addr by {
            if i < names.len() - 1 {
                assert(names.drop_last()[i] == names[i]);
            }
        }
    }
}

proof fn lemma_with_nids_keeps(m: Exports, lib: Seq<char>, nids: Seq<String>, addr: u64)
    ensures
        m.dom().subset_of(with_nids(m, lib, nids, addr).dom()),
        forall|i: int|
            0 <= i < nids.len() && (#[trigger] nids[i])@.len() > 0 ==> with_nids(
                m,
                lib,
                nids,
                addr,
            ).contains_key(key(lib, nids[i]@)) && with_nids(m, lib, nids, addr)[key(
                lib,
                nids[i]@,
            )] == addr,
        forall|k: (Seq<char>, Seq<char>)| #[trigger]
            with_nids(m, lib, nids, addr).contains_key(k) ==> with_nids(m, lib, nids, addr)[k]
                == addr || (m.contains_key(k) && with_nids(m, lib, nids, addr)[k] == m[k]),
    decreases nids.len(),
{
    if nids.len() > 0 {
        lemma_with_nids_keeps(m, lib, nids.drop_last(), addr);
        let out = with_nids(m, lib, nids, addr);
        assert forall|i: int| 0 <= i < nids.len() && (#[trigger] nids[i])@.len() > 0 implies
            out.contains_key(key(lib, nids[i]@)) && out[key(lib, nids[i]@)] == addr by {
            if i < nids.len() - 1 {
                assert(nids.drop_last()[i] == nids[i]);
            }
        }
    }
}

/// A call's stub is reached by its number's symbol, by every symbol it claims and by each of
/// its names alike; its own name leads to it or to what it led to before; and what was
/// exported before still is.
pub proof fn law_a_call_is_exported_under_its_names(m: Exports, def: HleDef, addr: u64)
    ensures
        ({
            let out = with_def(m, def, addr);
            let lib = def.lib_name@;
            &&& m.dom().subset_of(out.dom())
            &&& forall|i: int|
                0 <= i < def.names@.len() ==> out.contains_key(
                    key(lib, (#[trigger] def.names@[i]).name@),
                ) && out[key(lib, def.names@[i].name@)] == addr
            &&& forall|i: int|
                0 <= i < def.nids@.len() && (#[trigger] def.nids@[i])@.len() > 0
                    ==> out.contains_key(key(lib, def.nids@[i]@)) && out[key(lib, def.nids@[i]@)]
                    == addr
            &&& def.id_nid@.len() > 0 ==> out.contains_key(key(lib, def.id_nid@)) && out[key(
                lib,
                def.id_nid@,
            )] == addr
            &&& def.id_name@.len() > 0 && def.id_name@ != "Unknown"@ ==> out.contains_key(
                key(lib, def.id_name@),
            )
            &&& forall|k: (Seq<char>, Seq<char>)| #[trigger]
                out.contains_key(k) ==> out[k] == addr || (m.contains_key(k) && out[k] == m[k])
        }),
{
    let lib = def.lib_name@;
    let named = with_names(m, lib, def.names@, addr);
    lemma_with_names_keeps(m, lib, def.names@, addr);
    let numbered = if def.id_nid@.len() > 0 {
        named.insert(key(lib, def.id_nid@), addr)
    } else {
        named
    };
    lemma_with_nids_keeps(numbered, lib, def.nids@, addr);
    let claimed = with_nids(numbered, lib, def.nids@, addr);
    let out = with_def(m, def, addr);
    assert(def.id_nid@.len() > 0 ==> claimed.contains_key(key(lib, def.id_nid@)) && claimed[key(
        lib,
        def.id_nid@,
    )] == addr) by {
        if def.id_nid@.len() > 0 {
            assert(numbered.dom().contains(key(lib, def.id_nid@)));
        }
    }
    assert forall|i: int| 0 <= i < def.names@.len() implies out.contains_key(
        key(lib, (#[trigger] def.names@[i]).name@),
    ) && out[key(lib, def.names@[i].name@)] == addr by {
        let k = key(lib, def.names@[i].name@);
        assert(named.dom().contains(k));
        assert(numbered.dom().contains(k));
        assert(claimed.dom().contains(k));
    }
    assert forall|i: int| 0 <= i < def.nids@.len() && (#[trigger] def.nids@[i])@.len() > 0 implies
        out.contains_key(key(lib, def.nids@[i]@)) && out[key(lib, def.nids@[i]@)] == addr by {
        assert(claimed.contains_key(key(lib, def.nids@[i]@)));
    }
    assert forall|k: (Seq<char>, Seq<char>)| #[trigger] out.contains_key(k) implies out[k] == addr
        || (m.contains_key(k) && out[k] == m[k]) by {
        if claimed.contains_key(k) {
            if claimed[k] != addr {
                assert(numbered.contains_key(k));
                assert(named.contains_key(k));
            }
        }
    }
    assert forall|k: (Seq<char>, Seq<char>)| m.dom().contains(k) implies out.dom().contains(k) by {
        assert(named.dom().contains(k));
        assert(numbered.dom().contains(k));
        assert(claimed.dom().contains(k));
    }
}

/// Every address that is exported is that of a stub.
pub proof fn law_exports_lead_to_stubs(defs: Seq<HleDef>)
    requires
        HLE_BASE + STUB_LEN * defs.len() <= u64::MAX,
    ensures
        forall|k: (Seq<char>, Seq<char>)| #[trigger]
            exports_of(defs).contains_key(k) ==> is_stub(exports_of(defs)[k], defs.len()),
    decreases defs.len(),
{
    if defs.len() > 0 {
        let front = defs.drop_last();
        law_exports_lead_to_stubs(front);
        let addr = stub_addr(defs.len() - 1) as u64;
        law_a_call_is_exported_under_its_names(exports_of(front), defs.last(), addr);
        assert(is_stub(addr, defs.len())) by {
            assert(stub_addr(defs.len() - 1) == addr);
        }
        assert forall|k: (Seq<char>, Seq<char>)| #[trigger]
            exports_of(defs).contains_key(k) implies is_stub(exports_of(defs)[k], defs.len()) by {
            let a = exports_of(defs)[k];
            if a != addr {
                assert(is_stub(exports_of(front)[k], front.len()));
                let i = choose|i: int| 0 <= i < front.len() && #[trigger] stub_addr(i) == a;
                assert(stub_addr(i) == a);
            }
        }
    }
}

/// The address of one of the stubs.
pub open spec fn is_stub(addr: u64, n: nat) -> bool {
    exists|i: int| 0 <= i < n && #[trigger] stub_addr(i) == addr
}

/// A stub moves the fourth argument (49 89 CA), loads the number of its call, lowest byte first
/// (B8), traps (0F 05) and returns (C3); what is left of its 32 bytes does nothing (90).
pub proof fn law_stubs(id: u32, k: int)
    requires
        11 <= k < 32,
    ensures
        stub(id).len() == 32,
        stub(id).take(4) == seq![0x49u8, 0x89, 0xCA, 0xB8],
        stub(id)[4] + 0x100 * stub(id)[5] + 0x1_0000 * stub(id)[6] + 0x100_0000 * stub(id)[7] == id,
        stub(id).subrange(8, 11) == seq![0x0Fu8, 0x05, 0xC3],
        stub(id)[k] == 0x90,
{
    crate::bytes::law_bytes_of_words(id, 0);
    assert(stub(id).take(4) =~= seq![0x49u8, 0x89, 0xCA, 0xB8]);
    assert(stub(id).subrange(8, 11) =~= seq![0x0Fu8, 0x05, 0xC3]);
    assert(stub(id).subrange(4, 8) =~= le32(id));
    assert(stub(id)[4] == le32(id)[0] && stub(id)[5] == le32(id)[1] && stub(id)[6] == le32(id)[2]
        && stub(id)[7] == le32(id)[3]);
}

/// The stubs lie one after the other from 0x2000_0000 on, in as many pages as they need; a page
/// of data and an arena of a mebibyte follow.
pub proof fn law_stub_places(n: nat, i: int)
    ensures
        stub_addr(i) == 0x2000_0000 + 32 * i,
        stubs_len(n) % 4096 == 0,
        32 * n <= stubs_len(n) < 32 * n + 4096,
        HLE_BASE == 0x2000_0000 && STUB_LEN == 32 && DATA_LEN == 4096 && ARENA_LEN == 0x10_0000,
        STACK_GUARD == 0x0011_2233_4455_6600,
{
    lemma_align_up(n * STUB_LEN, 0x1000);
}

/// Every call adds its exports to those of the calls before it, and leads to its own stub.
pub proof fn law_calls_are_exported_in_order(defs: Seq<HleDef>, def: HleDef)
    requires
        0x2000_0000 + 32 * defs.len() <= u64::MAX,
    ensures
        exports_of(Seq::<HleDef>::empty()) == Map::<(Seq<char>, Seq<char>), u64>::empty(),
        exports_of(defs.push(def)) == with_def(
            exports_of(defs),
            def,
            (0x2000_0000 + 32 * defs.len()) as u64,
        ),
{
    assert(defs.push(def).drop_last() =~= defs);
}

/// A name of a call stands for it, whatever it stood for; the number of the name only where
/// nothing stood there.
pub proof fn law_names_and_their_numbers(
    m: Exports,
    lib: Seq<char>,
    names: Seq<CallName>,
    n: CallName,
    addr: u64,
)
    ensures
        ({
            let before = with_names(m, lib, names, addr).insert((lib, n.name@), addr);
            let out = with_names(m, lib, names.push(n), addr);
            &&& with_names(m, lib, Seq::<CallName>::empty(), addr) == m
            &&& n.nid is None || n.nid->0@.len() == 0 ==> out == before
            &&& (n.nid is Some && n.nid->0@.len() > 0 && before.contains_key((lib, n.nid->0@)))
                ==> out == before
            &&& (n.nid is Some && n.nid->0@.len() > 0 && !before.contains_key((lib, n.nid->0@)))
                ==> out == before.insert((lib, n.nid->0@), addr)
        }),
{
    assert(names.push(n).drop_last() =~= names);
}

/// A number that a call claims is its own, whatever it stood for; an empty one is none.
pub proof fn law_claimed_numbers(
    m: Exports,
    lib: Seq<char>,
    nids: Seq<String>,
    nid: String,
    addr: u64,
)
    ensures
        with_nids(m, lib, Seq::<String>::empty(), addr) == m,
        nid@.len() > 0 ==> with_nids(m, lib, nids.push(nid), addr) == with_nids(
            m,
            lib,
            nids,
            addr,
        ).insert((lib, nid@), addr),
        nid@.len() == 0 ==> with_nids(m, lib, nids.push(nid), addr) == with_nids(
            m,
            lib,
            nids,
            addr,
        ),
{
    assert(nids.push(nid).drop_last() =~= nids);
}

/// The own name of a call, where it is known, stands for it only where nothing else does; its own
/// number does whatever it stood for.
pub proof fn law_own_name_gives_way(m: Exports, def: HleDef, addr: u64)
    requires
        def.names@.len() == 0,
        def.nids@.len() == 0,
        def.id_name@ != def.id_nid@,
    ensures
        ({
            let out = with_def(m, def, addr);
            let own = (def.lib_name@, def.id_name@);
            let number = (def.lib_name@, def.id_nid@);
            let named = def.id_name@.len() > 0 && def.id_name@ != "Unknown"@;
            &&& def.id_nid@.len() > 0 ==> out.contains_key(number) && out[number] == addr
            &&& def.id_nid@.len() == 0 && out.contains_key(number) ==> m.contains_key(number)
            &&& m.contains_key(own) ==> out.contains_key(own) && out[own] == m[own]
            &&& !m.contains_key(own) ==> (out.contains_key(own) <==> named) && (named ==> out[own]
                == addr)
        }),
{
}

/// The stack guard is exported by "libkernel" under its name and its number, over whatever stood
/// there; where it is not known nothing changes.
pub proof fn law_guard(m: Exports, nid: Seq<char>, addr: u64)
    ensures
        with_guard(m, None, addr) == m,
        nid.len() == 0 ==> with_guard(m, Some(nid), addr) == m.insert(
            ("libkernel"@, "__stack_chk_guard"@),
            addr,
        ),
        nid.len() > 0 ==> with_guard(m, Some(nid), addr) == m.insert(
            ("libkernel"@, "__stack_chk_guard"@),
            addr,
        ).insert(("libkernel"@, nid), addr),
{
}

/// A library is listed once, at the first call that is in it.
pub proof fn law_libraries(defs: Seq<HleDef>, def: HleDef, s: Seq<Seq<char>>, name: Seq<char>)
    ensures
        libraries_of(Seq::<HleDef>::empty()).len() == 0,
        libraries_of(defs).contains(def.lib_name@) ==> libraries_of(defs.push(def)) == libraries_of(
            defs,
        ),
        !libraries_of(defs).contains(def.lib_name@) ==> libraries_of(defs.push(def))
            == libraries_of(defs).push(def.lib_name@),
        s.contains(name) ==> once(s, name) == s,
        !s.contains(name) ==> once(s, name) == s.push(name),
{
    assert(defs.push(def).drop_last() =~= defs);
}

} // verus!
