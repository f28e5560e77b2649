//! Modules: which files a program needs, in which order they are loaded, and what a
//! module loaded at run time comes to.
//!
//! A program's modules form a graph with cycles.  The whole graph is collected first,
//! what is needed before what needs it wherever there is such an order; then every module
//! is mapped; then every module is relocated, so that a cycle resolves as a tree does.

use crate::kernel::path::{is_here, is_parent, split};
use crate::table::Table;
use crate::text::to_chars;
use vstd::prelude::*;
use vstd::string::StrSliceExecFns;
use vstd::string::StringExecFns;

verus! {

broadcast use vstd::string::group_string_axioms;

pub const ENOENT: i32 = 2;
pub const EINVAL: i32 = 22;

/// What is known of the file behind a module's name.
#[derive(Debug)]
pub enum ModuleFile {
    /// There is none: the module is provided otherwise, or not at all.
    Missing,
    /// It cannot be read as a module.
    Broken { path: String },
    /// It needs these modules.
    Parsed { path: String, needs: Vec<String> },
}

pub enum ModuleFileView {
    Missing,
    Broken { path: Seq<char> },
    Parsed { path: Seq<char>, needs: Seq<Seq<char>> },
}

pub open spec fn strings(v: Seq<String>) -> Seq<Seq<char>> {
    Seq::new(v.len(), |i: int| v[i]@)
}

impl View for ModuleFile {
    type V = ModuleFileView;

    open spec fn view(&self) -> ModuleFileView {
        match *self {
            ModuleFile::Missing => ModuleFileView::Missing,
            ModuleFile::Broken { path } => ModuleFileView::Broken { path: path@ },
            ModuleFile::Parsed { path, needs } => ModuleFileView::Parsed {
                path: path@,
                needs: strings(needs@),
            },
        }
    }
}

/// What is known of the modules of a program, and the files that are mapped already.
pub struct World {
    pub files: Map<Seq<char>, ModuleFileView>,
    pub mapped: Set<Seq<char>>,
}

/// A walk in progress: the names and paths that are dealt with, and the modules to load,
/// each as its name and path.
#[verifier::ext_equal]
pub struct Walk {
    pub seen: Set<Seq<char>>,
    pub modules: Seq<(Seq<char>, Seq<char>)>,
}

/// How many modules may still be entered.
pub open spec fn unentered(w: World, open_now: Set<Seq<char>>) -> nat {
    w.files.dom().difference(open_now).len()
}

/// How a part of a walk ends.
pub enum Collected {
    /// All that is needed has been collected.
    Done(Walk),
    /// The module of this name is needed, and nobody has looked for its file yet.  The walk
    /// has come so far.
    Ask { name: Seq<char>, walk: Walk },
}

/// What the name of a module adds to a walk.  `open_now` holds the names and paths of the
/// modules that are being entered.  One file can answer to several names, so that a path
/// counts as well as a name.
pub open spec fn collect(
    w: World,
    lib: Seq<char>,
    open_now: Set<Seq<char>>,
    walk: Walk,
) -> Collected
    decreases unentered(w, open_now), 0nat,
    when w.files.dom().finite()
{
    if walk.seen.contains(lib) || open_now.contains(lib) {
        Collected::Done(walk)
    } else if !w.files.contains_key(lib) {
        Collected::Ask { name: lib, walk }
    } else {
        let noted = Collected::Done(Walk { seen: walk.seen.insert(lib), ..walk });
        match w.files[lib] {
            ModuleFileView::Missing => noted,
            ModuleFileView::Broken { path } => if is_handled(w, path, open_now, walk) {
                noted
            } else {
                Collected::Done(Walk { seen: walk.seen.insert(path).insert(lib), ..walk })
            },
            ModuleFileView::Parsed { path, needs } => if is_handled(w, path, open_now, walk) {
                noted
            } else {
                proof {
                    lemma_unentered(w, open_now, lib, path);
                }
                match collect_all(w, needs, open_now.insert(lib).insert(path), walk) {
                    Collected::Done(inner) => Collected::Done(
                        Walk {
                            seen: inner.seen.insert(path).insert(lib),
                            modules: inner.modules.push((lib, path)),
                        },
                    ),
                    Collected::Ask { name, walk } => Collected::Ask { name, walk },
                }
            },
        }
    }
}

/// What several names add to a walk, one after the other.
pub open spec fn collect_all(
    w: World,
    libs: Seq<Seq<char>>,
    open_now: Set<Seq<char>>,
    walk: Walk,
) -> Collected
    decreases unentered(w, open_now), libs.len() + 1,
    when w.files.dom().finite()
{
    if libs.len() == 0 {
        Collected::Done(walk)
    } else {
        match collect_all(w, libs.drop_last(), open_now, walk) {
            Collected::Done(middle) => collect(w, libs.last(), open_now, middle),
            Collected::Ask { name, walk } => Collected::Ask { name, walk },
        }
    }
}

/// The call ended as the part of the walk did.
pub open spec fn ended(r: Result<(), String>, walk: Walk, c: Collected) -> bool {
    match c {
        Collected::Done(out) => r is Ok && walk == out,
        Collected::Ask { name, walk: so_far } => (r matches Err(n) && n@ == name) && walk
            == so_far,
    }
}

/// A list of which a beginning asks for a module asks for the same one.
proof fn lemma_asked(
    w: World,
    libs: Seq<Seq<char>>,
    n: int,
    open_now: Set<Seq<char>>,
    walk: Walk,
)
    requires
        w.files.dom().finite(),
        0 <= n <= libs.len(),
        collect_all(w, libs.take(n), open_now, walk) is Ask,
    ensures
        collect_all(w, libs, open_now, walk) == collect_all(w, libs.take(n), open_now, walk),
    decreases libs.len() - n,
{
    if n < libs.len() {
        assert(libs.take(n + 1).drop_last() =~= libs.take(n));
        lemma_asked(w, libs, n + 1, open_now, walk);
    } else {
        assert(libs.take(n) =~= libs);
    }
}

/// The file is mapped, collected or being entered.
pub open spec fn is_handled(
    w: World,
    path: Seq<char>,
    open_now: Set<Seq<char>>,
    walk: Walk,
) -> bool {
    open_now.contains(path) || walk.seen.contains(path) || w.mapped.contains(path)
}

/// A file that is known needs the module.
pub open spec fn is_needed(w: World, name: Seq<char>) -> bool {
    exists|lib: Seq<char>|
        w.files.contains_key(lib) && (#[trigger] w.files[lib] matches ModuleFileView::Parsed {
            needs,
            ..
        } && needs.contains(name))
}

/// Entering a module leaves fewer to be entered.
pub proof fn lemma_unentered(w: World, open_now: Set<Seq<char>>, lib: Seq<char>, path: Seq<char>)
    requires
        w.files.dom().finite(),
        w.files.contains_key(lib),
        !open_now.contains(lib),
    ensures
        unentered(w, open_now.insert(lib).insert(path)) < unentered(w, open_now),
{
    let a = w.files.dom().difference(open_now);
    let b = w.files.dom().difference(open_now.insert(lib).insert(path));
    assert(a.contains(lib) && !b.contains(lib));
    assert(b.subset_of(a.remove(lib)));
    vstd::set_lib::lemma_len_subset(b, a.remove(lib));
}

/// The names in a list.
pub open spec fn name_set(v: Seq<String>) -> Set<Seq<char>> {
    strings(v).to_set()
}

/// Whether a list holds a name.
fn has(v: &Vec<String>, name: &String) -> (b: bool)
    ensures
        b == name_set(v@).contains(name@),
{
    let mut i: usize = 0;
    while i < v.len()
        invariant
            i <= v@.len(),
            forall|j: int| 0 <= j < i ==> (#[trigger] v@[j])@ != name@,
        decreases v@.len() - i,
    {
        if v[i] == *name {
            assert(strings(v@)[i as int] == name@);
            return true;
        }
        i = i + 1;
    }
    assert(!strings(v@).contains(name@)) by {
        if strings(v@).contains(name@) {
            let k = choose|k: int| 0 <= k < strings(v@).len() && strings(v@)[k] == name@;
            assert(v@[k]@ == name@);
        }
    }
    false
}

/// Add a name to a list.
fn note(v: &mut Vec<String>, name: &String)
    ensures
        name_set(final(v)@) == name_set(old(v)@).insert(name@),
        final(v)@.len() == old(v)@.len() + 1,
        final(v)@.drop_last() == old(v)@,
{
    let ghost before = v@;
    v.push(name.clone());
    proof {
        let a = strings(before);
        let b = strings(v@);
        assert(b =~= a.push(name@));
        assert forall|x: Seq<char>| b.contains(x) == (a.contains(x) || x == name@) by {
            if a.contains(x) {
                let k = choose|k: int| 0 <= k < a.len() && a[k] == x;
                assert(b[k] == x);
            }
            if x == name@ {
                assert(b[a.len() as int] == x);
            }
        }
        assert(name_set(v@) =~= name_set(before).insert(name@));
        assert(v@.drop_last() =~= before);
    }
}

/// One module to load.
#[derive(Debug)]
pub struct Module {
    pub name: String,
    pub path: String,
}

pub open spec fn module_views(v: Seq<Module>) -> Seq<(Seq<char>, Seq<char>)> {
    Seq::new(v.len(), |i: int| (v[i].name@, v[i].path@))
}

/// A walk of the module graph.
#[derive(Debug)]
pub struct GraphWalk {
    pub seen: Vec<String>,
    pub modules: Vec<Module>,
}

impl View for GraphWalk {
    type V = Walk;

    open spec fn view(&self) -> Walk {
        Walk { seen: name_set(self.seen@), modules: module_views(self.modules@) }
    }
}

/// What the files say, as the walk reads it.
pub open spec fn world_of(files: Table<String, ModuleFile>, mapped: Table<String, i32>) -> World {
    World {
        files: files@.map_values(|f: ModuleFile| f@),
        mapped: mapped@.dom(),
    }
}

/// The names in a table are finitely many.
proof fn lemma_table_finite<V>(t: Table<String, V>)
    ensures
        t@.dom().finite(),
{
    let names = Seq::new(t.entries@.len(), |i: int| t.entries@[i].0@);
    vstd::seq_lib::seq_to_set_is_finite(names);
    assert(t@.dom().subset_of(names.to_set())) by {
        assert forall|id: Seq<char>| t@.dom().contains(id) implies names.to_set().contains(id) by {
            let p = crate::table::position(t.entries@, id)->0;
            assert(names[p] == id);
        }
    }
    vstd::set_lib::lemma_set_subset_finite(names.to_set(), t@.dom());
}

impl GraphWalk {
    /// Begin a walk.  A module's own name counts as dealt with: some modules list
    /// themselves among what they need.
    pub fn new(own_name: Option<&str>) -> (walk: Self)
        ensures
            walk@ == (Walk {
                seen: match own_name {
                    Some(n) => Set::empty().insert(n@),
                    None => Set::empty(),
                },
                modules: Seq::empty(),
            }),
    {
        let mut walk = GraphWalk { seen: Vec::new(), modules: Vec::new() };
        assert(walk@.seen =~= Set::empty());
        assert(walk@.modules =~= Seq::empty());
        if let Some(n) = own_name {
            let name = String::from_str(n);
            note(&mut walk.seen, &name);
        }
        walk
    }

    /// Collect what a module and all it needs add to the load, leaves first.  `Err` names
    /// a module that is needed and whose file has not been looked for yet: look, and begin
    /// anew.
    pub fn collect_module_graph(
        &mut self,
        files: &Table<String, ModuleFile>,
        mapped: &Table<String, i32>,
        lib: &String,
        open_now: &mut Vec<String>,
    ) -> (r: Result<(), String>)
        requires
            files.wf(),
            mapped.wf(),
        ensures
            final(open_now)@ == old(open_now)@,
            ended(
                r,
                final(self)@,
                collect(world_of(*files, *mapped), lib@, name_set(old(open_now)@), old(self)@),
            ),
        decreases unentered(world_of(*files, *mapped), name_set(old(open_now)@)), 0nat,
    {
        let ghost w = world_of(*files, *mapped);
        let ghost o = name_set(open_now@);
        proof {
            lemma_table_finite(*files);
            assert(w.files.dom() =~= files@.dom());
        }
        if has(&self.seen, lib) || has(open_now, lib) {
            return Ok(());
        }
        let file = match files.get(lib) {
            Some(f) => f,
            None => {
                return Err(lib.clone());
            },
        };
        assert(w.files[lib@] == file@);
        match file {
            ModuleFile::Missing => {
                note(&mut self.seen, lib);
                Ok(())
            },
            ModuleFile::Broken { path } => {
                if has(open_now, path) || has(&self.seen, path) || mapped.contains_key(path) {
                    note(&mut self.seen, lib);
                    return Ok(());
                }
                note(&mut self.seen, path);
                note(&mut self.seen, lib);
                Ok(())
            },
            ModuleFile::Parsed { path, needs } => {
                if has(open_now, path) || has(&self.seen, path) || mapped.contains_key(path) {
                    note(&mut self.seen, lib);
                    return Ok(());
                }
                let ghost before = open_now@;
                note(open_now, lib);
                let ghost middle = open_now@;
                note(open_now, path);
                proof {
                    lemma_unentered(w, o, lib@, path@);
                }
                let r = self.collect_needs(files, mapped, needs, open_now);
                open_now.pop();
                open_now.pop();
                proof {
                    assert(open_now@ =~= before) by {
                        assert(middle.drop_last() =~= before);
                    }
                }
                match r {
                    Ok(_) => {
                        let ghost inner = self@;
                        self.modules.push(Module { name: lib.clone(), path: path.clone() });
                        assert(self@.modules =~= inner.modules.push((lib@, path@)));
                        note(&mut self.seen, path);
                        note(&mut self.seen, lib);
                        Ok(())
                    },
                    Err(name) => Err(name),
                }
            },
        }
    }

    /// Collect what a list of modules adds to the load.
    pub fn collect_needs(
        &mut self,
        files: &Table<String, ModuleFile>,
        mapped: &Table<String, i32>,
        needs: &Vec<String>,
        open_now: &mut Vec<String>,
    ) -> (r: Result<(), String>)
        requires
            files.wf(),
            mapped.wf(),
        ensures
            final(open_now)@ == old(open_now)@,
            ended(
                r,
                final(self)@,
                collect_all(
                    world_of(*files, *mapped),
                    strings(needs@),
                    name_set(old(open_now)@),
                    old(self)@,
                ),
            ),
        decreases
                unentered(world_of(*files, *mapped), name_set(old(open_now)@)),
                needs@.len() + 1,
    {
        let ghost w = world_of(*files, *mapped);
        let ghost all = strings(needs@);
        proof {
            lemma_table_finite(*files);
            assert(w.files.dom() =~= files@.dom());
            assert(all.take(0) =~= Seq::empty());
        }
        let mut i: usize = 0;
        while i < needs.len()
            invariant
                files.wf(),
                mapped.wf(),
                w == world_of(*files, *mapped),
                w.files.dom().finite(),
                all == strings(needs@),
                i <= needs@.len(),
                open_now@ == old(open_now)@,
                collect_all(w, all.take(i as int), name_set(open_now@), old(self)@)
                    == Collected::Done(self@),
            decreases needs@.len() - i,
        {
            assert(all.take(i + 1).drop_last() =~= all.take(i as int));
            assert(all.take(i + 1).last() == needs@[i as int]@);
            match self.collect_module_graph(files, mapped, &needs[i], open_now) {
                Ok(_) => {},
                Err(name) => {
                    proof {
                        lemma_asked(w, all, i + 1, name_set(old(open_now)@), old(self)@);
                    }
                    return Err(name);
                },
            }
            i = i + 1;
        }
        assert(all.take(i as int) =~= all);
        Ok(())
    }
}

/// The modules that were mapped, as their place in the set and their handle: they are
/// relocated in this order, once all are mapped.
pub open spec fn relocations(handles: Seq<Option<i32>>) -> Seq<(int, i32)>
    decreases handles.len(),
{
    if handles.len() == 0 {
        Seq::empty()
    } else {
        let front = relocations(handles.drop_last());
        match handles.last() {
            Some(h) => front.push((handles.len() - 1, h)),
            None => front,
        }
    }
}

/// The modules to relocate, once the whole set has been mapped: `handles` has the handle
/// of each, or `None` where mapping it failed.
pub fn relocation_order(handles: &Vec<Option<i32>>) -> (order: Vec<(usize, i32)>)
    ensures
        order@.map_values(|p: (usize, i32)| (p.0 as int, p.1)) == relocations(handles@),
{
    let mut order: Vec<(usize, i32)> = Vec::new();
    let ghost f = |p: (usize, i32)| (p.0 as int, p.1);
    let mut i: usize = 0;
    assert(handles@.take(0) =~= Seq::empty());
    assert(order@.map_values(f) =~= Seq::empty());
    while i < handles.len()
        invariant
            i <= handles@.len(),
            f == (|p: (usize, i32)| (p.0 as int, p.1)),
            order@.map_values(f) == relocations(handles@.take(i as int)),
        decreases handles@.len() - i,
    {
        assert(handles@.take(i + 1).drop_last() =~= handles@.take(i as int));
        let ghost before = order@.map_values(f);
        if let Some(h) = handles[i] {
            order.push((i, h));
            assert(order@.map_values(f) =~= before.push((i as int, h)));
        }
        i = i + 1;
    }
    assert(handles@.take(i as int) =~= handles@);
    order
}

/// The components of a path that name something.
pub open spec fn named(parts: Seq<Seq<char>>) -> Seq<Seq<char>>
    decreases parts.len(),
{
    if parts.len() == 0 {
        Seq::empty()
    } else if is_here(parts.last()) {
        named(parts.drop_last())
    } else {
        named(parts.drop_last()).push(parts.last())
    }
}

/// The file that a path names, if it names one.
pub open spec fn file_name(path: Seq<char>) -> Option<Seq<char>> {
    let parts = named(split(path));
    if parts.len() == 0 || is_parent(parts.last()) {
        None
    } else {
        Some(parts.last())
    }
}

/// Where the last dot of a name stands.
pub open spec fn last_dot(name: Seq<char>) -> Option<int>
    decreases name.len(),
{
    if name.len() == 0 {
        None
    } else if name.last() == '.' {
        Some(name.len() - 1)
    } else {
        last_dot(name.drop_last())
    }
}

/// A name without its extension.  A dot that the name begins with begins none.
pub open spec fn stem(name: Seq<char>) -> Seq<char> {
    match last_dot(name) {
        Some(i) => if i == 0 {
            name
        } else {
            name.take(i)
        },
        None => name,
    }
}

/// The name that a module loaded from a path goes by.
pub open spec fn module_name(path: Seq<char>) -> Seq<char> {
    match file_name(path) {
        Some(name) => stem(name),
        None => "module"@,
    }
}

proof fn lemma_last_dot(name: Seq<char>)
    ensures
        last_dot(name) matches Some(i) ==> 0 <= i < name.len(),
    decreases name.len(),
{
    if name.len() > 0 && name.last() != '.' {
        lemma_last_dot(name.drop_last());
    }
}

/// The name that a module loaded from a path goes by.
pub fn lib_name(path: &str) -> (name: String)
    ensures
        name@ == module_name(path@),
{
    let chars = to_chars(path);
    let n: usize = chars.len();
    // The last component that names something ends at `end`.
    let mut end: usize = n;
    let mut start: usize = n;
    assert(chars@.take(n as int) =~= chars@);
    loop
        invariant_except_break
            chars@ == path@,
            n == chars@.len(),
            start <= end <= n,
            forall|k: int| start <= k < end ==> chars@[k] != '/',
            end == n || chars@[end as int] == '/',
            named(split(chars@)) == named(split(chars@.take(end as int))),
        ensures
            chars@ == path@,
            start <= end <= chars@.len(),
            !is_here(chars@.subrange(start as int, end as int)),
            named(split(chars@)).len() > 0,
            named(split(chars@)).last() == chars@.subrange(start as int, end as int),
        decreases start, end,
    {
        if start > 0 && chars[start - 1] != '/' {
            start = start - 1;
            continue ;
        }
        let ghost c = chars@.subrange(start as int, end as int);
        proof {
            crate::kernel::path::lemma_split_extend(chars@, start as int, end as int);
        }
        if start == end || (end - start == 1 && chars[start] == '.') {
            proof {
                if start == end {
                    assert(c =~= Seq::empty());
                } else {
                    assert(c =~= seq!['.']);
                }
                assert(is_here(c));
            }
            if start == 0 {
                proof {
                    let parts = split(chars@.take(end as int));
                    assert(parts.drop_last() =~= Seq::<Seq<char>>::empty());
                    assert(named(parts) == named(Seq::<Seq<char>>::empty()));
                    assert(named(Seq::<Seq<char>>::empty()).len() == 0);
                }
                return String::from_str("module");
            }
            end = start - 1;
            start = end;
            continue ;
        }
        proof {
            let one = seq!['.'];
            assert(one.len() == 1 && one[0] == '.');
            if c == one {
                assert(c[0] == chars@[start as int]);
            }
        }
        break ;
    }
    let ghost name = chars@.subrange(start as int, end as int);
    if end - start == 2 && chars[start] == '.' && chars[start + 1] == '.' {
        assert(name =~= seq!['.', '.']);
        return String::from_str("module");
    }
    proof {
        let two = seq!['.', '.'];
        assert(two.len() == 2 && two[0] == '.' && two[1] == '.');
        if name == two {
            assert(name[0] == chars@[start as int] && name[1] == chars@[start + 1]);
        }
    }
    let mut dot: usize = end;
    assert(name.take(name.len() as int) =~= name);
    while dot > start && chars[dot - 1] != '.'
        invariant
            chars@ == path@,
            name == chars@.subrange(start as int, end as int),
            start <= dot <= end <= chars@.len(),
            last_dot(name.take(dot - start)) == last_dot(name),
        decreases dot,
    {
        assert(name.take(dot - start).drop_last() =~= name.take(dot - 1 - start));
        assert(name.take(dot - start).last() == chars@[dot - 1]);
        dot = dot - 1;
    }
    assert(dot > start ==> name.take(dot - start).last() == chars@[dot - 1]);
    if dot > start + 1 {
        let s = path.substring_char(start, dot - 1);
        assert(s@ =~= name.take(dot - 1 - start));
        String::from_str(s)
    } else {
        let s = path.substring_char(start, end);
        assert(s@ =~= name);
        String::from_str(s)
    }
}

/// The names under which a module's file may be found, in order: in the program's
/// directory and in its directory for modules, under the module's own name and then under
/// another one that its symbols are known to come from.
pub open spec fn file_candidates(lib: Seq<char>) -> Seq<Seq<char>> {
    if lib == "libSceLibcInternal"@ {
        places(lib) + places("libc"@)
    } else {
        places(lib)
    }
}

/// Where the file of one name may lie.
pub open spec fn places(name: Seq<char>) -> Seq<Seq<char>> {
    seq![name + ".prx"@, "sce_module/"@ + name + ".prx"@]
}

fn push_places(out: &mut Vec<String>, name: &str)
    ensures
        strings(final(out)@) == strings(old(out)@) + places(name@),
{
    let mut plain = String::from_str(name);
    plain.append(".prx");
    let mut nested = String::from_str("sce_module/");
    nested.append(name);
    nested.append(".prx");
    out.push(plain);
    out.push(nested);
    assert(strings(out@) =~= strings(old(out)@) + places(name@));
}

/// The names under which a module's file may be found, in order.
pub fn find_module_file(lib: &str) -> (out: Vec<String>)
    ensures
        strings(out@) == file_candidates(lib@),
{
    let mut out: Vec<String> = Vec::new();
    assert(strings(out@) =~= Seq::empty());
    push_places(&mut out, lib);
    assert(strings(out@) =~= places(lib@));
    if lib.to_string() == "libSceLibcInternal".to_string() {
        push_places(&mut out, "libc");
    }
    out
}

/// The directory of a program's modules, given the directory that one of them lies in: a
/// directory for modules belongs to the program of the directory above it.
pub open spec fn game_dir_of(dir: Seq<Seq<char>>) -> Seq<Seq<char>> {
    if dir.len() > 0 && dir.last() == "sce_module"@ {
        dir.drop_last()
    } else {
        dir
    }
}

/// The directory of the program that a module belongs to, as the components of a path.
pub fn game_dir(dir: Vec<String>) -> (out: Vec<String>)
    ensures
        strings(out@) == game_dir_of(strings(dir@)),
{
    let mut dir = dir;
    let ghost before = strings(dir@);
    let n: usize = dir.len();
    if n > 0 && dir[n - 1] == "sce_module".to_string() {
        dir.pop();
        assert(strings(dir@) =~= before.drop_last());
    }
    dir
}

/// What a request to load a module comes to.
#[derive(Clone, Copy, Debug, PartialEq, Eq, Structural)]
pub enum LoadStep {
    /// It is loaded already, under this handle: nothing is to be run.
    Loaded(i32),
    /// It is to be loaded.
    Load,
}

/// What the host says of the file of a module that is to be loaded.
#[derive(Clone, Copy, Debug, PartialEq, Eq, Structural)]
pub enum OpenedModule {
    /// It cannot be read.
    Unreadable,
    /// It holds no module.
    Malformed,
    Module,
}

#[verifier::ext_equal]
pub struct RegistryView {
    pub by_path: Map<Seq<char>, i32>,
    pub mapped: Map<Seq<char>, i32>,
    pub inits: Seq<u64>,
}

/// The modules that have been loaded: by the guest path that asked for them, and by the
/// host path of their file; and the entry points that are to be run at the start.
pub struct ModuleRegistry {
    pub by_path: Table<String, i32>,
    pub mapped: Table<String, i32>,
    pub inits: Vec<u64>,
}

impl View for ModuleRegistry {
    type V = RegistryView;

    open spec fn view(&self) -> RegistryView {
        RegistryView { by_path: self.by_path@, mapped: self.mapped@, inits: self.inits@ }
    }
}

/// What a request comes to, and why: the path was asked for before; a module of that name
/// is there; the file is mapped under another name; there is no such file; or the file is
/// to be loaded.
pub open spec fn load_step(
    s: RegistryView,
    guest_path: Seq<char>,
    by_name: Option<i32>,
    host_path: Option<Seq<char>>,
) -> Result<LoadStep, i32> {
    if s.by_path.contains_key(guest_path) {
        Ok(LoadStep::Loaded(s.by_path[guest_path]))
    } else {
        match by_name {
            Some(handle) => Ok(LoadStep::Loaded(handle)),
            None => match host_path {
                None => Err(ENOENT),
                Some(host) => if s.mapped.contains_key(host) {
                    Ok(LoadStep::Loaded(s.mapped[host]))
                } else {
                    Ok(LoadStep::Load)
                },
            },
        }
    }
}

/// The entry points to run after a load: those of what it needed, then its own if it has
/// one.
pub open spec fn starts(needed: Seq<u64>, own: u64) -> Seq<u64> {
    if own != 0 {
        needed.push(own)
    } else {
        needed
    }
}

impl ModuleRegistry {
    pub open spec fn wf(&self) -> bool {
        self.by_path.wf() && self.mapped.wf()
    }

    pub fn new() -> (r: Self)
        ensures
            r.wf(),
            r@ == (RegistryView {
                by_path: Map::empty(),
                mapped: Map::empty(),
                inits: Seq::empty(),
            }),
    {
        ModuleRegistry { by_path: Table::new(), mapped: Table::new(), inits: Vec::new() }
    }

    /// Begin to load a module.  `by_name` is the handle of a module of that name, and
    /// `host_path` the file that the guest path resolves to.
    pub fn load_start_module(
        &mut self,
        guest_path: &str,
        by_name: Option<i32>,
        host_path: Option<&str>,
    ) -> (r: Result<LoadStep, i32>)
        requires
            old(self).wf(),
        ensures
            final(self).wf(),
            r == load_step(
                old(self)@,
                guest_path@,
                by_name,
                match host_path {
                    Some(p) => Some(p@),
                    None => None,
                },
            ),
            final(self)@ == (match r {
                Ok(LoadStep::Loaded(handle)) => RegistryView {
                    by_path: old(self)@.by_path.insert(guest_path@, handle),
                    ..old(self)@
                },
                _ => old(self)@,
            }),
    {
        let key = String::from_str(guest_path);
        if let Some(handle) = self.by_path.get(&key) {
            let h: i32 = *handle;
            assert(old(self)@.by_path.insert(guest_path@, h) =~= old(self)@.by_path);
            return Ok(LoadStep::Loaded(h));
        }
        if let Some(handle) = by_name {
            self.by_path.insert(key, handle);
            return Ok(LoadStep::Loaded(handle));
        }
        let host = match host_path {
            Some(p) => String::from_str(p),
            None => {
                return Err(ENOENT);
            },
        };
        let found: Option<i32> = match self.mapped.get(&host) {
            Some(h) => Some(*h),
            None => None,
        };
        match found {
            Some(handle) => {
                self.by_path.insert(key, handle);
                Ok(LoadStep::Loaded(handle))
            },
            None => Ok(LoadStep::Load),
        }
    }

    /// Note that a file has been mapped.
    pub fn note_mapped(&mut self, path: String, handle: i32)
        requires
            old(self).wf(),
        ensures
            final(self).wf(),
            final(self)@ == (RegistryView {
                mapped: old(self)@.mapped.insert(path@, handle),
                ..old(self)@
            }),
    {
        self.mapped.insert(path, handle);
    }

    /// Note the entry point of a module that has been relocated.
    pub fn note_init(&mut self, entry: u64)
        requires
            old(self).wf(),
        ensures
            final(self).wf(),
            final(self)@ == (RegistryView { inits: old(self)@.inits.push(entry), ..old(self)@ }),
    {
        self.inits.push(entry);
    }

    /// Whether a load can go on with what the file of the module holds.
    pub fn opened(found: OpenedModule) -> (r: Result<(), i32>)
        ensures
            r == (match found {
                OpenedModule::Unreadable => Err::<(), i32>(ENOENT),
                OpenedModule::Malformed => Err::<(), i32>(EINVAL),
                OpenedModule::Module => Ok::<(), i32>(()),
            }),
    {
        match found {
            OpenedModule::Unreadable => Err(ENOENT),
            OpenedModule::Malformed => Err(EINVAL),
            OpenedModule::Module => Ok(()),
        }
    }

    /// Finish a load.  `before` is how many entry points there were when it began: those
    /// added since belong to what the module needed, and are the caller's to run, as is
    /// the module's own.  `handle` is `None` where the load failed.
    pub fn finish_load(
        &mut self,
        guest_path: &str,
        before: usize,
        handle: Option<i32>,
        own: u64,
    ) -> (r: Result<(i32, Vec<u64>), i32>)
        requires
            old(self).wf(),
            before <= old(self)@.inits.len(),
        ensures
            final(self).wf(),
            final(self)@.mapped == old(self)@.mapped,
            final(self)@.inits == old(self)@.inits.take(before as int),
            match handle {
                Some(h) => {
                    &&& r matches Ok((id, run))
                    &&& id == h
                    &&& run@ == starts(old(self)@.inits.skip(before as int), own)
                    &&& final(self)@.by_path == old(self)@.by_path.insert(guest_path@, h)
                },
                None => r == Err::<(i32, Vec<u64>), i32>(EINVAL) && final(self)@.by_path
                    == old(self)@.by_path,
            },
    {
        let mut run = self.inits.split_off(before);
        assert(self.inits@ =~= old(self)@.inits.take(before as int));
        assert(run@ =~= old(self)@.inits.skip(before as int));
        match handle {
            Some(h) => {
                if own != 0 {
                    run.push(own);
                }
                self.by_path.insert(String::from_str(guest_path), h);
                Ok((h, run))
            },
            None => Err(EINVAL),
        }
    }
}

/// The address of a symbol: under its own name, else under the number its name stands
/// for.
pub open spec fn symbol_of(
    exports: Map<Seq<char>, u64>,
    name: Seq<char>,
    nid: Option<Seq<char>>,
) -> Option<u64> {
    if exports.contains_key(name) {
        Some(exports[name])
    } else {
        match nid {
            Some(n) => if exports.contains_key(n) {
                Some(exports[n])
            } else {
                None
            },
            None => None,
        }
    }
}

/// The address of a symbol that a module exports.
pub fn module_dlsym(exports: &Table<String, u64>, name: &str, nid: Option<&str>) -> (addr: Option<
    u64,
>)
    requires
        exports.wf(),
    ensures
        addr == symbol_of(
            exports@,
            name@,
            match nid {
                Some(n) => Some(n@),
                None => None,
            },
        ),
{
    let key = String::from_str(name);
    if let Some(a) = exports.get(&key) {
        return Some(*a);
    }
    match nid {
        Some(n) => {
            let nid_key = String::from_str(n);
            match exports.get(&nid_key) {
                Some(a) => Some(*a),
                None => None,
            }
        },
        None => None,
    }
}

/// A module that was loaded is loaded once: asking again, by any path that was answered
/// before, gives the same handle and nothing to run.
pub proof fn law_repeat_load_is_idempotent(
    s: RegistryView,
    guest_path: Seq<char>,
    handle: i32,
    by_name: Option<i32>,
    host_path: Option<Seq<char>>,
)
    ensures
        load_step(
            RegistryView { by_path: s.by_path.insert(guest_path, handle), ..s },
            guest_path,
            by_name,
            host_path,
        ) == Ok::<LoadStep, i32>(LoadStep::Loaded(handle)),
{
}

/// A file that is mapped is never mapped again, whatever name or path it is asked for by.
pub proof fn law_mapped_files_are_reused(
    s: RegistryView,
    guest_path: Seq<char>,
    by_name: Option<i32>,
    host: Seq<char>,
)
    requires
        s.mapped.contains_key(host),
    ensures
        load_step(s, guest_path, by_name, Some(host)) matches Ok(step) && step != LoadStep::Load,
{
}

/// The paths of the modules to load.
pub open spec fn paths(walk: Walk) -> Seq<Seq<char>> {
    Seq::new(walk.modules.len(), |i: int| walk.modules[i].1)
}

/// What a part of a walk does: it only adds; nothing that is being entered becomes dealt
/// with; and the files it adds are new, distinct, not mapped, and dealt with afterwards.
pub open spec fn extends(w: World, open_now: Set<Seq<char>>, a: Walk, b: Walk) -> bool {
    &&& a.modules.len() <= b.modules.len()
    &&& b.modules.take(a.modules.len() as int) == a.modules
    &&& a.seen.subset_of(b.seen)
    &&& forall|x: Seq<char>|
        open_now.contains(x) && !a.seen.contains(x) ==> !(#[trigger] b.seen.contains(x))
    &&& forall|i: int|
        a.modules.len() <= i < b.modules.len() ==> {
            let p = (#[trigger] b.modules[i]).1;
            !a.seen.contains(p) && !w.mapped.contains(p) && b.seen.contains(p)
        }
    &&& forall|i: int, j: int|
        a.modules.len() <= i < j < b.modules.len() ==> (#[trigger] b.modules[i]).1 != (
        #[trigger] b.modules[j]).1
}

proof fn lemma_extends_trans(w: World, open_now: Set<Seq<char>>, a: Walk, b: Walk, c: Walk)
    requires
        extends(w, open_now, a, b),
        extends(w, open_now, b, c),
    ensures
        extends(w, open_now, a, c),
{
    let n = a.modules.len() as int;
    let m = b.modules.len() as int;
    assert(c.modules.take(n) =~= a.modules) by {
        assert(c.modules.take(n) =~= c.modules.take(m).take(n));
    }
    assert forall|i: int| m > i >= 0 implies c.modules[i] == #[trigger] b.modules[i] by {
        assert(c.modules.take(m)[i] == c.modules[i]);
    }
    assert forall|i: int| n <= i < c.modules.len() implies ({
        let p = (#[trigger] c.modules[i]).1;
        !a.seen.contains(p) && !w.mapped.contains(p) && c.seen.contains(p)
    }) by {
        if i < m {
            assert(c.modules[i] == b.modules[i]);
        }
    }
    assert forall|i: int, j: int| n <= i < j < c.modules.len() implies (#[trigger] c.modules[i]).1
        != (#[trigger] c.modules[j]).1 by {
        if j < m {
            assert(c.modules[i] == b.modules[i] && c.modules[j] == b.modules[j]);
        } else if i < m {
            assert(c.modules[i] == b.modules[i]);
            assert(b.seen.contains(b.modules[i].1));
            assert(!b.seen.contains(c.modules[j].1));
        }
    }
    assert forall|x: Seq<char>| open_now.contains(x) && !a.seen.contains(x) implies !(
    #[trigger] c.seen.contains(x)) by {
        assert(!b.seen.contains(x));
    }
}

/// Every file is collected at most once, under whatever names it is asked for, and none
/// that is mapped already; a cycle ends.
pub proof fn law_each_file_is_collected_once(
    w: World,
    lib: Seq<char>,
    open_now: Set<Seq<char>>,
    walk: Walk,
)
    requires
        w.files.dom().finite(),
    ensures
        collect(w, lib, open_now, walk) matches Collected::Done(out) ==> extends(
            w,
            open_now,
            walk,
            out,
        ),
    decreases unentered(w, open_now), 0nat,
{
    assert(walk.modules.take(walk.modules.len() as int) =~= walk.modules);
    if walk.seen.contains(lib) || open_now.contains(lib) {
    } else if w.files.contains_key(lib) {
        if let ModuleFileView::Parsed { path, needs } = w.files[lib] {
            if !is_handled(w, path, open_now, walk) {
                let deeper = open_now.insert(lib).insert(path);
                lemma_unentered(w, open_now, lib, path);
                law_lists_are_collected_once(w, needs, deeper, walk);
                if let Collected::Done(inner) = collect_all(w, needs, deeper, walk) {
                    lemma_extends_entered(w, open_now, walk, inner, lib, path);
                }
            }
        }
    }
}

/// A module that is added after what it needs.
pub open spec fn entered(inner: Walk, lib: Seq<char>, path: Seq<char>) -> Walk {
    Walk {
        seen: inner.seen.insert(path).insert(lib),
        modules: inner.modules.push((lib, path)),
    }
}

proof fn lemma_extends_entered(
    w: World,
    open_now: Set<Seq<char>>,
    walk: Walk,
    inner: Walk,
    lib: Seq<char>,
    path: Seq<char>,
)
    requires
        !walk.seen.contains(lib),
        !open_now.contains(lib),
        !is_handled(w, path, open_now, walk),
        extends(w, open_now.insert(lib).insert(path), walk, inner),
    ensures
        extends(w, open_now, walk, entered(inner, lib, path)),
{
    let deeper = open_now.insert(lib).insert(path);
    let out = entered(inner, lib, path);
    assert(deeper.contains(path));
    assert(!inner.seen.contains(path));
    let n = walk.modules.len() as int;
    assert(out.modules.take(n) =~= inner.modules.take(n));
    assert forall|x: Seq<char>| open_now.contains(x) && !walk.seen.contains(x) implies !(
    #[trigger] out.seen.contains(x)) by {
        assert(deeper.contains(x));
        assert(!inner.seen.contains(x));
    }
    assert forall|i: int| n <= i < out.modules.len() implies ({
        let p = (#[trigger] out.modules[i]).1;
        !walk.seen.contains(p) && !w.mapped.contains(p) && out.seen.contains(p)
    }) by {
        if i < inner.modules.len() {
            assert(out.modules[i] == inner.modules[i]);
        }
    }
    assert forall|i: int, j: int| n <= i < j < out.modules.len() implies (
    #[trigger] out.modules[i]).1 != (#[trigger] out.modules[j]).1 by {
        assert(out.modules[i] == inner.modules[i]);
        if j < inner.modules.len() {
            assert(out.modules[j] == inner.modules[j]);
        } else {
            assert(inner.seen.contains(inner.modules[i].1));
        }
    }
}

/// The same holds of a list of modules.
pub proof fn law_lists_are_collected_once(
    w: World,
    libs: Seq<Seq<char>>,
    open_now: Set<Seq<char>>,
    walk: Walk,
)
    requires
        w.files.dom().finite(),
    ensures
        collect_all(w, libs, open_now, walk) matches Collected::Done(out) ==> extends(
            w,
            open_now,
            walk,
            out,
        ),
    decreases unentered(w, open_now), libs.len() + 1,
{
    assert(walk.modules.take(walk.modules.len() as int) =~= walk.modules);
    if libs.len() > 0 {
        law_lists_are_collected_once(w, libs.drop_last(), open_now, walk);
        if let Collected::Done(middle) = collect_all(w, libs.drop_last(), open_now, walk) {
            law_each_file_is_collected_once(w, libs.last(), open_now, middle);
            if let Collected::Done(out) = collect(w, libs.last(), open_now, middle) {
                lemma_extends_trans(w, open_now, walk, middle, out);
            }
        }
    }
}

/// What a module needs is dealt with before the module itself is added, unless it is
/// itself being entered, which is what a cycle is.
pub proof fn law_needs_come_first(
    w: World,
    libs: Seq<Seq<char>>,
    open_now: Set<Seq<char>>,
    walk: Walk,
)
    requires
        w.files.dom().finite(),
    ensures
        collect_all(w, libs, open_now, walk) matches Collected::Done(out) ==> forall|i: int|
            0 <= i < libs.len() ==> out.seen.contains(#[trigger] libs[i]) || open_now.contains(
                libs[i],
            ),
    decreases libs.len(),
{
    if libs.len() > 0 {
        let front = libs.drop_last();
        law_needs_come_first(w, front, open_now, walk);
        if let Collected::Done(middle) = collect_all(w, front, open_now, walk) {
            law_each_file_is_collected_once(w, libs.last(), open_now, middle);
            if let Collected::Done(out) = collect(w, libs.last(), open_now, middle) {
                assert forall|i: int| 0 <= i < libs.len() implies out.seen.contains(
                    #[trigger] libs[i],
                ) || open_now.contains(libs[i]) by {
                    if i < front.len() {
                        assert(front[i] == libs[i]);
                    }
                }
            }
        }
    }
}

/// Somebody has looked for this: it is the name of a module that is known, or the path of
/// the file of one.
pub open spec fn is_known(w: World, x: Seq<char>) -> bool {
    w.files.contains_key(x) || exists|lib: Seq<char>| #[trigger] has_path(w, lib, x)
}

/// The module is known, and this is the path of its file.
pub open spec fn has_path(w: World, lib: Seq<char>, path: Seq<char>) -> bool {
    w.files.contains_key(lib) && match w.files[lib] {
        ModuleFileView::Missing => false,
        ModuleFileView::Broken { path: p } => p == path,
        ModuleFileView::Parsed { path: p, .. } => p == path,
    }
}

/// The module is what its file says, and all that it needs is dealt with or being entered.
pub open spec fn is_served(
    w: World,
    open_now: Set<Seq<char>>,
    walk: Walk,
    module: (Seq<char>, Seq<char>),
) -> bool {
    &&& w.files.contains_key(module.0)
    &&& w.files[module.0] matches ModuleFileView::Parsed { path, needs } && path == module.1
        && forall|k: int|
        0 <= k < needs.len() ==> walk.seen.contains(#[trigger] needs[k]) || open_now.contains(
            needs[k],
        )
}

/// The walk has been completed from `a` to `b`: nothing was dealt with unknown, and every
/// module that was added is served.
pub open spec fn completes(w: World, open_now: Set<Seq<char>>, a: Walk, b: Walk) -> bool {
    &&& forall|x: Seq<char>| #[trigger] b.seen.contains(x) && !a.seen.contains(x) ==> is_known(w, x)
    &&& forall|i: int|
        a.modules.len() <= i < b.modules.len() ==> is_served(w, open_now, b, #[trigger] b.modules[i])
}

/// The whole graph is collected: a walk that ends has dealt with the modules of the list, and
/// with all that the modules it collected need, and with nothing whose file nobody has looked
/// for.
pub proof fn law_whole_graph_is_collected(
    w: World,
    libs: Seq<Seq<char>>,
    open_now: Set<Seq<char>>,
    walk: Walk,
)
    requires
        w.files.dom().finite(),
    ensures
        collect_all(w, libs, open_now, walk) matches Collected::Done(out) ==> {
            &&& completes(w, open_now, walk, out)
            &&& forall|i: int|
                0 <= i < libs.len() ==> out.seen.contains(#[trigger] libs[i]) || open_now.contains(
                    libs[i],
                )
        },
    decreases unentered(w, open_now), libs.len() + 1,
{
    law_needs_come_first(w, libs, open_now, walk);
    if libs.len() > 0 {
        law_whole_graph_is_collected(w, libs.drop_last(), open_now, walk);
        if let Collected::Done(middle) = collect_all(w, libs.drop_last(), open_now, walk) {
            lemma_module_completes(w, libs.last(), open_now, middle);
            law_each_file_is_collected_once(w, libs.last(), open_now, middle);
            law_lists_are_collected_once(w, libs.drop_last(), open_now, walk);
            if let Collected::Done(out) = collect(w, libs.last(), open_now, middle) {
                assert forall|i: int| walk.modules.len() <= i < out.modules.len() implies is_served(
                    w,
                    open_now,
                    out,
                    #[trigger] out.modules[i],
                ) by {
                    if i < middle.modules.len() {
                        assert(out.modules.take(middle.modules.len() as int)[i] == out.modules[i]);
                        lemma_still_served(w, open_now, middle, open_now, out, middle.modules[i]);
                    }
                }
            }
        }
    }
}

/// A module stays served as more is dealt with.
proof fn lemma_still_served(
    w: World,
    a_open: Set<Seq<char>>,
    a: Walk,
    b_open: Set<Seq<char>>,
    b: Walk,
    module: (Seq<char>, Seq<char>),
)
    requires
        is_served(w, a_open, a, module),
        forall|x: Seq<char>|
            a.seen.contains(x) || a_open.contains(x) ==> #[trigger] b.seen.contains(x)
                || b_open.contains(x),
    ensures
        is_served(w, b_open, b, module),
{
    if let ModuleFileView::Parsed { path, needs } = w.files[module.0] {
        assert forall|k: int| 0 <= k < needs.len() implies b.seen.contains(#[trigger] needs[k])
            || b_open.contains(needs[k]) by {
            assert(a.seen.contains(needs[k]) || a_open.contains(needs[k]));
        }
    }
}

proof fn lemma_module_completes(
    w: World,
    lib: Seq<char>,
    open_now: Set<Seq<char>>,
    walk: Walk,
)
    requires
        w.files.dom().finite(),
    ensures
        collect(w, lib, open_now, walk) matches Collected::Done(out) ==> completes(
            w,
            open_now,
            walk,
            out,
        ),
    decreases unentered(w, open_now), 0nat,
{
    if walk.seen.contains(lib) || open_now.contains(lib) || !w.files.contains_key(lib) {
    } else {
        match w.files[lib] {
            ModuleFileView::Missing => {},
            ModuleFileView::Broken { path } => {
                assert(has_path(w, lib, path));
            },
            ModuleFileView::Parsed { path, needs } => {
                assert(has_path(w, lib, path));
                if !is_handled(w, path, open_now, walk) {
                    let deeper = open_now.insert(lib).insert(path);
                    lemma_unentered(w, open_now, lib, path);
                    law_whole_graph_is_collected(w, needs, deeper, walk);
                    if let Collected::Done(inner) = collect_all(w, needs, deeper, walk) {
                        let out = entered(inner, lib, path);
                        assert(is_served(w, deeper, inner, (lib, path)));
                        assert forall|i: int|
                            walk.modules.len() <= i < out.modules.len() implies is_served(
                            w,
                            open_now,
                            out,
                            #[trigger] out.modules[i],
                        ) by {
                            lemma_still_served(w, deeper, inner, open_now, out, out.modules[i]);
                        }
                    }
                }
            },
        }
    }
}

/// A walk asks for a module only where nobody has looked for it, and where it is in the list
/// or a module that is known needs it.
pub proof fn law_asked_for_is_needed(
    w: World,
    libs: Seq<Seq<char>>,
    open_now: Set<Seq<char>>,
    walk: Walk,
)
    requires
        w.files.dom().finite(),
    ensures
        collect_all(w, libs, open_now, walk) matches Collected::Ask { name, .. }
            ==> !w.files.contains_key(name) && (libs.contains(name) || is_needed(w, name)),
    decreases unentered(w, open_now), libs.len() + 1,
{
    if libs.len() > 0 {
        let front = libs.drop_last();
        let lib = libs.last();
        law_asked_for_is_needed(w, front, open_now, walk);
        match collect_all(w, front, open_now, walk) {
            Collected::Ask { name, .. } => {
                if front.contains(name) {
                    let k = choose|k: int| 0 <= k < front.len() && front[k] == name;
                    assert(libs[k] == name);
                }
            },
            Collected::Done(middle) => {
                assert(libs[libs.len() - 1] == lib);
                assert(libs.contains(lib));
                assert(collect_all(w, libs, open_now, walk) == collect(w, lib, open_now, middle));
                if !middle.seen.contains(lib) && !open_now.contains(lib) && w.files.contains_key(
                    lib,
                ) {
                    if let ModuleFileView::Parsed { path, needs } = w.files[lib] {
                        if !is_handled(w, path, open_now, middle) {
                            let deeper = open_now.insert(lib).insert(path);
                            lemma_unentered(w, open_now, lib, path);
                            law_asked_for_is_needed(w, needs, deeper, middle);
                            if let Collected::Ask { name, .. } = collect_all(
                                w,
                                needs,
                                deeper,
                                middle,
                            ) {
                                if needs.contains(name) {
                                    assert(is_needed(w, name));
                                }
                            }
                        }
                    }
                }
            },
        }
    }
}

/// A module is added last, behind all that its needs add; and its needs are walked, in the order
/// that it lists them, before it is.
pub proof fn law_module_comes_after_its_needs(
    w: World,
    lib: Seq<char>,
    open_now: Set<Seq<char>>,
    walk: Walk,
    path: Seq<char>,
    needs: Seq<Seq<char>>,
)
    requires
        w.files.dom().finite(),
        w.files.contains_key(lib),
        w.files[lib] == (ModuleFileView::Parsed { path, needs }),
        !walk.seen.contains(lib) && !open_now.contains(lib),
        !walk.seen.contains(path) && !open_now.contains(path) && !w.mapped.contains(path),
    ensures
        match collect_all(w, needs, open_now.insert(lib).insert(path), walk) {
            Collected::Done(inner) => {
                &&& collect(w, lib, open_now, walk) matches Collected::Done(out)
                &&& out.modules.len() == inner.modules.len() + 1
                &&& out.modules.last() == (lib, path)
                &&& out.modules.drop_last() == inner.modules
                &&& out.seen == inner.seen.insert(path).insert(lib)
            },
            Collected::Ask { name, walk: so_far } => collect(w, lib, open_now, walk)
                == (Collected::Ask { name, walk: so_far }),
        },
{
    if let Collected::Done(inner) = collect_all(
        w,
        needs,
        open_now.insert(lib).insert(path),
        walk,
    ) {
        assert(inner.modules.push((lib, path)).drop_last() =~= inner.modules);
    }
}

/// A module adds nothing where it has been dealt with, where it has no file, or where its file is
/// broken, mapped, collected or being entered; and it is dealt with then.  One that nobody has
/// looked for is asked for.
pub proof fn law_module_adds_nothing(
    w: World,
    lib: Seq<char>,
    open_now: Set<Seq<char>>,
    walk: Walk,
)
    requires
        w.files.dom().finite(),
    ensures
        walk.seen.contains(lib) || open_now.contains(lib) ==> collect(w, lib, open_now, walk)
            == Collected::Done(walk),
        !walk.seen.contains(lib) && !open_now.contains(lib) && !w.files.contains_key(lib)
            ==> collect(w, lib, open_now, walk) == (Collected::Ask { name: lib, walk }),
        !walk.seen.contains(lib) && !open_now.contains(lib) && w.files.contains_key(lib) && (
        match w.files[lib] {
            ModuleFileView::Missing => true,
            ModuleFileView::Broken { .. } => true,
            ModuleFileView::Parsed { path, .. } => walk.seen.contains(path) || open_now.contains(
                path,
            ) || w.mapped.contains(path),
        }) ==> (collect(w, lib, open_now, walk) matches Collected::Done(out) && out.modules
            == walk.modules && out.seen.contains(lib) && walk.seen.subset_of(out.seen)),
{
}

/// Several modules are walked one after the other, each with what those before it added.
pub proof fn law_lists_are_walked_in_order(
    w: World,
    libs: Seq<Seq<char>>,
    lib: Seq<char>,
    open_now: Set<Seq<char>>,
    walk: Walk,
)
    requires
        w.files.dom().finite(),
    ensures
        collect_all(w, Seq::<Seq<char>>::empty(), open_now, walk) == Collected::Done(walk),
        collect_all(w, libs, open_now, walk) matches Collected::Done(middle) ==> collect_all(
            w,
            libs.push(lib),
            open_now,
            walk,
        ) == collect(w, lib, open_now, middle),
        collect_all(w, libs, open_now, walk) is Ask ==> collect_all(
            w,
            libs.push(lib),
            open_now,
            walk,
        ) == collect_all(w, libs, open_now, walk),
{
    assert(libs.push(lib).drop_last() =~= libs);
}

/// Every module that was mapped is relocated, once, in the order of the set; one that was not is
/// left out.
pub proof fn law_relocations(handles: Seq<Option<i32>>, next: Option<i32>)
    ensures
        relocations(Seq::<Option<i32>>::empty()).len() == 0,
        next is None ==> relocations(handles.push(next)) == relocations(handles),
        next matches Some(h) ==> relocations(handles.push(next)) == relocations(handles).push(
            (handles.len() as int, h),
        ),
{
    assert(handles.push(next).drop_last() =~= handles);
}

/// A module goes by the name of its file, without the directories and without the extension.
pub proof fn law_modules_are_named(dir: Seq<char>, name: Seq<char>, extension: Seq<char>)
    requires
        name.len() > 0,
        forall|i: int| 0 <= i < name.len() ==> #[trigger] name[i] != '/',
        extension.len() > 0,
        forall|i: int|
            0 <= i < extension.len() ==> #[trigger] extension[i] != '/' && extension[i] != '.',
    ensures
        module_name(dir.push('/') + (name.push('.') + extension)) == name,
        module_name(name.push('.') + extension) == name,
{
    let file = name.push('.') + extension;
    let n = name.len() as int;
    lemma_last_dot_at(file, n);
    assert(file.take(n) =~= name);
    assert(stem(file) == name);
    let dot = seq!['.'];
    let dots = seq!['.', '.'];
    assert(dot.len() == 1 && dots.len() == 2);
    assert(file.len() >= 3);
    assert(!is_here(file) && !is_parent(file));
    let path = dir.push('/') + file;
    let from = dir.len() as int + 1;
    assert forall|k: int| from <= k < path.len() implies path[k] != '/' by {
        assert(path[k] == file[k - from]);
    }
    crate::kernel::path::lemma_split_extend(path, from, path.len() as int);
    assert(path.take(path.len() as int) =~= path);
    assert(path.subrange(from, path.len() as int) =~= file);
    assert(named(split(path)).last() == file);
    assert forall|k: int| 0 <= k < file.len() implies file[k] != '/' by {
        if k < n {
            assert(file[k] == name[k]);
        } else if k > n {
            assert(file[k] == extension[k - n - 1]);
        }
    }
    crate::kernel::path::lemma_split_extend(file, 0, file.len() as int);
    assert(file.take(file.len() as int) =~= file);
    assert(file.subrange(0, file.len() as int) =~= file);
    assert(named(split(file)).last() == file);
}

proof fn lemma_last_dot_at(s: Seq<char>, n: int)
    requires
        0 <= n < s.len(),
        s[n] == '.',
        forall|i: int| n < i < s.len() ==> #[trigger] s[i] != '.',
    ensures
        last_dot(s) == Some(n),
    decreases s.len(),
{
    if n < s.len() - 1 {
        assert(s.last() == s[s.len() - 1]);
        lemma_last_dot_at(s.drop_last(), n);
    }
}

/// A name without a dot, or with one in front alone, is a module's name as it is; and a path that
/// names no file gives the name "module".
pub proof fn law_plain_module_names(name: Seq<char>)
    requires
        name.len() > 0,
        name != seq!['.'],
        name != seq!['.', '.'],
        forall|i: int| 0 <= i < name.len() ==> #[trigger] name[i] != '/',
        forall|i: int| 1 <= i < name.len() ==> #[trigger] name[i] != '.',
    ensures
        module_name(name) == name,
        module_name(Seq::<char>::empty()) == "module"@,
        module_name(seq!['.', '.']) == "module"@,
{
    if name[0] == '.' {
        lemma_last_dot_at(name, 0);
    } else {
        lemma_no_dot(name);
    }
    crate::kernel::path::lemma_split_extend(name, 0, name.len() as int);
    assert(name.take(name.len() as int) =~= name);
    assert(name.subrange(0, name.len() as int) =~= name);
    assert(named(split(name)).last() == name);
    let none = Seq::<char>::empty();
    assert(split(none) == seq![none]);
    assert(split(none).drop_last() =~= Seq::<Seq<char>>::empty());
    assert(named(split(none)) == named(split(none).drop_last()));
    let dots = seq!['.', '.'];
    crate::kernel::path::lemma_split_extend(dots, 0, 2);
    assert(dots.take(2) =~= dots);
    assert(dots.subrange(0, 2) =~= dots);
    assert(named(split(dots)).last() == dots);
}

proof fn lemma_no_dot(s: Seq<char>)
    requires
        forall|i: int| 0 <= i < s.len() ==> #[trigger] s[i] != '.',
    ensures
        last_dot(s) is None,
    decreases s.len(),
{
    if s.len() > 0 {
        assert(s.last() == s[s.len() - 1]);
        lemma_no_dot(s.drop_last());
    }
}

/// The file of a module is looked for beside the program and then in "sce_module", with the
/// ending ".prx"; the C library is looked for under its short name after that.
pub proof fn law_module_files(lib: Seq<char>)
    ensures
        ({
            let c = file_candidates(lib);
            let internal = lib == "libSceLibcInternal"@;
            &&& c.len() == (if internal {
                4nat
            } else {
                2nat
            })
            &&& c[0] == lib + ".prx"@
            &&& c[1] == "sce_module/"@ + lib + ".prx"@
            &&& internal ==> c[2] == "libc"@ + ".prx"@ && c[3] == "sce_module/"@ + "libc"@
                + ".prx"@
        }),
{
}

/// The directory of a program is the one that its module lies in, or the one above a directory
/// that is called "sce_module".
pub proof fn law_game_directories(dir: Seq<Seq<char>>, last: Seq<char>)
    ensures
        game_dir_of(dir.push("sce_module"@)) == dir,
        last != "sce_module"@ ==> game_dir_of(dir.push(last)) == dir.push(last),
        game_dir_of(Seq::<Seq<char>>::empty()).len() == 0,
{
    assert(dir.push("sce_module"@).drop_last() =~= dir);
}

/// What a request to load comes to: the handle that was given for the path before; else that of a
/// module of the name; else that of the file, where it is mapped; else the file is loaded; and
/// where there is none the answer is 2.
pub proof fn law_load_requests(
    s: RegistryView,
    guest_path: Seq<char>,
    by_name: Option<i32>,
    host_path: Option<Seq<char>>,
)
    ensures
        ({
            let step = load_step(s, guest_path, by_name, host_path);
            &&& s.by_path.contains_key(guest_path) ==> step == Ok::<LoadStep, i32>(
                LoadStep::Loaded(s.by_path[guest_path]),
            )
            &&& !s.by_path.contains_key(guest_path) ==> {
                &&& by_name matches Some(handle) ==> step == Ok::<LoadStep, i32>(
                    LoadStep::Loaded(handle),
                )
                &&& by_name is None && host_path is None ==> step == Err::<LoadStep, i32>(2)
                &&& (by_name is None && host_path is Some && s.mapped.contains_key(host_path->0))
                    ==> step == Ok::<LoadStep, i32>(LoadStep::Loaded(s.mapped[host_path->0]))
                &&& (by_name is None && host_path is Some && !s.mapped.contains_key(host_path->0))
                    ==> step == Ok::<LoadStep, i32>(LoadStep::Load)
            }
        }),
        ENOENT == 2,
        EINVAL == 22,
{
}

/// The entry points of what a module needed are run first, in their order, and its own last; a
/// module without one adds none.
pub proof fn law_starts(needed: Seq<u64>, own: u64)
    ensures
        own == 0 ==> starts(needed, own) == needed,
        own != 0 ==> starts(needed, own).len() == needed.len() + 1 && starts(needed, own).drop_last()
            == needed && starts(needed, own).last() == own,
{
    assert(needed.push(own).drop_last() =~= needed);
}

/// A symbol is found under its name, else under its number, else not at all.
pub proof fn law_symbols(exports: Map<Seq<char>, u64>, name: Seq<char>, nid: Option<Seq<char>>)
    ensures
        exports.contains_key(name) ==> symbol_of(exports, name, nid) == Some(exports[name]),
        (!exports.contains_key(name) && nid is Some && exports.contains_key(nid->0)) ==> symbol_of(
            exports,
            name,
            nid,
        ) == Some(exports[nid->0]),
        (!exports.contains_key(name) && !(nid is Some && exports.contains_key(nid->0)))
            ==> symbol_of(exports, name, nid) is None,
{
}

} // verus!
