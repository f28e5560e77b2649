use unemups4::kernel::hle::{CallName, HleBootstrap, HleDef};
use unemups4::kernel::modules::{
    find_module_file, game_dir, lib_name, module_dlsym, relocation_order, GraphWalk, LoadStep,
    ModuleFile, ModuleRegistry, OpenedModule,
};
use unemups4::kernel::process::Process;
use unemups4::table::Table;

fn parsed(path: &str, needs: &[&str]) -> ModuleFile {
    ModuleFile::Parsed {
        path: path.to_string(),
        needs: needs.iter().map(|n| n.to_string()).collect(),
    }
}

fn world(files: Vec<(&str, ModuleFile)>) -> Table<String, ModuleFile> {
    let mut t = Table::new();
    for (name, file) in files {
        t.insert(name.to_string(), file);
    }
    t
}

fn collected(files: &Table<String, ModuleFile>, own: Option<&str>, needs: &[&str]) -> Vec<String> {
    let mapped = Table::new();
    let mut walk = GraphWalk::new(own);
    let needs: Vec<String> = needs.iter().map(|n| n.to_string()).collect();
    walk.collect_needs(files, &mapped, &needs, &mut Vec::new()).unwrap();
    walk.modules.iter().map(|m| m.name.clone()).collect()
}

#[test]
fn what_is_needed_comes_first() {
    let files = world(vec![
        ("a", parsed("/g/a.prx", &["b", "c"])),
        ("b", parsed("/g/b.prx", &["c"])),
        ("c", parsed("/g/c.prx", &["libkernel"])),
        ("libkernel", ModuleFile::Missing),
    ]);
    assert_eq!(collected(&files, None, &["a"]), vec!["c", "b", "a"]);
}

#[test]
fn a_cycle_ends() {
    let files = world(vec![
        ("libSceLibcInternal", parsed("/g/libc.prx", &["libSceFios2", "libc"])),
        ("libc", parsed("/g/libc.prx", &["libSceFios2"])),
        ("libSceFios2", parsed("/g/libSceFios2.prx", &["libSceLibcInternal"])),
    ]);
    assert_eq!(
        collected(&files, None, &["libSceLibcInternal", "libc"]),
        vec!["libSceFios2", "libSceLibcInternal"]
    );
}

#[test]
fn a_module_that_lists_itself_is_not_collected() {
    let files = world(vec![("other", parsed("/g/other.prx", &["self"]))]);
    assert_eq!(collected(&files, Some("self"), &["self", "other"]), vec!["other"]);
}

#[test]
fn broken_and_mapped_files_are_left_out() {
    let files = world(vec![
        ("bad", ModuleFile::Broken { path: "/g/bad.prx".to_string() }),
        ("old", parsed("/g/old.prx", &["bad"])),
        ("new", parsed("/g/new.prx", &["old", "bad"])),
    ]);
    let mut mapped = Table::new();
    mapped.insert("/g/old.prx".to_string(), 4);
    let mut walk = GraphWalk::new(None);
    walk.collect_module_graph(&files, &mapped, &"new".to_string(), &mut Vec::new()).unwrap();
    let paths: Vec<&str> = walk.modules.iter().map(|m| m.path.as_str()).collect();
    assert_eq!(paths, vec!["/g/new.prx"]);
}

#[test]
fn an_unknown_module_is_asked_for() {
    let files = world(vec![("a", parsed("/g/a.prx", &["b"]))]);
    let mut walk = GraphWalk::new(None);
    let asked = walk
        .collect_module_graph(&files, &Table::new(), &"a".to_string(), &mut Vec::new())
        .unwrap_err();
    assert_eq!(asked, "b");
}

#[test]
fn only_mapped_modules_are_relocated() {
    assert_eq!(relocation_order(&vec![Some(5), None, Some(6)]), vec![(0, 5), (2, 6)]);
}

#[test]
fn a_path_names_a_module() {
    assert_eq!(lib_name("/app0/sce_module/libc.prx"), "libc");
    assert_eq!(lib_name("/app0/scePlayStation4.prx/"), "scePlayStation4");
    assert_eq!(lib_name("a.b.prx"), "a.b");
    assert_eq!(lib_name(".prx"), ".prx");
    assert_eq!(lib_name("plain"), "plain");
    assert_eq!(lib_name("/app0/.."), "module");
    assert_eq!(lib_name("/"), "module");
    assert_eq!(lib_name(""), "module");
    assert_eq!(lib_name("x/."), "x");
}

#[test]
fn module_files_are_looked_for_in_order() {
    assert_eq!(find_module_file("libfmod"), vec!["libfmod.prx", "sce_module/libfmod.prx"]);
    assert_eq!(
        find_module_file("libSceLibcInternal"),
        vec![
            "libSceLibcInternal.prx",
            "sce_module/libSceLibcInternal.prx",
            "libc.prx",
            "sce_module/libc.prx",
        ]
    );
}

#[test]
fn the_module_directory_belongs_to_the_game() {
    let dir = |parts: &[&str]| -> Vec<String> { parts.iter().map(|p| p.to_string()).collect() };
    assert_eq!(game_dir(dir(&["g", "sce_module"])), dir(&["g"]));
    assert_eq!(game_dir(dir(&["g"])), dir(&["g"]));
    assert_eq!(game_dir(Vec::new()), Vec::<String>::new());
}

#[test]
fn a_module_is_loaded_once() {
    let mut reg = ModuleRegistry::new();
    assert_eq!(reg.load_start_module("/app0/a.prx", None, None), Err(2));
    assert_eq!(reg.load_start_module("/app0/a.prx", None, Some("/g/a.prx")), Ok(LoadStep::Load));
    reg.note_init(0x100);
    let before = reg.inits.len();
    reg.note_mapped("/g/dep.prx".to_string(), 8);
    reg.note_init(0x200);
    let (handle, run) = reg.finish_load("/app0/a.prx", before, Some(9), 0x300).unwrap();
    assert_eq!((handle, run), (9, vec![0x200, 0x300]));
    assert_eq!(reg.inits, vec![0x100]);
    assert_eq!(reg.load_start_module("/app0/a.prx", None, None), Ok(LoadStep::Loaded(9)));
    assert_eq!(
        reg.load_start_module("/app0/x.prx", None, Some("/g/dep.prx")),
        Ok(LoadStep::Loaded(8))
    );
    assert_eq!(reg.load_start_module("/app0/b.prx", Some(3), None), Ok(LoadStep::Loaded(3)));
    assert_eq!(reg.finish_load("/app0/c.prx", 1, None, 0x400).unwrap_err(), 22);
    assert_eq!(reg.finish_load("/app0/d.prx", 1, Some(4), 0).unwrap(), (4, Vec::new()));
}

#[test]
fn a_load_goes_on_only_with_a_module() {
    assert_eq!(ModuleRegistry::opened(OpenedModule::Unreadable), Err(2));
    assert_eq!(ModuleRegistry::opened(OpenedModule::Malformed), Err(22));
    assert_eq!(ModuleRegistry::opened(OpenedModule::Module), Ok(()));
}

#[test]
fn the_process_loads_through_its_registry() {
    let mut process = Process::new();
    assert!(!process.needs_main_thread());
    assert_eq!(process.load_start_module("/app0/a.prx", Some(2), None), Ok(LoadStep::Loaded(2)));
    process.modules.note_init(0x100);
    assert!(process.needs_main_thread());
}

#[test]
fn symbols_are_found_by_name_or_number() {
    let mut exports = Table::new();
    exports.insert("plain".to_string(), 1u64);
    exports.insert("nid#x".to_string(), 2u64);
    assert_eq!(module_dlsym(&exports, "plain", Some("nid#x")), Some(1));
    assert_eq!(Process::module_dlsym(&exports, "named", Some("nid#x")), Some(2));
    assert_eq!(module_dlsym(&exports, "named", None), None);
    assert_eq!(module_dlsym(&exports, "named", Some("nid#y")), None);
}

fn def(id: u32, name: &str, nid: &str, lib: &str) -> HleDef {
    HleDef {
        id,
        id_name: name.to_string(),
        id_nid: nid.to_string(),
        lib_name: lib.to_string(),
        names: Vec::new(),
        nids: Vec::new(),
    }
}

fn key(lib: &str, name: &str) -> (String, String) {
    (lib.to_string(), name.to_string())
}

#[test]
fn stubs_are_laid_out_and_exported() {
    let mut first = def(0x0102_0304, "sceKernelFirst", "nid1", "libkernel");
    first.names.push(CallName { name: "first".to_string(), nid: Some("alias1".to_string()) });
    first.nids.push("raw1".to_string());
    let second = def(7, "Unknown", "", "libSceOther");
    let plan = HleBootstrap::install(&vec![first, second], Some("guard_nid"));
    assert_eq!((plan.stubs.addr, plan.stubs.len), (0x2000_0000, 0x1000));
    assert!(plan.stubs.executable);
    assert_eq!((plan.data.addr, plan.data.len), (0x2000_1000, 0x1000));
    assert_eq!((plan.arena.addr, plan.arena.len), (0x2000_2000, 0x10_0000));
    assert_eq!(plan.code[1].0, 0x2000_0020);
    let code = &plan.code[0].1;
    assert_eq!(
        &code[..11],
        &[0x49, 0x89, 0xCA, 0xB8, 0x04, 0x03, 0x02, 0x01, 0x0F, 0x05, 0xC3]
    );
    assert!(code[11..].iter().all(|b| *b == 0x90));
    assert_eq!(code.len(), 32);
    assert_eq!(plan.libraries, vec!["libkernel", "libSceOther"]);
    for name in ["first", "alias1", "nid1", "raw1", "sceKernelFirst"] {
        assert_eq!(plan.exports.get(&key("libkernel", name)), Some(&0x2000_0000));
    }
    assert_eq!(plan.exports.get(&key("libkernel", "__stack_chk_guard")), Some(&0x2000_1000));
    assert_eq!(plan.exports.get(&key("libkernel", "guard_nid")), Some(&0x2000_1000));
    assert_eq!(plan.exports.get(&key("libSceOther", "Unknown")), None);
}

#[test]
fn retail_nid_import_resolves_to_hle_stub() {
    let nid = "rTXw65xmLIA";
    let others = def(1, "sceKernelOther", "other_nid", "libkernel");
    let call = def(2, "sceKernelAllocateDirectMemory", nid, "libkernel");
    let plan = HleBootstrap::install(&vec![others, call], None);

    let addr = *plan
        .exports
        .get(&key("libkernel", nid))
        .expect("retail NID resolves to an HLE stub");
    assert!(addr >= 0x2000_0000, "resolves into the HLE stub heap");

    let by_name = *plan.exports.get(&key("libkernel", "sceKernelAllocateDirectMemory")).unwrap();
    assert_eq!(addr, by_name);
}

#[test]
fn a_claimed_number_wins_over_an_inferred_one() {
    let mut a = def(1, "a", "na", "lib");
    a.names.push(CallName { name: "x".to_string(), nid: Some("shared".to_string()) });
    let mut b = def(2, "b", "nb", "lib");
    b.names.push(CallName { name: "y".to_string(), nid: Some("shared".to_string()) });
    let mut c = def(3, "c", "nc", "lib");
    c.nids.push("shared".to_string());
    let plan = HleBootstrap::install(&vec![a, b], None);
    assert_eq!(plan.exports.get(&key("lib", "shared")), Some(&0x2000_0000));
    assert_eq!(plan.libraries, vec!["lib"]);
    let again = HleBootstrap::install(&vec![def(1, "a", "shared", "lib"), c], None);
    assert_eq!(again.exports.get(&key("lib", "shared")), Some(&0x2000_0020));
}

#[test]
fn no_calls_need_no_stubs() {
    let plan = HleBootstrap::install(&Vec::new(), None);
    assert_eq!(plan.stubs.len, 0);
    assert_eq!(plan.data.addr, 0x2000_0000);
    assert!(plan.libraries.is_empty() && plan.code.is_empty());
}

#[test]
fn a_walk_asks_until_the_whole_graph_is_known() {
    let disk = |name: &str| match name {
        "a" => parsed("/g/a.prx", &["b", "libkernel"]),
        "b" => parsed("/g/b.prx", &["c", "a"]),
        "c" => ModuleFile::Broken { path: "/g/c.prx".to_string() },
        "d" => parsed("/g/d.prx", &[]),
        _ => ModuleFile::Missing,
    };
    let needs: Vec<String> = vec!["a".to_string(), "d".to_string()];
    let mut files: Table<String, ModuleFile> = Table::new();
    let mut asked: Vec<String> = Vec::new();
    let modules = loop {
        let mut walk = GraphWalk::new(None);
        match walk.collect_needs(&files, &Table::new(), &needs, &mut Vec::new()) {
            Ok(()) => break walk.modules,
            Err(name) => {
                files.insert(name.clone(), disk(&name));
                asked.push(name);
            }
        }
    };
    assert_eq!(asked, vec!["a", "b", "c", "libkernel", "d"]);
    let names: Vec<&str> = modules.iter().map(|m| m.name.as_str()).collect();
    assert_eq!(names, vec!["b", "a", "d"]);
}

#[test]
fn a_walk_that_asks_has_come_so_far() {
    let files = world(vec![
        ("done", parsed("/g/done.prx", &[])),
        ("open", parsed("/g/open.prx", &["unknown"])),
    ]);
    let mut walk = GraphWalk::new(None);
    let needs: Vec<String> = vec!["done".to_string(), "open".to_string()];
    let mut open_now = Vec::new();
    let asked = walk.collect_needs(&files, &Table::new(), &needs, &mut open_now).unwrap_err();
    assert_eq!(asked, "unknown");
    assert!(open_now.is_empty());
    let names: Vec<&str> = walk.modules.iter().map(|m| m.name.as_str()).collect();
    assert_eq!(names, vec!["done"]);
}
