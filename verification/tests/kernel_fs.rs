use unemups4::kernel::dirent::{EntryKind, HostEntry};
use unemups4::kernel::fs::{
    decide, io_errno, open_mode, sought, transferred, Candidate, FileSystem, HostErrorKind,
    Listing, Probe, Seek, Spelling, O_APPEND, O_CREAT, O_RDONLY, O_RDWR, O_TRUNC, O_WRONLY,
};
use unemups4::kernel::path::{
    descend, fallback_path, fold_match, is_within, mount_prefix_matches, names_root,
    normalize_relative, relative_to, Descent,
};

const ABSENT: Probe = Probe { contained: true, exists: false, folded: false };
const HERE: Probe = Probe { contained: true, exists: true, folded: false };
const FOLDED: Probe = Probe { contained: true, exists: false, folded: true };
const OUTSIDE: Probe = Probe { contained: false, exists: true, folded: true };

fn places(fs: &FileSystem, path: &str) -> Vec<(usize, Vec<String>)> {
    fs.candidates(path).into_iter().map(|c: Candidate| (c.root, c.components)).collect()
}

fn names(parts: &[&str]) -> Vec<String> {
    parts.iter().map(|p| p.to_string()).collect()
}

/// Open a file that is there.
fn opened(fs: &mut FileSystem, path: &str, flags: i32) -> i32 {
    let probes = vec![HERE; fs.candidates(path).len()];
    assert!(fs.open(path, flags, &probes, &Vec::new()).is_ok());
    fs.opened(path, flags, true).unwrap()
}

#[test]
fn open_unmounted_path_is_enoent() {
    let fs = FileSystem::new();
    assert_eq!(fs.open("/app0/anything", O_RDONLY, &Vec::new(), &Vec::new()).unwrap_err(), 2);
}

#[test]
fn open_rejects_dotdot_traversal() {
    let mut fs = FileSystem::new();
    fs.mount("/app0", 0);
    assert!(fs.candidates("/app0/../etc/passwd").is_empty());
    assert_eq!(
        fs.open("/app0/../etc/passwd", O_RDONLY, &Vec::new(), &Vec::new()).unwrap_err(),
        2
    );
}

#[test]
fn open_missing_file_is_enoent() {
    let mut fs = FileSystem::new();
    fs.mount("/app0", 0);
    let path = "/app0/task101-definitely-absent.xyz";
    assert!(fs.open(path, O_RDONLY, &vec![ABSENT], &Vec::new()).is_ok());
    assert_eq!(fs.opened(path, O_RDONLY, false), Err(2));
}

#[test]
fn close_bad_fd_is_ebadf() {
    let mut fs = FileSystem::new();
    assert_eq!(fs.close(999), Err(9));
}

#[test]
fn dotdot_inside_tree_resolves_to_parent() {
    let mut fs = FileSystem::new();
    fs.mount("/app0", 3);
    assert_eq!(places(&fs, "/app0/Content/Dialog/.."), vec![(3, names(&["Content"]))]);
}

#[test]
fn dotdot_normalizes_lexically() {
    let mut fs = FileSystem::new();
    fs.mount("/app0", 3);
    assert_eq!(
        places(&fs, "/app0/a/b/../c/leaf.txt"),
        vec![(3, names(&["a", "c", "leaf.txt"]))]
    );
}

#[test]
fn dotdot_escaping_mount_is_rejected() {
    let mut fs = FileSystem::new();
    fs.mount("/app0", 3);
    assert!(fs.candidates("/app0/../secret").is_empty());
    assert!(fs.candidates("/app0/a/../../secret").is_empty());
}

#[test]
fn mount_prefix_requires_component_boundary() {
    let mut fs = FileSystem::new();
    fs.mount("/app0", 0);
    fs.mount("/app0/data", 1);
    assert_eq!(places(&fs, "/app0/database.db"), vec![(0, names(&["database.db"]))]);
}

#[test]
fn mount_prefix_no_match_on_partial_component() {
    let mut fs = FileSystem::new();
    fs.mount("/app0", 0);
    assert!(fs.candidates("/app0abc").is_empty());
}

#[test]
fn symlink_escaping_sandbox_is_rejected() {
    let mut fs = FileSystem::new();
    fs.mount("/app0", 0);
    assert!(
        fs.open("/app0/escape/secret.txt", O_RDONLY, &vec![OUTSIDE], &Vec::new()).is_err(),
        "a symlink escaping the sandbox must be rejected"
    );
    assert!(fs.open("/app0/ok.txt", O_RDONLY, &vec![HERE], &Vec::new()).is_ok());
    assert!(
        fs.open("/app0/new.txt", O_WRONLY | O_CREAT, &vec![ABSENT], &Vec::new()).is_ok(),
        "creating a new in-sandbox file must work"
    );
}

#[test]
fn case_mismatch_resolves_to_real_file() {
    let mut fs = FileSystem::new();
    fs.mount("/app0", 0);
    let path = "/app0/Content/Dialog/english.txt.export";
    let found = fs.resolve(path, &vec![FOLDED], &Vec::new()).expect("case-insensitive resolution");
    assert_eq!(found.spelling, Spelling::Folded);
    assert_eq!(
        fold_match(&names(&["English.txt.export", "french.txt"]), "english.txt.export"),
        Some(0)
    );
}

#[test]
fn exact_case_does_not_scan() {
    let mut fs = FileSystem::new();
    fs.mount("/app0", 0);
    let both = Probe { contained: true, exists: true, folded: true };
    let found = fs.resolve("/app0/Sub/File.txt", &vec![both], &Vec::new()).unwrap();
    assert_eq!(found.spelling, Spelling::Exact);
    assert_eq!(found.candidate.components, names(&["Sub", "File.txt"]));
}

#[test]
fn create_fallback_keeps_exact_case() {
    let mut fs = FileSystem::new();
    fs.mount("/app0", 0);
    let (place, mode) = fs
        .open("/app0/NewSave.DAT", O_WRONLY | O_CREAT, &vec![ABSENT], &Vec::new())
        .unwrap();
    assert_eq!(place.spelling, Spelling::Exact);
    assert_eq!(place.candidate.components, names(&["NewSave.DAT"]));
    assert!(mode.create && mode.write && !mode.read);
}

#[test]
fn mounts_are_consulted_longest_first() {
    let mut fs = FileSystem::new();
    fs.mount("/app0", 0);
    fs.mount("/app0/data", 1);
    fs.mount("/app0", 2);
    assert_eq!(
        places(&fs, "/app0/data/x"),
        vec![(1, names(&["x"])), (0, names(&["data", "x"])), (2, names(&["data", "x"]))]
    );
    fs.unmount("/app0");
    assert_eq!(places(&fs, "/app0/data/x"), vec![(1, names(&["x"]))]);
    fs.unmount("/app0/data");
    assert!(fs.candidates("/app0/data/x").is_empty());
}

#[test]
fn what_exists_wins_over_what_could_be_created() {
    assert_eq!(decide(&vec![ABSENT, HERE]), Some((1, Spelling::Exact)));
    assert_eq!(decide(&vec![ABSENT, FOLDED, HERE]), Some((1, Spelling::Folded)));
    assert_eq!(decide(&vec![OUTSIDE, ABSENT, ABSENT]), Some((1, Spelling::Exact)));
    assert_eq!(decide(&vec![OUTSIDE]), None);
    assert_eq!(decide(&Vec::new()), None);
}

#[test]
fn relative_paths_lie_under_the_working_directory() {
    let mut fs = FileSystem::new();
    fs.mount("/app0", 0);
    assert!(fs.candidates("lib/x").is_empty());
    assert_eq!(fallback_path("././/lib/x").unwrap(), "/app0/lib/x");
    assert_eq!(fallback_path("lib/x").unwrap(), "/app0/lib/x");
    assert!(fallback_path("/lib").is_none());
    let found = fs.host_path("lib/x", &Vec::new(), &vec![HERE]).unwrap();
    assert_eq!(found.candidate.components, names(&["lib", "x"]));
    assert!(fs.resolve("/nowhere", &Vec::new(), &Vec::new()).is_none());
}

#[test]
fn directories_are_made_below_the_root_only() {
    let mut fs = FileSystem::new();
    fs.mount("/app0", 0);
    let none = Vec::new();
    assert_eq!(fs.mkdir("", &none, &vec![HERE]).unwrap_err(), 2);
    assert_eq!(fs.mkdir(".", &none, &vec![HERE]).unwrap_err(), 17);
    assert_eq!(fs.mkdir("./", &none, &vec![HERE]).unwrap_err(), 17);
    assert_eq!(fs.mkdir("/", &none, &none).unwrap_err(), 17);
    assert_eq!(fs.mkdir("/other/dir", &none, &none).unwrap_err(), 2);
    assert!(fs.mkdir("/app0/dir", &vec![ABSENT], &none).is_ok());
    assert_eq!(fs.rmdir("/x", &none, &none).unwrap_err(), 2);
    assert_eq!(fs.unlink("/x", &none, &none).unwrap_err(), 2);
    assert_eq!(fs.stat("/x", &none, &none).unwrap_err(), 2);
    assert!(fs.stat("/app0/a", &vec![HERE], &none).is_ok());
    assert_eq!(
        fs.rename("/app0/a", &vec![HERE], &none, "/x", &none, &none).unwrap_err(),
        2
    );
    assert!(fs.rename("/app0/a", &vec![HERE], &none, "/app0/b", &vec![ABSENT], &none).is_ok());
}

#[test]
fn flags_ask_for_a_mode() {
    let mode = open_mode(O_RDWR | O_CREAT | O_TRUNC | O_APPEND).unwrap();
    assert!(mode.read && mode.write && mode.create && mode.truncate && mode.append);
    let read = open_mode(O_RDONLY).unwrap();
    assert!(read.read && !read.write && !read.create && !read.truncate && !read.append);
    assert!(open_mode(3).is_none());
    let mut fs = FileSystem::new();
    fs.mount("/app0", 0);
    assert_eq!(fs.open("/app0/x", 3, &vec![HERE], &Vec::new()).unwrap_err(), 22);
}

#[test]
fn descriptors_know_what_they_may_do() {
    let mut fs = FileSystem::new();
    fs.mount("/app0", 0);
    let r = opened(&mut fs, "/app0/r", O_RDONLY);
    let w = opened(&mut fs, "/app0/w", O_WRONLY);
    assert_eq!((r, w), (3, 4));
    assert_eq!(fs.read(r), Ok(()));
    assert_eq!(fs.read(w), Err(9));
    assert_eq!(fs.read(99), Err(9));
    assert_eq!(fs.pwrite(r), Err(9));
    assert_eq!(fs.pwrite(w), Ok(()));
    assert_eq!(fs.write(1), Ok(true));
    assert_eq!(fs.write(2), Ok(true));
    assert_eq!(fs.write(w), Ok(false));
    assert_eq!(fs.write(r), Err(9));
    assert_eq!(fs.pread(w), Ok(()));
    assert_eq!(fs.fstat(99), Err(9));
    assert_eq!(fs.path_of(r).unwrap(), "/app0/r");
    assert_eq!(fs.close(r), Ok(0));
    assert_eq!(fs.close(r), Err(9));
    assert_eq!(opened(&mut fs, "/app0/again", O_RDONLY), 5);
}

#[test]
fn seeks_are_passed_on() {
    let mut fs = FileSystem::new();
    fs.mount("/app0", 0);
    let fd = opened(&mut fs, "/app0/r", O_RDONLY);
    assert_eq!(fs.lseek(fd, 7, 0), Ok(Seek::Start(7)));
    assert_eq!(fs.lseek(fd, -1, 0), Ok(Seek::Start(u64::MAX)));
    assert_eq!(fs.lseek(fd, i64::MIN, 0), Ok(Seek::Start(1 << 63)));
    assert_eq!(fs.lseek(fd, -7, 1), Ok(Seek::Current(-7)));
    assert_eq!(fs.lseek(fd, -7, 2), Ok(Seek::End(-7)));
    assert_eq!(fs.lseek(fd, 0, 3), Err(22));
    assert_eq!(fs.lseek(99, 0, 0), Err(9));
    assert_eq!(sought(None), Err(22));
    assert_eq!(sought(Some(9)), Ok(9));
    assert_eq!(transferred(None), Err(5));
    assert_eq!(transferred(Some(3)), Ok(3));
}

#[test]
fn host_errors_have_guest_numbers() {
    assert_eq!(io_errno(HostErrorKind::NotFound, Some(2)), 2);
    assert_eq!(io_errno(HostErrorKind::PermissionDenied, None), 13);
    assert_eq!(io_errno(HostErrorKind::AlreadyExists, None), 17);
    for (raw, want) in [(20, 20), (21, 21), (36, 63), (39, 66), (40, 62), (28, 5)] {
        assert_eq!(io_errno(HostErrorKind::Other, Some(raw)), want);
    }
    assert_eq!(io_errno(HostErrorKind::Other, None), 5);
}

/// Walk the records by their lengths.
fn parse_dents(buf: &[u8]) -> Vec<(u8, String)> {
    let mut out = Vec::new();
    let mut off = 0;
    while off < buf.len() {
        let reclen = u16::from_le_bytes([buf[off + 4], buf[off + 5]]) as usize;
        assert!(reclen >= 8 && off + reclen <= buf.len(), "reclen sane");
        let d_type = buf[off + 6];
        let namlen = buf[off + 7] as usize;
        let name = String::from_utf8_lossy(&buf[off + 8..off + 8 + namlen]).to_string();
        assert_eq!(buf[off + 8 + namlen], 0, "d_name NUL-terminated");
        out.push((d_type, name));
        off += reclen;
    }
    out
}

fn entry(name: &str, kind: EntryKind, inode: u64) -> HostEntry {
    HostEntry { name: name.to_string(), kind, inode }
}

#[test]
fn getdents_enumerates_dir_with_dot_entries() {
    let mut fs = FileSystem::new();
    fs.mount("/app0", 0);
    let fd = opened(&mut fs, "/app0", O_RDONLY);
    assert_eq!(fs.needs_listing(fd), Ok(true));
    fs.list(
        fd,
        vec![
            entry("alpha.txt", EntryKind::File, 77),
            entry("subdir", EntryKind::Directory, 0x1_0000_0001),
        ],
    );
    assert_eq!(fs.needs_listing(fd), Ok(false));

    let n = fs.getdents(fd, 4096).unwrap();
    assert!(!n.is_empty());
    let ents = parse_dents(&n);
    assert_eq!(ents[0], (4, ".".to_string()));
    assert_eq!(ents[1], (4, "..".to_string()));
    assert!(ents.contains(&(8, "alpha.txt".to_string())), "DT_REG file");
    assert!(ents.contains(&(4, "subdir".to_string())), "DT_DIR subdir");
    // The number of an entry is never that of a deleted one.
    assert_eq!(&n[32..36], &77u32.to_le_bytes());
    assert_eq!(&n[56..60], &2u32.to_le_bytes());

    assert_eq!(fs.getdents(fd, 4096).unwrap().len(), 0);
    assert_eq!(fs.needs_listing(99), Err(9));
    assert_eq!(fs.getdents(99, 10).unwrap_err(), 9);
}

#[test]
fn what_cannot_be_listed_is_an_error() {
    let mut fs = FileSystem::new();
    fs.mount("/app0", 0);
    let fd = opened(&mut fs, "/app0", O_RDONLY);
    assert_eq!(fs.listed(fd, Listing::Unresolved), Err(9));
    assert_eq!(fs.listed(fd, Listing::NotDirectory), Err(20));
    let failed = Listing::Failed { kind: HostErrorKind::PermissionDenied, raw: Some(13) };
    assert_eq!(fs.listed(fd, failed), Err(13));
    let failed = Listing::Failed { kind: HostErrorKind::Other, raw: Some(40) };
    assert_eq!(fs.listed(fd, failed), Err(62));
    assert_eq!(fs.listed(99, Listing::Entries(Vec::new())), Err(9));
    assert_eq!(fs.needs_listing(fd), Ok(true));
    let found = Listing::Entries(vec![entry("alpha.txt", EntryKind::File, 77)]);
    assert_eq!(fs.listed(fd, found), Ok(()));
    assert_eq!(fs.needs_listing(fd), Ok(false));
    let ents = parse_dents(&fs.getdents(fd, 4096).unwrap());
    assert_eq!(ents[2], (8, "alpha.txt".to_string()));
}

#[test]
fn getdents_tiny_buffer_is_einval() {
    let mut fs = FileSystem::new();
    fs.mount("/app0", 0);
    let fd = opened(&mut fs, "/app0", O_RDONLY);
    fs.list(fd, Vec::new());
    assert_eq!(fs.getdents(fd, 8).unwrap_err(), 22);
    assert_eq!(parse_dents(&fs.getdents(fd, 16).unwrap()), vec![(4, ".".to_string())]);
    assert_eq!(parse_dents(&fs.getdents(fd, 31).unwrap()), vec![(4, "..".to_string())]);
}

#[test]
fn long_names_are_cut() {
    let mut fs = FileSystem::new();
    fs.mount("/app0", 0);
    let fd = opened(&mut fs, "/app0", O_RDONLY);
    let long = "n".repeat(300);
    fs.list(
        fd,
        vec![entry(&long, EntryKind::Symlink, 5), entry("dev", EntryKind::Other, 6)],
    );
    let all = parse_dents(&fs.getdents(fd, 4096).unwrap());
    assert_eq!(all[2], (10, "n".repeat(255)));
    assert_eq!(all[3], (0, "dev".to_string()));
}

#[test]
fn names_are_matched_without_case() {
    assert_eq!(fold_match(&names(&["b", "FILE", "File"]), "file"), Some(1));
    assert_eq!(fold_match(&names(&["File", "FILE"]), "file"), Some(1));
    assert_eq!(fold_match(&names(&["files"]), "file"), None);
    assert_eq!(descend("file", true, None), Descent::Exact);
    assert_eq!(descend("file", false, Some(&names(&["b", "FILE"]))), Descent::Entry(1));
    assert_eq!(descend("file", false, Some(&names(&["b"]))), Descent::Stop);
    assert_eq!(descend("file", false, None), Descent::Stop);
    assert!(is_within(&names(&["a", "b", "c"]), &names(&["a", "b"])));
    assert!(!is_within(&names(&["a", "bc"]), &names(&["a", "b"])));
    assert!(!is_within(&names(&["a"]), &names(&["a", "b"])));
}

#[test]
fn paths_are_taken_apart() {
    assert!(mount_prefix_matches("/app0", "/app0"));
    assert!(mount_prefix_matches("/app0/x", "/app0/"));
    assert!(!mount_prefix_matches("/app", "/app0"));
    assert_eq!(relative_to("/app0///x/y", "/app0"), "x/y");
    assert_eq!(normalize_relative("a/./b//c").unwrap(), vec!["a", "b", "c"]);
    assert_eq!(normalize_relative("").unwrap(), Vec::<&str>::new());
    assert_eq!(normalize_relative("a/.."), Some(Vec::new()));
    assert!(normalize_relative("..").is_none());
    assert!(names_root("///"));
    assert!(names_root("."));
    assert!(!names_root("./a"));
}

#[test]
fn a_closed_descriptor_is_not_given_out_again() {
    let mut fs = FileSystem::new();
    assert_eq!(fs.opened("/app0/a", O_RDONLY, true), Ok(3));
    assert_eq!(fs.opened("/app0/b", O_RDONLY, true), Ok(4));
    assert_eq!(fs.close(3), Ok(0));
    assert_eq!(fs.opened("/app0/c", O_RDONLY, true), Ok(5));
    assert_eq!(fs.read(3), Err(9));
    assert_eq!(fs.path_of(4).as_deref(), Some("/app0/b"));
    assert_eq!(fs.close(3), Err(9));
}

#[test]
fn a_path_keeps_its_names_but_for_those_undone() {
    assert_eq!(normalize_relative("a/b/../c/./d/../..").unwrap(), vec!["a"]);
    assert_eq!(normalize_relative("a/b/../../c").unwrap(), vec!["c"]);
    assert!(normalize_relative("a/../../b/c").is_none());
    let kept = normalize_relative("x//y/./../z").unwrap();
    assert_eq!(kept, vec!["x", "z"]);
    assert_eq!(normalize_relative(&kept.join("/")).unwrap(), kept);
}
