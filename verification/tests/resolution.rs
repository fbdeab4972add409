use std::collections::{HashMap, HashSet};

use rldd_rex::elf::{ElfArch, ElfMetadata, ElfType, EM_386, EM_X86_64, ET_DYN, ET_EXEC};
use rldd_rex::notes::Warning;
use rldd_rex::report::{report, Config, PlatformConfigKind, RlddRexInfo};
use rldd_rex::request::Request;
use rldd_rex::resolver::{Resolution, Walk, MAX_DEPTH};
use rldd_rex::session::{rldd_rex, Phase, Session};

/// A file system for the tests: what is where, and what each path resolves to.
struct Files {
    files: HashMap<String, ((u64, u64), Option<ElfMetadata>)>,
    dirs: HashSet<String>,
    texts: HashMap<String, String>,
    canon: HashMap<String, String>,
    globs: HashMap<String, Option<Vec<String>>>,
    next_id: u64,
    asked: Vec<Request>,
}

impl Files {
    fn new() -> Files {
        Files {
            files: HashMap::new(),
            dirs: HashSet::new(),
            texts: HashMap::new(),
            canon: HashMap::new(),
            globs: HashMap::new(),
            next_id: 100,
            asked: Vec::new(),
        }
    }

    fn elf(&mut self, path: &str, meta: ElfMetadata) {
        self.next_id += 1;
        self.files.insert(path.to_string(), ((1, self.next_id), Some(meta)));
    }

    fn plain(&mut self, path: &str) {
        self.next_id += 1;
        self.files.insert(path.to_string(), ((1, self.next_id), None));
    }

    fn link(&mut self, path: &str, target: &str) {
        let entry = self.files.get(target).cloned().unwrap();
        self.files.insert(path.to_string(), entry);
        self.canon.insert(path.to_string(), target.to_string());
    }

    fn canonical(&self, path: &str) -> Option<String> {
        if let Some(to) = self.canon.get(path) {
            Some(to.clone())
        } else if self.files.contains_key(path) || self.dirs.contains(path) {
            Some(path.to_string())
        } else {
            None
        }
    }

    fn probes(&self) -> Vec<String> {
        self.asked
            .iter()
            .filter_map(|r| match r {
                Request::Exists(p) => Some(p.clone()),
                _ => None,
            })
            .collect()
    }
}

fn strings(items: &[&str]) -> Vec<String> {
    items.iter().map(|s| s.to_string()).collect()
}

fn lib(needed: &[&str]) -> ElfMetadata {
    ElfMetadata {
        is_64: true,
        e_type: ET_DYN,
        e_machine: EM_X86_64,
        has_dynamic: true,
        interpreter: None,
        libraries: strings(needed),
        rpaths: Vec::new(),
        runpaths: Vec::new(),
    }
}

fn exe(needed: &[&str], interpreter: &str) -> ElfMetadata {
    ElfMetadata { e_type: ET_EXEC, interpreter: Some(interpreter.to_string()), ..lib(needed) }
}

fn plain_config() -> Config {
    Config {
        use_environment_search_paths: false,
        enforce_arch_match: false,
        platform_config_kind: PlatformConfigKind::Absent,
        solaris_directories: false,
    }
}

fn drive_walk(walk: &mut Walk, fs: &mut Files) -> usize {
    let mut steps = 0;
    while !walk.is_done() {
        let request = walk.pending();
        fs.asked.push(request.clone());
        match request {
            Request::Identify(p) => walk.identified(fs.files.get(&p).map(|f| f.0)),
            Request::Exists(p) => walk.probed(fs.files.contains_key(&p)),
            Request::Load(p) => walk.inspected(fs.files.get(&p).and_then(|f| f.1.clone())),
            other => panic!("a walk asked {:?}", other),
        }
        steps += 1;
        assert!(steps < 1_000_000);
    }
    assert_eq!(walk.pending(), Request::Done);
    steps
}

fn drive(session: &mut Session, fs: &mut Files) -> usize {
    let mut steps = 0;
    while !session.is_done() {
        let request = session.pending();
        fs.asked.push(request.clone());
        match request {
            Request::Canonicalize(p) => session.canonicalized(fs.canonical(&p)),
            Request::ReadText(p) => session.text_read(fs.texts.get(&p).map(|t| t.as_str())),
            Request::Glob(p) => session.globbed(fs.globs.get(&p).cloned().unwrap_or(Some(Vec::new()))),
            Request::IsDir(p) => session.dir_checked(fs.dirs.contains(&p)),
            Request::Identify(p) => session.identified(fs.files.get(&p).map(|f| f.0)),
            Request::Exists(p) => session.probed(fs.files.contains_key(&p)),
            Request::Load(p) => session.inspected(fs.files.get(&p).and_then(|f| f.1.clone())),
            Request::Done => panic!("a session that is not over asked for nothing"),
        }
        steps += 1;
        assert!(steps < 1_000_000);
    }
    assert_eq!(session.pending(), Request::Done);
    steps
}

fn resolve(path: &str, fs: &mut Files, config: Config, env: Option<&str>) -> RlddRexInfo {
    let meta = fs.files.get(path).and_then(|f| f.1.clone());
    let mut session = Session::begin(path, meta, config, env);
    drive(&mut session, fs);
    session.report()
}

fn walked(path: &str, fs: &mut Files, dirs: &[&str], enforce: bool) -> Walk {
    let meta = fs.files.get(path).and_then(|f| f.1.clone()).unwrap();
    let arch = meta.arch();
    let mut walk = Walk::new(path.to_string(), meta, arch, strings(dirs), enforce, None);
    drive_walk(&mut walk, fs);
    walk
}

fn walk_from(path: &str, fs: &mut Files, dirs: &[&str], enforce: bool) -> Vec<(String, String)> {
    let walk = walked(path, fs, dirs, enforce);
    report(ElfArch::Unknown, ElfType::Invalid, walk.names_met(), walk.deps()).deps
}

fn found(name: &str, path: &str) -> (String, String) {
    (name.to_string(), path.to_string())
}

fn missing(name: &str) -> (String, String) {
    (name.to_string(), "not found".to_string())
}

fn pair(name: &str, status: &str) -> (String, String) {
    (name.to_string(), status.to_string())
}

#[test]
fn a_cycle_of_dependencies_ends() {
    let mut fs = Files::new();
    fs.elf("/app", lib(&["liba.so"]));
    fs.elf("/lib/liba.so", lib(&["libb.so"]));
    fs.elf("/lib/libb.so", lib(&["liba-again.so", "liba.so"]));
    fs.link("/lib/liba-again.so", "/lib/liba.so");
    let deps = walk_from("/app", &mut fs, &["/lib"], false);
    assert_eq!(
        deps,
        vec![
            found("liba.so", "/lib/liba.so"),
            found("libb.so", "/lib/libb.so"),
            found("liba-again.so", "/lib/liba-again.so"),
        ]
    );
    // the file behind both names was entered once
    let identified: Vec<&Request> =
        fs.asked.iter().filter(|r| matches!(r, Request::Identify(_))).collect();
    assert_eq!(identified.len(), 4);
}

#[test]
fn names_are_recorded_when_their_files_are_done_with() {
    let mut fs = Files::new();
    fs.elf("/app", lib(&["liba.so", "libd.so"]));
    fs.elf("/lib/liba.so", lib(&["libb.so", "libc.so"]));
    fs.elf("/lib/libb.so", lib(&[]));
    fs.elf("/lib/libd.so", lib(&["libb.so"]));
    let walk = walked("/app", &mut fs, &["/lib"], false);
    assert_eq!(walk.names_met(), &strings(&["liba.so", "libb.so", "libc.so", "libd.so"]));
    assert_eq!(
        walk.deps(),
        &vec![
            ("libb.so".to_string(), Resolution::Path("/lib/libb.so".to_string())),
            ("libc.so".to_string(), Resolution::NotFound),
            ("liba.so".to_string(), Resolution::Path("/lib/liba.so".to_string())),
            ("libd.so".to_string(), Resolution::Path("/lib/libd.so".to_string())),
        ]
    );
    assert_eq!(
        report(ElfArch::Elf64, ElfType::Pie, walk.names_met(), walk.deps()).deps,
        vec![
            found("liba.so", "/lib/liba.so"),
            found("libb.so", "/lib/libb.so"),
            missing("libc.so"),
            found("libd.so", "/lib/libd.so"),
        ]
    );
}

#[test]
fn a_binary_that_needs_itself_ends() {
    let mut fs = Files::new();
    fs.elf("/lib/libself.so", lib(&["libself.so", "libother.so"]));
    fs.link("/lib/libother.so", "/lib/libself.so");
    let deps = walk_from("/lib/libself.so", &mut fs, &["/lib"], false);
    assert_eq!(
        deps,
        vec![found("libself.so", "/lib/libself.so"), found("libother.so", "/lib/libother.so")]
    );
}

#[test]
fn a_name_needed_twice_is_reported_once() {
    let mut fs = Files::new();
    fs.elf("/app", lib(&["libx.so", "liby.so", "libz.so"]));
    fs.elf("/first/libx.so", lib(&["libz.so"]));
    fs.elf("/first/liby.so", lib(&["libz.so", "libx.so"]));
    fs.elf("/first/libz.so", lib(&[]));
    fs.elf("/second/libz.so", lib(&[]));
    let deps = walk_from("/app", &mut fs, &["/first", "/second"], false);
    assert_eq!(
        deps,
        vec![
            found("libx.so", "/first/libx.so"),
            found("libz.so", "/first/libz.so"),
            found("liby.so", "/first/liby.so"),
        ]
    );
}

#[test]
fn the_first_resolution_of_a_name_stands() {
    // libz.so is met first from libx.so, whose own directory holds it; the
    // later dependents share that resolution
    let mut fs = Files::new();
    fs.elf("/app", lib(&["libx.so", "liby.so"]));
    let mut x = lib(&["libz.so"]);
    x.runpaths = strings(&["/private"]);
    fs.elf("/lib/libx.so", x);
    fs.elf("/lib/liby.so", lib(&["libz.so"]));
    fs.elf("/private/libz.so", lib(&[]));
    fs.elf("/lib/libz.so", lib(&[]));
    let deps = walk_from("/app", &mut fs, &["/lib"], false);
    assert_eq!(
        deps,
        vec![
            found("libx.so", "/lib/libx.so"),
            found("libz.so", "/private/libz.so"),
            found("liby.so", "/lib/liby.so"),
        ]
    );
}

#[test]
fn own_directories_come_before_global_ones() {
    let mut fs = Files::new();
    let mut app = lib(&["libdup.so"]);
    app.rpaths = strings(&["/opt/app/lib"]);
    fs.elf("/opt/app/bin/app", app);
    fs.elf("/opt/app/lib/libdup.so", lib(&[]));
    fs.elf("/usr/lib/libdup.so", lib(&[]));
    let deps = walk_from("/opt/app/bin/app", &mut fs, &["/usr/lib"], false);
    assert_eq!(deps, vec![found("libdup.so", "/opt/app/lib/libdup.so")]);
    assert_eq!(fs.probes(), strings(&["/opt/app/lib/libdup.so"]));
}

#[test]
fn candidates_are_asked_in_the_order_of_the_search() {
    let mut fs = Files::new();
    let mut app = lib(&["libq.so"]);
    app.rpaths = strings(&["/r1", "/r2"]);
    app.runpaths = strings(&["/u1"]);
    fs.elf("/app", app);
    fs.elf("/g2/libq.so", lib(&[]));
    fs.elf("/g3/libq.so", lib(&[]));
    let deps = walk_from("/app", &mut fs, &["/g1", "/g2", "/g3"], false);
    assert_eq!(deps, vec![found("libq.so", "/g2/libq.so")]);
    assert_eq!(
        fs.probes(),
        strings(&["/r1/libq.so", "/r2/libq.so", "/u1/libq.so", "/g1/libq.so", "/g2/libq.so"])
    );
}

#[test]
fn origin_is_the_directory_of_each_binary_in_turn() {
    let mut fs = Files::new();
    let mut app = lib(&["libone.so"]);
    app.rpaths = strings(&["$ORIGIN/../lib"]);
    fs.elf("/opt/app/bin/app", app);
    let mut one = lib(&["libtwo.so"]);
    one.runpaths = strings(&["$ORIGIN/plugins"]);
    fs.elf("/opt/app/bin/../lib/libone.so", one);
    fs.elf("/opt/app/bin/../lib/plugins/libtwo.so", lib(&[]));
    let deps = walk_from("/opt/app/bin/app", &mut fs, &["/usr/lib"], false);
    assert_eq!(
        deps,
        vec![
            found("libone.so", "/opt/app/bin/../lib/libone.so"),
            found("libtwo.so", "/opt/app/bin/../lib/plugins/libtwo.so"),
        ]
    );
}

#[test]
fn a_library_that_is_nowhere_is_not_found_once() {
    let mut fs = Files::new();
    let mut app = lib(&["libgone.so", "libx.so", "libgone.so"]);
    app.rpaths = strings(&["/own"]);
    fs.elf("/app", app);
    fs.elf("/lib/libx.so", lib(&["libgone.so", "libalso.so"]));
    let deps = walk_from("/app", &mut fs, &["/lib", "/usr/lib"], false);
    assert_eq!(
        deps,
        vec![missing("libgone.so"), found("libx.so", "/lib/libx.so"), missing("libalso.so")]
    );
    let gone: Vec<String> = fs.probes().into_iter().filter(|p| p.ends_with("libgone.so")).collect();
    assert_eq!(gone, strings(&["/own/libgone.so", "/lib/libgone.so", "/usr/lib/libgone.so"]));
}

#[test]
fn with_no_directory_everything_is_not_found() {
    let mut fs = Files::new();
    fs.elf("/app", lib(&["liba.so", "libb.so", "liba.so"]));
    let deps = walk_from("/app", &mut fs, &[], false);
    assert_eq!(deps, vec![missing("liba.so"), missing("libb.so")]);
    assert_eq!(fs.probes(), Vec::<String>::new());
}

#[test]
fn a_binary_without_needs_has_no_dependencies() {
    let mut fs = Files::new();
    fs.elf("/app", lib(&[]));
    assert_eq!(walk_from("/app", &mut fs, &["/lib"], false), Vec::new());
}

#[test]
fn a_root_without_identity_is_a_leaf() {
    let mut fs = Files::new();
    let meta = lib(&["liba.so"]);
    let mut walk = Walk::new("/vanished".to_string(), meta, ElfArch::Elf64, strings(&["/lib"]), false, None);
    assert_eq!(walk.pending(), Request::Identify("/vanished".to_string()));
    // answers of the wrong kind change nothing
    walk.probed(true);
    walk.inspected(None);
    assert_eq!(walk.pending(), Request::Identify("/vanished".to_string()));
    drive_walk(&mut walk, &mut fs);
    assert!(walk.deps().is_empty());
    assert_eq!(walk.warnings(), &vec![Warning::NoIdentity("/vanished".to_string())]);
    walk.identified(Some((1, 1)));
    assert!(walk.is_done());
}

#[test]
fn a_file_that_is_no_elf_is_reported_with_its_path() {
    let mut fs = Files::new();
    fs.elf("/app", lib(&["libtext.so", "libreal.so"]));
    fs.plain("/lib/libtext.so");
    fs.elf("/lib/libreal.so", lib(&[]));
    let deps = walk_from("/app", &mut fs, &["/lib"], false);
    assert_eq!(
        deps,
        vec![found("libtext.so", "/lib/libtext.so"), found("libreal.so", "/lib/libreal.so")]
    );
}

#[test]
fn another_word_size_is_a_mismatch_where_enforced() {
    let mut fs = Files::new();
    fs.elf("/app", lib(&["lib32.so", "lib64.so"]));
    let mut narrow = lib(&["libinner.so"]);
    narrow.is_64 = false;
    narrow.e_machine = EM_386;
    fs.elf("/lib/lib32.so", narrow);
    fs.elf("/lib/lib64.so", lib(&[]));
    fs.elf("/lib/libinner.so", lib(&[]));
    let deps = walk_from("/app", &mut fs, &["/lib"], true);
    assert_eq!(
        deps,
        vec![pair("lib32.so", "arch mismatch"), found("lib64.so", "/lib/lib64.so")]
    );
    let mut again = Files::new();
    again.files = fs.files.clone();
    let deps = walk_from("/app", &mut again, &["/lib"], false);
    assert_eq!(
        deps,
        vec![
            found("lib32.so", "/lib/lib32.so"),
            found("libinner.so", "/lib/libinner.so"),
            found("lib64.so", "/lib/lib64.so"),
        ]
    );
}

#[test]
fn the_walk_stops_at_the_depth_limit() {
    assert_eq!(MAX_DEPTH, 512);
    let mut fs = Files::new();
    fs.elf("/app", lib(&["lib1.so"]));
    for k in 1..600 {
        let next = format!("lib{}.so", k + 1);
        fs.elf(&format!("/lib/lib{}.so", k), lib(&[next.as_str()]));
    }
    let walk = walked("/app", &mut fs, &["/lib"], false);
    assert_eq!(walk.warnings(), &vec![Warning::TooDeep("/lib/lib513.so".to_string())]);
    let deps = report(ElfArch::Elf64, ElfType::Dynamic, walk.names_met(), walk.deps()).deps;
    assert_eq!(deps.len(), 513);
    assert_eq!(deps[0], found("lib1.so", "/lib/lib1.so"));
    assert_eq!(deps[511], found("lib512.so", "/lib/lib512.so"));
    assert_eq!(deps[512], found("lib513.so", "/lib/lib513.so"));
    let frames = fs.asked.iter().filter(|r| matches!(r, Request::Identify(_))).count();
    assert_eq!(frames, 513);
}

#[test]
fn a_file_that_cannot_be_read_yields_the_neutral_report() {
    let session = rldd_rex("filenotfound", None, plain_config(), None);
    assert_eq!(session.warnings(), vec![Warning::Unreadable("filenotfound".to_string())]);
    assert!(session.is_done());
    assert_eq!(session.pending(), Request::Done);
    let info = session.report();
    assert_eq!(info.arch, ElfArch::Unknown);
    assert_eq!(info.elf_type, ElfType::Invalid);
    assert!(info.deps.is_empty());
}

#[test]
fn a_file_that_is_no_elf_yields_the_neutral_report() {
    for bytes in [&b""[..], &b"NAME=\"Linux\"\nID=linux\n"[..], &b"\x7fELF"[..], &[0u8; 64][..]] {
        let mut session = rldd_rex("/etc/os-release", Some(bytes), plain_config(), Some("/x"));
        assert_eq!(session.warnings(), vec![Warning::NotElf("/etc/os-release".to_string())]);
        assert!(session.is_done());
        session.canonicalized(Some("/nowhere".to_string()));
        session.probed(true);
        session.text_read(Some("/lib"));
        assert!(session.is_done());
        let info = session.report();
        assert_eq!(info.arch, ElfArch::Unknown);
        assert_eq!(info.elf_type, ElfType::Invalid);
        assert!(info.deps.is_empty());
    }
}

fn header64(e_type: u16, e_machine: u16, phnum: u16) -> Vec<u8> {
    let mut b = vec![0x7f, b'E', b'L', b'F', 2, 1, 1, 0, 0, 0, 0, 0, 0, 0, 0, 0];
    b.extend_from_slice(&e_type.to_le_bytes());
    b.extend_from_slice(&e_machine.to_le_bytes());
    b.extend_from_slice(&1u32.to_le_bytes());
    b.extend_from_slice(&0u64.to_le_bytes());
    b.extend_from_slice(&(if phnum > 0 { 64u64 } else { 0u64 }).to_le_bytes());
    b.extend_from_slice(&0u64.to_le_bytes());
    b.extend_from_slice(&0u32.to_le_bytes());
    b.extend_from_slice(&64u16.to_le_bytes());
    b.extend_from_slice(&56u16.to_le_bytes());
    b.extend_from_slice(&phnum.to_le_bytes());
    b.extend_from_slice(&64u16.to_le_bytes());
    b.extend_from_slice(&0u16.to_le_bytes());
    b.extend_from_slice(&0u16.to_le_bytes());
    assert_eq!(b.len(), 64);
    b
}

fn header32(e_type: u16, e_machine: u16) -> Vec<u8> {
    let mut b = vec![0x7f, b'E', b'L', b'F', 1, 1, 1, 0, 0, 0, 0, 0, 0, 0, 0, 0];
    b.extend_from_slice(&e_type.to_le_bytes());
    b.extend_from_slice(&e_machine.to_le_bytes());
    b.extend_from_slice(&1u32.to_le_bytes());
    b.extend_from_slice(&0u32.to_le_bytes());
    b.extend_from_slice(&0u32.to_le_bytes());
    b.extend_from_slice(&0u32.to_le_bytes());
    b.extend_from_slice(&0u32.to_le_bytes());
    b.extend_from_slice(&52u16.to_le_bytes());
    b.extend_from_slice(&32u16.to_le_bytes());
    b.extend_from_slice(&0u16.to_le_bytes());
    b.extend_from_slice(&40u16.to_le_bytes());
    b.extend_from_slice(&0u16.to_le_bytes());
    b.extend_from_slice(&0u16.to_le_bytes());
    assert_eq!(b.len(), 52);
    b
}

fn segment(kind: u32, offset: u64, size: u64) -> Vec<u8> {
    let mut b = Vec::new();
    b.extend_from_slice(&kind.to_le_bytes());
    b.extend_from_slice(&4u32.to_le_bytes());
    for v in [offset, offset, offset, size, size, 1u64] {
        b.extend_from_slice(&v.to_le_bytes());
    }
    assert_eq!(b.len(), 56);
    b
}

/// The bytes of a 64-bit little-endian ELF file with an interpreter and a
/// dynamic section that declares the given names and search paths.
fn image64(e_type: u16, interp: Option<&str>, needed: &[&str], rpaths: &[&str], runpaths: &[&str]) -> Vec<u8> {
    let phnum: u16 = if interp.is_some() { 3 } else { 2 };
    let mut body: Vec<u8> = Vec::new();
    let base = 64 + 56 * phnum as u64;
    let interp_at = base;
    if let Some(i) = interp {
        body.extend_from_slice(i.as_bytes());
        body.push(0);
    }
    let interp_size = body.len() as u64;
    let strtab_at = base + body.len() as u64;
    let mut strtab: Vec<u8> = vec![0];
    let mut entries: Vec<(u64, u64)> = Vec::new();
    for (tag, names) in [(1u64, needed), (15u64, rpaths), (29u64, runpaths)] {
        for n in names.iter() {
            entries.push((tag, strtab.len() as u64));
            strtab.extend_from_slice(n.as_bytes());
            strtab.push(0);
        }
    }
    entries.push((5, strtab_at));
    entries.push((10, strtab.len() as u64));
    entries.push((0, 0));
    body.extend_from_slice(&strtab);
    while (base + body.len() as u64) % 8 != 0 {
        body.push(0);
    }
    let dynamic_at = base + body.len() as u64;
    for (tag, value) in entries.iter() {
        body.extend_from_slice(&tag.to_le_bytes());
        body.extend_from_slice(&value.to_le_bytes());
    }
    let total = base + body.len() as u64;
    let mut b = header64(e_type, EM_X86_64, phnum);
    b.extend_from_slice(&segment(1, 0, total));
    if interp.is_some() {
        b.extend_from_slice(&segment(3, interp_at, interp_size));
    }
    b.extend_from_slice(&segment(2, dynamic_at, 16 * entries.len() as u64));
    b.extend_from_slice(&body);
    assert_eq!(b.len() as u64, total);
    b
}

#[test]
fn the_bytes_of_a_static_executable_are_read() {
    let bytes = header64(ET_EXEC, EM_X86_64, 0);
    let mut fs = Files::new();
    fs.plain("/sbin/static");
    let mut session = rldd_rex("/sbin/static", Some(&bytes), plain_config(), None);
    assert!(!session.is_done());
    drive(&mut session, &mut fs);
    let info = session.report();
    assert_eq!(info.arch, ElfArch::Elf64);
    assert_eq!(info.elf_type, ElfType::Static);
    assert!(info.deps.is_empty());
}

#[test]
fn the_bytes_of_a_32_bit_file_are_read() {
    let bytes = header32(ET_DYN, EM_386);
    let mut fs = Files::new();
    fs.plain("/lib/lib32.so");
    let mut session = rldd_rex("/lib/lib32.so", Some(&bytes), plain_config(), None);
    drive(&mut session, &mut fs);
    let info = session.report();
    assert_eq!(info.arch, ElfArch::Elf32);
    assert_eq!(info.elf_type, ElfType::Dynamic);
    assert!(info.deps.is_empty());
    let probes_of_32 = fs.asked.clone();
    assert!(probes_of_32.contains(&Request::Canonicalize("/lib32".to_string())));
    assert!(probes_of_32.contains(&Request::Canonicalize("/usr/lib/i386-linux-gnu".to_string())));
}

#[test]
fn the_bytes_of_a_dynamic_executable_are_read() {
    let bytes = image64(
        ET_DYN,
        Some("/lib64/ld-linux-x86-64.so.2"),
        &["libfoo.so.1", "libbar.so"],
        &["$ORIGIN/../lib"],
        &["/opt/run"],
    );
    let mut fs = Files::new();
    fs.plain("/opt/app/bin/app");
    fs.elf("/opt/run/libbar.so", lib(&[]));
    let mut session = rldd_rex("/opt/app/bin/app", Some(&bytes), plain_config(), None);
    drive(&mut session, &mut fs);
    let info = session.report();
    assert_eq!(info.arch, ElfArch::Elf64);
    assert_eq!(info.elf_type, ElfType::Pie);
    assert_eq!(
        info.deps,
        vec![pair("libfoo.so.1", "not found"), pair("libbar.so", "/opt/run/libbar.so")]
    );
    let probes = fs.probes();
    assert_eq!(probes[0], "/opt/app/bin/../lib/libfoo.so.1");
    assert_eq!(probes[1], "/opt/run/libfoo.so.1");
    assert_eq!(probes[2], "/lib/libfoo.so.1");
}

#[test]
fn the_bytes_of_a_library_are_read_during_the_walk() {
    let child = image64(ET_DYN, None, &["libleaf.so"], &[], &["$ORIGIN/sub"]);
    let mut fs = Files::new();
    fs.plain("/app");
    fs.plain("/lib/libmid.so");
    fs.elf("/lib/sub/libleaf.so", lib(&[]));
    let mut session = Session::begin("/app", Some(exe(&["libmid.so"], "/lib64/ld-linux-x86-64.so.2")), plain_config(), None);
    let mut steps = 0;
    while !session.is_done() {
        match session.pending() {
            Request::Canonicalize(p) => session.canonicalized(fs.canonical(&p)),
            Request::Identify(p) => session.identified(fs.files.get(&p).map(|f| f.0)),
            Request::Exists(p) => session.probed(fs.files.contains_key(&p)),
            Request::Load(p) => {
                if p == "/lib/libmid.so" {
                    session.loaded(Some(&child));
                } else if fs.files.contains_key(&p) {
                    session.inspected(fs.files.get(&p).and_then(|f| f.1.clone()));
                } else {
                    session.loaded(None);
                }
            }
            other => panic!("asked {:?}", other),
        }
        steps += 1;
        assert!(steps < 10_000);
    }
    assert_eq!(
        session.report().deps,
        vec![pair("libmid.so", "/lib/libmid.so"), pair("libleaf.so", "/lib/sub/libleaf.so")]
    );
}

#[test]
fn the_musl_loader_is_reported_first() {
    let mut fs = Files::new();
    fs.elf("/app", exe(&["libc.musl-x86_64.so.1", "libz.so.1"], "/lib/ld-musl-x86_64.so.1"));
    fs.elf("/lib/libc.musl-x86_64.so.1", lib(&[]));
    fs.link("/lib/ld-musl-x86_64.so.1", "/lib/libc.musl-x86_64.so.1");
    fs.elf("/usr/lib/libz.so.1", lib(&["libc.musl-x86_64.so.1", "ld-musl-x86_64.so.1"]));
    fs.texts.insert("/etc/ld-musl-x86_64.path".to_string(), "/lib\n/usr/local/lib\n/usr/lib\n".to_string());
    let info = resolve("/app", &mut fs, plain_config(), None);
    assert_eq!(info.elf_type, ElfType::Dynamic);
    assert_eq!(
        info.deps,
        vec![
            pair("ld-musl-x86_64.so.1", "/lib/libc.musl-x86_64.so.1"),
            pair("libc.musl-x86_64.so.1", "/lib/libc.musl-x86_64.so.1"),
            pair("libz.so.1", "/usr/lib/libz.so.1"),
        ]
    );
    assert_eq!(fs.asked[0], Request::Canonicalize("/lib/ld-musl-x86_64.so.1".to_string()));
    let mut again = Session::begin("/app", fs.files["/app"].1.clone(), plain_config(), None);
    assert!(again.warnings().is_empty());
    drive(&mut again, &mut fs);
    assert!(again.warnings().is_empty());
    assert_eq!(fs.asked[1], Request::ReadText("/etc/ld-musl-x86_64.path".to_string()));
}

#[test]
fn a_musl_loader_that_is_not_there_is_reported_as_named() {
    let mut fs = Files::new();
    fs.elf("/opt/x/app", exe(&[], "/opt/musl/ld-musl-armhf.so.1"));
    let mut session =
        Session::begin("/opt/x/app", fs.files["/opt/x/app"].1.clone(), plain_config(), None);
    assert_eq!(session.pending(), Request::Canonicalize("/opt/musl/ld-musl-armhf.so.1".to_string()));
    session.canonicalized(None);
    assert_eq!(
        session.report().deps,
        vec![pair("ld-musl-armhf.so.1", "/opt/musl/ld-musl-armhf.so.1")]
    );
    drive(&mut session, &mut fs);
    assert_eq!(
        session.report().deps,
        vec![pair("ld-musl-armhf.so.1", "/opt/musl/ld-musl-armhf.so.1")]
    );
    // a musl binary gets the path file and no defaults of its word size
    assert!(!fs.asked.contains(&Request::Canonicalize("/lib64".to_string())));
    assert!(!fs.asked.contains(&Request::Canonicalize("/lib/x86_64-linux-gnu".to_string())));
    assert!(fs.asked.contains(&Request::Canonicalize("/usr/libexec".to_string())));
    assert!(fs.asked.contains(&Request::Canonicalize("/opt/x/lib64".to_string())));
}

#[test]
fn a_musl_loader_without_a_name_is_reported_by_its_path() {
    let mut fs = Files::new();
    fs.elf("/opt/x/app", exe(&[], "/opt/musl/.."));
    let mut session =
        Session::begin("/opt/x/app", fs.files["/opt/x/app"].1.clone(), plain_config(), None);
    session.canonicalized(Some("/opt".to_string()));
    drive(&mut session, &mut fs);
    assert_eq!(session.report().deps, vec![pair("/opt/musl/..", "/opt")]);
}

#[test]
fn the_search_is_composed_in_order_and_without_repeats() {
    let mut fs = Files::new();
    fs.elf("/opt/app/bin/app", exe(&["libnone.so"], "/lib64/ld-linux-x86-64.so.2"));
    for d in ["/lib", "/usr/lib", "/lib64", "/usr/lib64", "/opt/app/bin", "/opt/app/lib", "/opt/conf", "/opt/more", "/env"] {
        fs.dirs.insert(d.to_string());
    }
    // /lib is a link to /usr/lib, and /lib64 to /usr/lib64
    fs.canon.insert("/lib".to_string(), "/usr/lib".to_string());
    fs.canon.insert("/lib64".to_string(), "/usr/lib64".to_string());
    fs.texts.insert(
        "/etc/ld.so.conf".to_string(),
        "include /etc/ld.so.conf.d/*.conf\n/opt/conf\n# a comment\n\n/opt/gone\n/opt/more\n".to_string(),
    );
    fs.globs.insert("/etc/ld.so.conf.d/*.conf".to_string(), Some(strings(&["/etc/ld.so.conf.d/x.conf"])));
    fs.texts.insert("/etc/ld.so.conf.d/x.conf".to_string(), "/opt/more\ninclude [\n".to_string());
    fs.globs.insert("[".to_string(), None);
    let config = Config {
        use_environment_search_paths: true,
        enforce_arch_match: false,
        platform_config_kind: PlatformConfigKind::GlibcStyle,
        solaris_directories: false,
    };
    let info = resolve("/opt/app/bin/app", &mut fs, config, Some("/env:"));
    assert_eq!(info.arch, ElfArch::Elf64);
    assert_eq!(info.elf_type, ElfType::Dynamic);
    assert_eq!(info.deps, vec![pair("libnone.so", "not found")]);
    let dirs: Vec<String> = fs.probes().into_iter().map(|p| p.trim_end_matches("/libnone.so").to_string()).collect();
    assert_eq!(
        dirs,
        strings(&[
            "/usr/lib",
            "/usr/local/lib",
            "/usr/libexec",
            "/libexec",
            "/env",
            ".",
            "/opt/more",
            "/opt/conf",
            "/usr/lib64",
            "/lib/x86_64-linux-gnu",
            "/usr/lib/x86_64-linux-gnu",
            "/opt/app/bin",
            "/opt/app/bin/lib",
            "/opt/app/bin/lib64",
            "/opt/app/bin/libs",
            "/opt/app/lib",
            "/opt/app/lib64",
            "/opt/app/libs",
        ])
    );
}

#[test]
fn a_session_notes_what_it_passes_over() {
    let mut fs = Files::new();
    fs.elf("/opt/x/app", exe(&["libdeep.so"], "/lib64/ld-linux-x86-64.so.2"));
    fs.texts.insert("/etc/ld.so.conf".to_string(), "include [\ninclude /etc/conf.d/*\n".to_string());
    fs.globs.insert("[".to_string(), None);
    fs.globs.insert("/etc/conf.d/*".to_string(), Some(strings(&["/etc/conf.d/self.conf"])));
    fs.texts.insert("/etc/conf.d/self.conf".to_string(), "include /etc/conf.d/*\n".to_string());
    let config = Config { platform_config_kind: PlatformConfigKind::GlibcStyle, ..plain_config() };
    let mut session =
        Session::begin("/opt/x/app", fs.files["/opt/x/app"].1.clone(), config, None);
    let steps = drive(&mut session, &mut fs);
    assert!(steps < 10_000);
    assert_eq!(
        session.warnings(),
        vec![
            Warning::MalformedPattern("[".to_string()),
            Warning::IncludeLimit("/etc/conf.d/*".to_string()),
        ]
    );
    assert_eq!(session.report().deps, vec![pair("libdeep.so", "not found")]);

    let mut musl = Files::new();
    musl.elf("/opt/x/app", exe(&[], "/lib/ld-musl-x86_64.so.1"));
    let mut session =
        Session::begin("/opt/x/app", musl.files["/opt/x/app"].1.clone(), plain_config(), None);
    // the binary is there when the session begins and gone when the walk comes to it
    let meta = musl.files.remove("/opt/x/app");
    assert!(meta.is_some());
    drive(&mut session, &mut musl);
    assert_eq!(
        session.warnings(),
        vec![
            Warning::Unreadable("/etc/ld-musl-x86_64.path".to_string()),
            Warning::NoIdentity("/opt/x/app".to_string()),
        ]
    );
}

#[test]
fn the_directories_of_solaris_are_searched_where_kept() {
    let mut fs = Files::new();
    fs.elf("/opt/x/app", exe(&["libsol.so"], "/usr/lib/64/ld.so.1"));
    fs.elf("/usr/lib/64/libsol.so", lib(&[]));
    let info = resolve("/opt/x/app", &mut fs, plain_config(), None);
    assert_eq!(info.deps, vec![pair("libsol.so", "not found")]);
    let mut again = Files::new();
    again.files = fs.files.clone();
    let kept = Config { solaris_directories: true, ..plain_config() };
    let info = resolve("/opt/x/app", &mut again, kept, None);
    assert_eq!(info.deps, vec![pair("libsol.so", "/usr/lib/64/libsol.so")]);
}

#[test]
fn the_environment_counts_only_where_wanted() {
    let mut fs = Files::new();
    fs.elf("/app", exe(&["libenv.so"], "/lib64/ld-linux-x86-64.so.2"));
    fs.elf("/env/libenv.so", lib(&[]));
    let info = resolve("/app", &mut fs, plain_config(), Some("/env"));
    assert_eq!(info.deps, vec![pair("libenv.so", "not found")]);
    let mut fs2 = Files::new();
    fs2.files = fs.files.clone();
    let wanted = Config { use_environment_search_paths: true, ..plain_config() };
    let info = resolve("/app", &mut fs2, wanted, Some("/env"));
    assert_eq!(info.deps, vec![pair("libenv.so", "/env/libenv.so")]);
    // without a loader configuration on the platform none is read
    assert!(!fs2.asked.contains(&Request::ReadText("/etc/ld.so.conf".to_string())));
}

#[test]
fn the_phases_of_a_session() {
    let mut fs = Files::new();
    fs.elf("/bin/tool", exe(&[], "/lib64/ld-linux-x86-64.so.2"));
    let config = Config { platform_config_kind: PlatformConfigKind::GlibcStyle, ..plain_config() };
    let mut session = Session::begin("/bin/tool", fs.files["/bin/tool"].1.clone(), config, None);
    assert_eq!(session.pending(), Request::ReadText("/etc/ld.so.conf".to_string()));
    // answers of the wrong kind change nothing
    session.canonicalized(Some("/x".to_string()));
    session.globbed(None);
    session.dir_checked(true);
    session.identified(Some((1, 2)));
    session.probed(true);
    session.inspected(None);
    assert_eq!(session.pending(), Request::ReadText("/etc/ld.so.conf".to_string()));
    session.text_read(None);
    assert_eq!(session.pending(), Request::Canonicalize("/bin/tool".to_string()));
    session.canonicalized(Some("/usr/bin/tool".to_string()));
    assert_eq!(session.pending(), Request::Canonicalize("/lib".to_string()));
    let steps = drive(&mut session, &mut fs);
    assert!(steps > 0);
    assert!(fs.asked.contains(&Request::Canonicalize("/usr/lib64".to_string())));
    assert!(fs.asked.contains(&Request::Canonicalize("/usr/bin/lib".to_string())));
    assert!(fs.asked.contains(&Request::Canonicalize("/usr/lib".to_string())));
    assert_eq!(fs.asked.last(), Some(&Request::Identify("/bin/tool".to_string())));
    let _ = Phase::Done;
}

#[test]
fn test_verbose_deps() {
    let mut fs = Files::new();
    fs.elf("/bin/ls", exe(&["libselinux.so.1", "libc.so.6"], "/lib64/ld-linux-x86-64.so.2"));
    fs.elf("/lib/x86_64-linux-gnu/libselinux.so.1", lib(&["libpcre2-8.so.0", "libc.so.6"]));
    fs.elf("/lib/x86_64-linux-gnu/libc.so.6", lib(&["ld-linux-x86-64.so.2"]));
    fs.elf("/lib64/ld-linux-x86-64.so.2", lib(&[]));
    let path = "/bin/ls";
    let deps = resolve(path, &mut fs, plain_config(), None);
    let (mut dnf, mut df) = (0, 0);

    println!("\nRLDD-REX TEST\n");
    match deps.elf_type {
        ElfType::Dynamic => println!("Dynamic: depends on shared libs"),
        ElfType::Static => println!("Static: all libs included"),
        ElfType::Pie => println!("PIE: position independent executable"),
        ElfType::Invalid => println!("Invalid ELF"),
    }

    match deps.arch {
        ElfArch::Elf32 => println!("Elf32: Arquitecture 32-bit"),
        ElfArch::Elf64 => println!("Elf64: Arquitecture 64-bit"),
        ElfArch::Unknown => println!("Unknown ELF"),
    }

    println!("\nRecursive dependencies for {}:", path);
    for (i, (lib, path_or_status)) in deps.deps.iter().enumerate() {
        let num = i + 1;
        let colorized = if path_or_status == "not found" || path_or_status == "arch mismatch" {
            format!("\x1b[1;31m{}\x1b[0m", path_or_status)
        } else if path_or_status.starts_with("/lib") || path_or_status.starts_with("/usr") {
            format!("\x1b[1;32m{}\x1b[0m", path_or_status)
        } else {
            format!("\x1b[1;33m{}\x1b[0m", path_or_status)
        };

        println!("{num}. {} => {}", lib, colorized);

        match path_or_status.as_str() {
            "not found" | "arch mismatch" => dnf += 1,
            _ => df += 1,
        }
    }
    println!("\nDependencies found: {df}");
    println!("Dependencies not found: {dnf}\n");
    assert_eq!(
        deps.deps,
        vec![
            pair("libselinux.so.1", "/lib/x86_64-linux-gnu/libselinux.so.1"),
            pair("libpcre2-8.so.0", "not found"),
            pair("libc.so.6", "/lib/x86_64-linux-gnu/libc.so.6"),
            pair("ld-linux-x86-64.so.2", "/lib64/ld-linux-x86-64.so.2"),
        ]
    );
    assert_eq!((df, dnf), (3, 1));
}
