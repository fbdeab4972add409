use rldd_rex::elf::{
    get_elf_type, is_same_arch, machine_from_e_machine, ElfArch, ElfMachine, ElfMetadata, ElfType,
    EM_386, EM_AARCH64, EM_ARM, EM_MIPS, EM_PPC, EM_X86_64, ET_DYN, ET_EXEC,
};
use rldd_rex::ldconf::{parse_conf, ConfWalk, Job, MAX_INCLUDES};
use rldd_rex::notes::Warning;
use rldd_rex::paths::{file_name, join, parent, resolve_origin};
use rldd_rex::report::{empty_info, report, status_text};
use rldd_rex::resolver::Resolution;
use rldd_rex::search::{
    build_search_dirs, default_dirs_for_arch_and_machine, default_search_dirs, env_search_dirs,
    extra_lib_dirs_for_bin, has_text, path_lines, push_unique, triplet,
};
use rldd_rex::text::{blank, chars_of, contains, same_text, split, starts_with, trim};

fn strings(items: &[&str]) -> Vec<String> {
    items.iter().map(|s| s.to_string()).collect()
}

fn meta(e_type: u16, has_dynamic: bool, interpreter: Option<&str>) -> ElfMetadata {
    ElfMetadata {
        is_64: true,
        e_type,
        e_machine: EM_X86_64,
        has_dynamic,
        interpreter: interpreter.map(|s| s.to_string()),
        libraries: Vec::new(),
        rpaths: Vec::new(),
        runpaths: Vec::new(),
    }
}

#[test]
fn link_type_predicates() {
    assert!(ElfType::Static.is_static());
    assert!(!ElfType::Static.is_dynamic());
    assert!(ElfType::Dynamic.is_dynamic());
    assert!(!ElfType::Dynamic.is_pie());
    assert!(ElfType::Pie.is_pie());
    assert!(ElfType::Pie.is_valid());
    assert!(ElfType::Static.is_valid());
    assert!(!ElfType::Invalid.is_valid());
    assert!(!ElfType::Invalid.is_static());
}

#[test]
fn executable_with_dynamic_section_is_dynamic() {
    assert_eq!(get_elf_type(&meta(ET_EXEC, true, None)), ElfType::Dynamic);
    assert_eq!(get_elf_type(&meta(ET_EXEC, true, Some("/lib64/ld-linux-x86-64.so.2"))), ElfType::Dynamic);
}

#[test]
fn executable_without_dynamic_section_is_static() {
    assert_eq!(get_elf_type(&meta(ET_EXEC, false, None)), ElfType::Static);
}

#[test]
fn shared_object_with_interpreter_is_pie() {
    assert_eq!(get_elf_type(&meta(ET_DYN, true, Some("/lib64/ld-linux-x86-64.so.2"))), ElfType::Pie);
}

#[test]
fn shared_object_without_interpreter_is_dynamic() {
    assert_eq!(get_elf_type(&meta(ET_DYN, true, None)), ElfType::Dynamic);
}

#[test]
fn other_file_types_are_invalid() {
    assert_eq!(get_elf_type(&meta(4, false, None)), ElfType::Invalid);
    assert_eq!(get_elf_type(&meta(1, true, Some("/lib/ld.so"))), ElfType::Invalid);
    assert_eq!(get_elf_type(&meta(0, false, None)), ElfType::Invalid);
    assert_eq!(get_elf_type(&meta(0xffff, true, None)), ElfType::Invalid);
}

#[test]
fn machines_by_number() {
    assert_eq!(machine_from_e_machine(3), ElfMachine::X86);
    assert_eq!(machine_from_e_machine(62), ElfMachine::X86_64);
    assert_eq!(machine_from_e_machine(40), ElfMachine::Arm32);
    assert_eq!(machine_from_e_machine(183), ElfMachine::Arm64);
    assert_eq!(machine_from_e_machine(8), ElfMachine::Mips);
    assert_eq!(machine_from_e_machine(20), ElfMachine::PowerPC);
    assert_eq!(machine_from_e_machine(0), ElfMachine::Unknown);
    assert_eq!(machine_from_e_machine(243), ElfMachine::Unknown);
    assert_eq!(
        (EM_386, EM_X86_64, EM_ARM, EM_AARCH64, EM_MIPS, EM_PPC),
        (3, 62, 40, 183, 8, 20)
    );
    assert_eq!((ET_EXEC, ET_DYN), (2, 3));
}

#[test]
fn numbers_of_the_format() {
    assert_eq!(ET_EXEC, goblin::elf::header::ET_EXEC);
    assert_eq!(ET_DYN, goblin::elf::header::ET_DYN);
    assert_eq!(EM_386, goblin::elf::header::EM_386);
    assert_eq!(EM_X86_64, goblin::elf::header::EM_X86_64);
    assert_eq!(EM_ARM, goblin::elf::header::EM_ARM);
    assert_eq!(EM_AARCH64, goblin::elf::header::EM_AARCH64);
    assert_eq!(EM_MIPS, goblin::elf::header::EM_MIPS);
    assert_eq!(EM_PPC, goblin::elf::header::EM_PPC);
}

#[test]
fn metadata_word_size_and_machine() {
    let mut m = meta(ET_EXEC, true, None);
    assert_eq!(m.arch(), ElfArch::Elf64);
    assert_eq!(m.machine(), ElfMachine::X86_64);
    m.is_64 = false;
    m.e_machine = EM_ARM;
    assert_eq!(m.arch(), ElfArch::Elf32);
    assert_eq!(m.machine(), ElfMachine::Arm32);
}

#[test]
fn word_sizes_match() {
    let mut m = meta(ET_DYN, true, None);
    assert!(is_same_arch(ElfArch::Elf64, &m));
    assert!(!is_same_arch(ElfArch::Elf32, &m));
    assert!(is_same_arch(ElfArch::Unknown, &m));
    m.is_64 = false;
    assert!(!is_same_arch(ElfArch::Elf64, &m));
    assert!(is_same_arch(ElfArch::Elf32, &m));
    assert!(is_same_arch(ElfArch::Unknown, &m));
}

#[test]
fn characters_and_white_space() {
    assert_eq!(chars_of("a/é"), vec!['a', '/', 'é']);
    assert_eq!(chars_of(""), Vec::<char>::new());
    for c in [' ', '\t', '\n', '\r', '\u{0b}', '\u{0c}', '\u{85}', '\u{a0}', '\u{1680}', '\u{2000}', '\u{200a}', '\u{2028}', '\u{2029}', '\u{202f}', '\u{205f}', '\u{3000}'] {
        assert!(blank(c), "{:?}", c);
        assert!(c.is_whitespace());
    }
    for c in ['a', '/', '#', '\u{200b}', '\u{1f}', '\u{e}', '\u{8}', '\u{2007}'] {
        assert_eq!(blank(c), c.is_whitespace(), "{:?}", c);
    }
}

#[test]
fn trimming() {
    assert_eq!(trim("  /usr/lib \t\r"), "/usr/lib");
    assert_eq!(trim("/usr/lib"), "/usr/lib");
    assert_eq!(trim("a b"), "a b");
    assert_eq!(trim("   "), "");
    assert_eq!(trim(""), "");
    assert_eq!(trim("\u{3000}x\u{a0}"), "x");
}

#[test]
fn comparing_and_searching() {
    assert!(same_text("bin", "bin"));
    assert!(!same_text("bin", "bim"));
    assert!(!same_text("bin", "bins"));
    assert!(same_text("", ""));
    assert!(starts_with("$ORIGIN/lib", "$ORIGIN"));
    assert!(starts_with("include", "include"));
    assert!(!starts_with("$ORIGI", "$ORIGIN"));
    assert!(!starts_with("/$ORIGIN", "$ORIGIN"));
    assert!(starts_with("anything", ""));
    assert!(contains("/lib/ld-musl-x86_64.so.1", "musl"));
    assert!(contains("musl", "musl"));
    assert!(contains("xmusl", "musl"));
    assert!(!contains("/lib64/ld-linux-x86-64.so.2", "musl"));
    assert!(!contains("mus", "musl"));
    assert!(!contains("mu-sl", "musl"));
    assert!(contains("abc", ""));
    assert!(contains("", ""));
}

#[test]
fn splitting() {
    assert_eq!(split("/a:/b", ':'), strings(&["/a", "/b"]));
    assert_eq!(split("/a::/b:", ':'), strings(&["/a", "", "/b", ""]));
    assert_eq!(split("", ':'), strings(&[""]));
    assert_eq!(split(":", ':'), strings(&["", ""]));
    assert_eq!(split("abc", ':'), strings(&["abc"]));
    assert_eq!(split("a\nb\n", '\n'), strings(&["a", "b", ""]));
}

#[test]
fn joining_paths() {
    assert_eq!(join("/usr/lib", "libc.so.6"), "/usr/lib/libc.so.6");
    assert_eq!(join("/usr/lib/", "libc.so.6"), "/usr/lib/libc.so.6");
    assert_eq!(join("", "libc.so.6"), "libc.so.6");
    assert_eq!(join("/", "lib"), "/lib");
    assert_eq!(join("/usr/lib", "/abs/libx.so"), "/abs/libx.so");
    assert_eq!(join("rel", "libx.so"), "rel/libx.so");
    assert_eq!(join("/usr/lib", ""), "/usr/lib/");
    assert_eq!(join(".", "libx.so"), "./libx.so");
}

#[test]
fn containing_directory() {
    assert_eq!(parent("/opt/app/bin/app"), Some("/opt/app/bin".to_string()));
    assert_eq!(parent("/opt/app/bin/"), Some("/opt/app".to_string()));
    assert_eq!(parent("/app"), Some("/".to_string()));
    assert_eq!(parent("app"), Some("".to_string()));
    assert_eq!(parent("a/b"), Some("a".to_string()));
    assert_eq!(parent("a//b"), Some("a".to_string()));
    assert_eq!(parent("/"), None);
    assert_eq!(parent("///"), None);
    assert_eq!(parent(""), None);
}

#[test]
fn final_component() {
    assert_eq!(file_name("/lib/ld-musl-x86_64.so.1"), Some("ld-musl-x86_64.so.1".to_string()));
    assert_eq!(file_name("/opt/app/bin"), Some("bin".to_string()));
    assert_eq!(file_name("/opt/app/bin/"), Some("bin".to_string()));
    assert_eq!(file_name("bin"), Some("bin".to_string()));
    assert_eq!(file_name("/"), None);
    assert_eq!(file_name(""), None);
    assert_eq!(file_name("/a/.."), None);
    assert_eq!(file_name(".."), None);
    assert_eq!(file_name("."), None);
    assert_eq!(file_name("/a/..b"), Some("..b".to_string()));
    assert_eq!(file_name("/a/.b"), Some(".b".to_string()));
}

#[test]
fn origin_stands_for_the_directory_of_the_binary() {
    assert_eq!(resolve_origin("/opt/app/bin/app", "$ORIGIN/../lib"), "/opt/app/bin/../lib");
    assert_eq!(resolve_origin("/opt/app/bin/app", "$ORIGIN"), "/opt/app/bin");
    assert_eq!(resolve_origin("/opt/app/bin/app", "$ORIGIN/lib"), "/opt/app/bin/lib");
    assert_eq!(resolve_origin("/opt/other/tool", "$ORIGIN/lib"), "/opt/other/lib");
    assert_eq!(resolve_origin("/app", "$ORIGIN/lib"), "/lib");
    assert_eq!(resolve_origin("/app", "$ORIGIN"), "/");
    assert_eq!(resolve_origin("/app", "$ORIGINx"), "/x");
    assert_eq!(resolve_origin("/", "$ORIGIN/lib"), "/lib");
    assert_eq!(resolve_origin("", "$ORIGIN/lib"), "/lib");
    assert_eq!(resolve_origin("/opt/app/bin/app", "$ORIGINx"), "/opt/app/binx");
    assert_eq!(resolve_origin("/opt/app/bin/app", "$ORIGIN//x"), "/opt/app/bin//x");
    assert_eq!(resolve_origin("/opt/app/bin/app", "$ORIGIN$ORIGIN/x"), "/opt/app/bin$ORIGIN/x");
}

#[test]
fn other_entries_stand_as_they_are() {
    assert_eq!(resolve_origin("/opt/app/bin/app", "/usr/local/lib"), "/usr/local/lib");
    assert_eq!(resolve_origin("/opt/app/bin/app", "lib"), "lib");
    assert_eq!(resolve_origin("/opt/app/bin/app", "/x/$ORIGIN"), "/x/$ORIGIN");
    assert_eq!(resolve_origin("/opt/app/bin/app", ""), "");
}

#[test]
fn fixed_defaults() {
    assert_eq!(
        default_search_dirs(),
        strings(&["/lib", "/usr/lib", "/usr/local/lib", "/usr/libexec", "/libexec"])
    );
}

#[test]
fn environment_list() {
    assert_eq!(env_search_dirs("/a:/b"), strings(&["/a", "/b"]));
    assert_eq!(env_search_dirs("/a::/b:"), strings(&["/a", ".", "/b", "."]));
    assert_eq!(env_search_dirs(""), strings(&["."]));
    assert_eq!(
        env_search_dirs("/lib64:/usr/lib64:/usr/local/lib64:/lib:/usr/lib:/usr/local/lib"),
        strings(&["/lib64", "/usr/lib64", "/usr/local/lib64", "/lib", "/usr/lib", "/usr/local/lib"])
    );
}

#[test]
fn path_file() {
    assert_eq!(path_lines("/lib\n/usr/local/lib\n/usr/lib\n"), strings(&["/lib", "/usr/local/lib", "/usr/lib"]));
    assert_eq!(path_lines("  /lib  \r\n\n   \n/usr/lib"), strings(&["/lib", "/usr/lib"]));
    assert_eq!(path_lines(""), Vec::<String>::new());
    assert_eq!(path_lines("# note"), strings(&["# note"]));
}

#[test]
fn multiarch_names() {
    assert_eq!(triplet(ElfArch::Elf32, ElfMachine::PowerPC), Some("powerpc-linux-gnu"));
    assert_eq!(triplet(ElfArch::Elf64, ElfMachine::PowerPC), Some("powerpc64-linux-gnu"));
    assert_eq!(triplet(ElfArch::Unknown, ElfMachine::PowerPC), None);
    assert_eq!(triplet(ElfArch::Elf32, ElfMachine::Mips), Some("mips-linux-gnu"));
    assert_eq!(triplet(ElfArch::Elf64, ElfMachine::Mips), Some("mips64-linux-gnu"));
    assert_eq!(triplet(ElfArch::Unknown, ElfMachine::Mips), None);
    assert_eq!(triplet(ElfArch::Elf32, ElfMachine::Arm32), Some("arm-linux-gnueabihf"));
    assert_eq!(triplet(ElfArch::Unknown, ElfMachine::Arm32), Some("arm-linux-gnueabihf"));
    assert_eq!(triplet(ElfArch::Elf64, ElfMachine::Arm64), Some("aarch64-linux-gnu"));
    assert_eq!(triplet(ElfArch::Elf32, ElfMachine::X86), Some("i386-linux-gnu"));
    assert_eq!(triplet(ElfArch::Elf64, ElfMachine::X86), None);
    assert_eq!(triplet(ElfArch::Elf64, ElfMachine::X86_64), Some("x86_64-linux-gnu"));
    assert_eq!(triplet(ElfArch::Elf32, ElfMachine::X86_64), Some("i386-linux-gnu"));
    assert_eq!(triplet(ElfArch::Unknown, ElfMachine::X86_64), None);
    assert_eq!(triplet(ElfArch::Elf64, ElfMachine::Unknown), None);
}

#[test]
fn defaults_by_word_size_and_machine() {
    assert_eq!(
        default_dirs_for_arch_and_machine(ElfArch::Elf64, ElfMachine::X86_64, false),
        strings(&["/lib64", "/usr/lib64", "/lib/x86_64-linux-gnu", "/usr/lib/x86_64-linux-gnu"])
    );
    assert_eq!(
        default_dirs_for_arch_and_machine(ElfArch::Elf32, ElfMachine::X86, false),
        strings(&["/lib", "/usr/lib", "/lib32", "/usr/lib32", "/lib/i386-linux-gnu", "/usr/lib/i386-linux-gnu"])
    );
    assert_eq!(
        default_dirs_for_arch_and_machine(ElfArch::Elf32, ElfMachine::X86_64, false),
        strings(&["/lib", "/usr/lib", "/lib32", "/usr/lib32", "/lib/i386-linux-gnu", "/usr/lib/i386-linux-gnu"])
    );
    assert_eq!(
        default_dirs_for_arch_and_machine(ElfArch::Elf64, ElfMachine::X86, false),
        strings(&["/lib64", "/usr/lib64"])
    );
    assert_eq!(
        default_dirs_for_arch_and_machine(ElfArch::Elf64, ElfMachine::Arm64, false),
        strings(&["/lib64", "/usr/lib64", "/lib/aarch64-linux-gnu", "/usr/lib/aarch64-linux-gnu"])
    );
    assert_eq!(
        default_dirs_for_arch_and_machine(ElfArch::Elf32, ElfMachine::Arm32, false),
        strings(&["/lib", "/usr/lib", "/lib32", "/usr/lib32", "/lib/arm-linux-gnueabihf", "/usr/lib/arm-linux-gnueabihf"])
    );
    assert_eq!(
        default_dirs_for_arch_and_machine(ElfArch::Unknown, ElfMachine::Arm32, false),
        strings(&["/lib/arm-linux-gnueabihf", "/usr/lib/arm-linux-gnueabihf"])
    );
    assert_eq!(
        default_dirs_for_arch_and_machine(ElfArch::Elf64, ElfMachine::PowerPC, false),
        strings(&["/lib64", "/usr/lib64", "/lib/powerpc64-linux-gnu", "/usr/lib/powerpc64-linux-gnu"])
    );
    assert_eq!(
        default_dirs_for_arch_and_machine(ElfArch::Elf32, ElfMachine::Mips, false),
        strings(&["/lib", "/usr/lib", "/lib32", "/usr/lib32", "/lib/mips-linux-gnu", "/usr/lib/mips-linux-gnu"])
    );
    assert_eq!(default_dirs_for_arch_and_machine(ElfArch::Unknown, ElfMachine::Unknown, false), Vec::<String>::new());
    assert_eq!(default_dirs_for_arch_and_machine(ElfArch::Elf64, ElfMachine::Unknown, false), strings(&["/lib64", "/usr/lib64"]));
}

#[test]
fn defaults_of_solaris() {
    assert_eq!(
        default_dirs_for_arch_and_machine(ElfArch::Elf32, ElfMachine::X86, true),
        strings(&[
            "/lib", "/usr/lib", "/lib32", "/usr/lib32", "/usr/lib/32", "/lib/i386-linux-gnu",
            "/usr/lib/i386-linux-gnu"
        ])
    );
    assert_eq!(
        default_dirs_for_arch_and_machine(ElfArch::Elf64, ElfMachine::X86_64, true),
        strings(&[
            "/lib64", "/usr/lib64", "/usr/lib/64", "/lib/x86_64-linux-gnu",
            "/usr/lib/x86_64-linux-gnu"
        ])
    );
    assert_eq!(
        default_dirs_for_arch_and_machine(ElfArch::Unknown, ElfMachine::Unknown, true),
        Vec::<String>::new()
    );
    assert_eq!(
        build_search_dirs(false, ElfArch::Elf64, ElfMachine::Unknown, true, None, &Vec::new()),
        strings(&[
            "/lib", "/usr/lib", "/usr/local/lib", "/usr/libexec", "/libexec", "/lib64",
            "/usr/lib64", "/usr/lib/64"
        ])
    );
}

#[test]
fn directories_next_to_the_binary() {
    assert_eq!(
        extra_lib_dirs_for_bin("/opt/app/bin/app"),
        strings(&[
            "/opt/app/bin", "/opt/app/bin/lib", "/opt/app/bin/lib64", "/opt/app/bin/libs",
            "/opt/app/lib", "/opt/app/lib64", "/opt/app/libs"
        ])
    );
    assert_eq!(
        extra_lib_dirs_for_bin("/opt/tool/run"),
        strings(&["/opt/tool", "/opt/tool/lib", "/opt/tool/lib64", "/opt/tool/libs"])
    );
    assert_eq!(
        extra_lib_dirs_for_bin("/bin/ls"),
        strings(&["/bin", "/bin/lib", "/bin/lib64", "/bin/libs", "/lib", "/lib64", "/libs"])
    );
    assert_eq!(extra_lib_dirs_for_bin("/ls"), strings(&["/", "/lib", "/lib64", "/libs"]));
    assert_eq!(extra_lib_dirs_for_bin("/"), Vec::<String>::new());
    assert_eq!(extra_lib_dirs_for_bin(""), Vec::<String>::new());
    assert_eq!(
        extra_lib_dirs_for_bin("/opt/sbin/x"),
        strings(&["/opt/sbin", "/opt/sbin/lib", "/opt/sbin/lib64", "/opt/sbin/libs"])
    );
}

#[test]
fn composed_search() {
    let conf = strings(&["/opt/conf"]);
    assert_eq!(
        build_search_dirs(false, ElfArch::Elf64, ElfMachine::X86_64, false, Some("/env::"), &conf),
        strings(&[
            "/lib", "/usr/lib", "/usr/local/lib", "/usr/libexec", "/libexec", "/env", ".", ".",
            "/opt/conf", "/lib64", "/usr/lib64", "/lib/x86_64-linux-gnu", "/usr/lib/x86_64-linux-gnu"
        ])
    );
    assert_eq!(
        build_search_dirs(true, ElfArch::Elf64, ElfMachine::X86_64, false, None, &conf),
        strings(&["/lib", "/usr/lib", "/usr/local/lib", "/usr/libexec", "/libexec", "/opt/conf"])
    );
    assert_eq!(
        build_search_dirs(false, ElfArch::Unknown, ElfMachine::Unknown, false, None, &Vec::new()),
        strings(&["/lib", "/usr/lib", "/usr/local/lib", "/usr/libexec", "/libexec"])
    );
}

#[test]
fn repeats_are_dropped_in_order() {
    let mut dirs: Vec<String> = Vec::new();
    for d in ["/usr/lib", "/lib", "/usr/lib", "/opt", "/lib", "/usr/lib"] {
        push_unique(&mut dirs, d.to_string());
    }
    assert_eq!(dirs, strings(&["/usr/lib", "/lib", "/opt"]));
    assert!(has_text(&dirs, "/opt"));
    assert!(!has_text(&dirs, "/op"));
    assert!(!has_text(&Vec::new(), ""));
}

#[test]
fn configuration_lines() {
    let jobs = parse_conf("# comment\n\ninclude /etc/ld.so.conf.d/*.conf\n  /usr/local/lib  \n\t#x\n/opt/lib\r\ninclude\nincludefoo\n");
    assert_eq!(
        jobs,
        vec![
            Job::Expand("/etc/ld.so.conf.d/*.conf".to_string()),
            Job::Check("/usr/local/lib".to_string()),
            Job::Check("/opt/lib".to_string()),
            Job::Expand("".to_string()),
            Job::Expand("foo".to_string()),
        ]
    );
    assert_eq!(parse_conf(""), Vec::<Job>::new());
    assert_eq!(parse_conf("   \n#\n"), Vec::<Job>::new());
    assert_eq!(parse_conf("/a"), vec![Job::Check("/a".to_string())]);
    assert_eq!(parse_conf("Include /x"), vec![Job::Check("Include /x".to_string())]);
}

#[test]
fn configuration_walk_in_depth_first_order() {
    let mut walk = ConfWalk::new("/etc/ld.so.conf", MAX_INCLUDES);
    assert_eq!(walk.pending(), Some(&Job::Read("/etc/ld.so.conf".to_string())));
    // answers of the wrong kind change nothing
    walk.checked(true);
    walk.expanded(Some(strings(&["/x"])));
    assert_eq!(walk.pending(), Some(&Job::Read("/etc/ld.so.conf".to_string())));
    walk.file_read(Some("/first\ninclude /etc/conf.d/*.conf\n/last\n/first\n"));
    assert_eq!(walk.pending(), Some(&Job::Check("/first".to_string())));
    walk.checked(true);
    assert_eq!(walk.pending(), Some(&Job::Expand("/etc/conf.d/*.conf".to_string())));
    walk.expanded(Some(strings(&["/etc/conf.d/a.conf", "/etc/conf.d/b.conf"])));
    assert_eq!(walk.pending(), Some(&Job::Read("/etc/conf.d/a.conf".to_string())));
    walk.file_read(Some("/from/a\n/gone\n"));
    assert_eq!(walk.pending(), Some(&Job::Check("/from/a".to_string())));
    walk.checked(true);
    assert_eq!(walk.pending(), Some(&Job::Check("/gone".to_string())));
    walk.checked(false);
    assert_eq!(walk.pending(), Some(&Job::Read("/etc/conf.d/b.conf".to_string())));
    walk.file_read(None);
    assert_eq!(walk.pending(), Some(&Job::Check("/last".to_string())));
    walk.checked(true);
    assert_eq!(walk.pending(), Some(&Job::Check("/first".to_string())));
    walk.checked(true);
    assert_eq!(walk.pending(), None);
    assert_eq!(walk.dirs(), &strings(&["/first", "/from/a", "/last"]));
    walk.file_read(Some("/late"));
    assert_eq!(walk.pending(), None);
}

#[test]
fn a_configuration_that_includes_itself_ends() {
    let mut walk = ConfWalk::new("/etc/ld.so.conf", 3);
    let mut rounds = 0;
    while let Some(job) = walk.pending().cloned() {
        match job {
            Job::Read(_) => walk.file_read(Some("include /etc/ld.so.conf\n/opt/lib\n")),
            Job::Expand(_) => walk.expanded(Some(strings(&["/etc/ld.so.conf"]))),
            Job::Check(_) => walk.checked(true),
        }
        rounds += 1;
        assert!(rounds < 100);
    }
    assert_eq!(walk.dirs(), &strings(&["/opt/lib"]));
    assert_eq!(walk.warnings(), &vec![Warning::IncludeLimit("/etc/ld.so.conf".to_string())]);
    // four files were read, three patterns expanded, one dropped, four directories checked
    assert_eq!(rounds, 4 + 3 + 1 + 4);
}

#[test]
fn two_configurations_that_include_each_other_end() {
    let mut walk = ConfWalk::new("/etc/a.conf", MAX_INCLUDES);
    let mut rounds = 0;
    while let Some(job) = walk.pending().cloned() {
        match job {
            Job::Read(p) if p == "/etc/a.conf" => walk.file_read(Some("/from/a\ninclude /etc/b.conf")),
            Job::Read(_) => walk.file_read(Some("include /etc/a.conf\n/from/b")),
            Job::Expand(p) => walk.expanded(Some(vec![p])),
            Job::Check(_) => walk.checked(true),
        }
        rounds += 1;
        assert!(rounds < 100_000);
    }
    assert_eq!(MAX_INCLUDES, 1024);
    assert_eq!(walk.dirs(), &strings(&["/from/a", "/from/b"]));
    assert_eq!(walk.warnings().len(), 1);
}

#[test]
fn what_a_configuration_walk_passes_over() {
    let mut walk = ConfWalk::new("/etc/ld.so.conf", MAX_INCLUDES);
    walk.file_read(Some("include [\ninclude /etc/conf.d/*\n"));
    walk.expanded(None);
    walk.expanded(Some(strings(&["/etc/conf.d/gone.conf"])));
    walk.file_read(None);
    assert_eq!(walk.pending(), None);
    assert_eq!(
        walk.warnings(),
        &vec![
            Warning::MalformedPattern("[".to_string()),
            Warning::Unreadable("/etc/conf.d/gone.conf".to_string()),
        ]
    );
    let mut absent = ConfWalk::new("/etc/ld.so.conf", MAX_INCLUDES);
    absent.file_read(None);
    assert_eq!(absent.warnings(), &vec![Warning::Unreadable("/etc/ld.so.conf".to_string())]);
    assert!(absent.dirs().is_empty());
}

#[test]
fn malformed_pattern_is_skipped() {
    let mut walk = ConfWalk::new("/etc/ld.so.conf", MAX_INCLUDES);
    walk.file_read(Some("include [\n/after\n"));
    assert_eq!(walk.pending(), Some(&Job::Expand("[".to_string())));
    walk.expanded(None);
    assert_eq!(walk.pending(), Some(&Job::Check("/after".to_string())));
    walk.checked(true);
    assert_eq!(walk.pending(), None);
    assert_eq!(walk.dirs(), &strings(&["/after"]));
    let idle = ConfWalk::idle();
    assert_eq!(idle.pending(), None);
    assert!(idle.dirs().is_empty());
}

#[test]
fn statuses_in_a_report() {
    assert_eq!(status_text(&Resolution::NotFound), "not found");
    assert_eq!(status_text(&Resolution::ArchMismatch), "arch mismatch");
    assert_eq!(status_text(&Resolution::Path("/lib/libc.so.6".to_string())), "/lib/libc.so.6");
    let deps = vec![
        ("libx.so".to_string(), Resolution::NotFound),
        ("liby.so".to_string(), Resolution::ArchMismatch),
        ("libc.so.6".to_string(), Resolution::Path("/lib/libc.so.6".to_string())),
    ];
    let seen = strings(&["libc.so.6", "libx.so", "libpending.so", "liby.so"]);
    let info = report(ElfArch::Elf32, ElfType::Pie, &seen, &deps);
    assert_eq!(info.arch, ElfArch::Elf32);
    assert_eq!(info.elf_type, ElfType::Pie);
    assert_eq!(
        info.deps,
        vec![
            ("libc.so.6".to_string(), "/lib/libc.so.6".to_string()),
            ("libx.so".to_string(), "not found".to_string()),
            ("liby.so".to_string(), "arch mismatch".to_string()),
        ]
    );
    let none = empty_info();
    assert_eq!(none.arch, ElfArch::Unknown);
    assert_eq!(none.elf_type, ElfType::Invalid);
    assert!(none.deps.is_empty());
}
