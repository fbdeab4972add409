//! The directories in which libraries are looked for: the fixed defaults,
//! those of the environment, of the musl path file, of the word size and
//! machine, and those next to the binary.

use crate::elf::{ElfArch, ElfMachine};
use crate::paths::{file_name, file_name_of, join, joined, parent, parent_of};
use crate::text::{same_text, split, split_on, texts, trim, trimmed, Text};
use vstd::prelude::*;

verus! {

/// The directories that are searched for every binary.
pub open spec fn default_dirs() -> Seq<Text> {
    seq!["/lib"@, "/usr/lib"@, "/usr/local/lib"@, "/usr/libexec"@, "/libexec"@]
}

/// The directories that a colon-separated list names, an empty piece
/// standing for the current directory.
pub open spec fn listed_dirs(value: Text) -> Seq<Text> {
    split_on(value, ':').map_values(
        |p: Text|
            if p.len() == 0 {
                "."@
            } else {
                p
            },
    )
}

/// The lines of `lines`, each without the white space around it, those left
/// empty dropped.
pub open spec fn filled(lines: Seq<Text>) -> Seq<Text>
    decreases lines.len(),
{
    if lines.len() == 0 {
        Seq::empty()
    } else {
        let t = trimmed(lines.last());
        if t.len() == 0 {
            filled(lines.drop_last())
        } else {
            filled(lines.drop_last()).push(t)
        }
    }
}

/// The directories that a path file names, one to a line.
pub open spec fn path_file_dirs(content: Text) -> Seq<Text> {
    filled(split_on(content, '\n'))
}

/// The library directories by word size. Solaris keeps one more for each
/// word size.
pub open spec fn word_size_dirs(arch: ElfArch, solaris: bool) -> Seq<Text> {
    match arch {
        ElfArch::Elf32 => seq!["/lib"@, "/usr/lib"@, "/lib32"@, "/usr/lib32"@] + if solaris {
            seq!["/usr/lib/32"@]
        } else {
            Seq::empty()
        },
        ElfArch::Elf64 => seq!["/lib64"@, "/usr/lib64"@] + if solaris {
            seq!["/usr/lib/64"@]
        } else {
            Seq::empty()
        },
        ElfArch::Unknown => Seq::empty(),
    }
}

/// The multiarch name of a machine at a word size, where it has one.
pub open spec fn triplet_of(arch: ElfArch, machine: ElfMachine) -> Option<Text> {
    match machine {
        ElfMachine::PowerPC => match arch {
            ElfArch::Elf32 => Some("powerpc-linux-gnu"@),
            ElfArch::Elf64 => Some("powerpc64-linux-gnu"@),
            ElfArch::Unknown => None,
        },
        ElfMachine::Mips => match arch {
            ElfArch::Elf32 => Some("mips-linux-gnu"@),
            ElfArch::Elf64 => Some("mips64-linux-gnu"@),
            ElfArch::Unknown => None,
        },
        ElfMachine::Arm32 => Some("arm-linux-gnueabihf"@),
        ElfMachine::Arm64 => Some("aarch64-linux-gnu"@),
        ElfMachine::X86 => match arch {
            ElfArch::Elf32 => Some("i386-linux-gnu"@),
            _ => None,
        },
        ElfMachine::X86_64 => match arch {
            ElfArch::Elf64 => Some("x86_64-linux-gnu"@),
            ElfArch::Elf32 => Some("i386-linux-gnu"@),
            ElfArch::Unknown => None,
        },
        ElfMachine::Unknown => None,
    }
}

/// The multiarch directories of a machine at a word size.
pub open spec fn machine_dirs(arch: ElfArch, machine: ElfMachine) -> Seq<Text> {
    match triplet_of(arch, machine) {
        Some(t) => seq!["/lib/"@ + t, "/usr/lib/"@ + t],
        None => Seq::empty(),
    }
}

/// The default directories of a word size and machine: those of the word
/// size, then the multiarch ones.
pub open spec fn arch_machine_dirs(arch: ElfArch, machine: ElfMachine, solaris: bool) -> Seq<
    Text,
> {
    word_size_dirs(arch, solaris) + machine_dirs(arch, machine)
}

/// The library directories inside `dir`.
pub open spec fn lib_subdirs(dir: Text) -> Seq<Text> {
    seq![joined(dir, "lib"@), joined(dir, "lib64"@), joined(dir, "libs"@)]
}

/// The directories next to the binary at `bin`: the one that holds it and
/// the library directories inside that; where that one is named `bin`, the
/// library directories beside it too.
pub open spec fn adjacent_dirs(bin: Text) -> Seq<Text> {
    match parent_of(bin) {
        None => Seq::empty(),
        Some(dir) => seq![dir] + lib_subdirs(dir) + (if file_name_of(dir) == Some("bin"@) {
            match parent_of(dir) {
                Some(up) => lib_subdirs(up),
                None => Seq::empty(),
            }
        } else {
            Seq::empty()
        }),
    }
}

/// The directories of one search before those next to the binary: the
/// defaults, those that the environment lists, and those of the
/// configuration. A binary of the musl loader has its path file for a
/// configuration and nothing more; any other has the loader's configuration
/// and, after it, the defaults of its word size and machine.
pub open spec fn composed_dirs(
    musl: bool,
    arch: ElfArch,
    machine: ElfMachine,
    solaris: bool,
    env: Option<Text>,
    config_dirs: Seq<Text>,
) -> Seq<Text> {
    default_dirs() + (match env {
        Some(v) => listed_dirs(v),
        None => Seq::empty(),
    }) + config_dirs + (if musl {
        Seq::empty()
    } else {
        arch_machine_dirs(arch, machine, solaris)
    })
}

/// The views of a list with one more string.
pub proof fn lemma_texts_push(v: Seq<String>, s: String)
    ensures
        texts(v.push(s)) == texts(v).push(s@),
{
    assert(texts(v.push(s)) =~= texts(v).push(s@));
}

/// Whether `s` stands in `v`.
pub fn has_text(v: &Vec<String>, s: &str) -> (r: bool)
    ensures
        r == texts(v@).contains(s@),
{
    let mut i: usize = 0;
    while i < v.len()
        invariant
            i <= v.len(),
            forall|j: int| 0 <= j < i ==> texts(v@)[j] != s@,
        decreases v.len() - i,
    {
        if same_text(v[i].as_str(), s) {
            assert(texts(v@)[i as int] == s@);
            return true;
        }
        i += 1;
    }
    false
}

/// Puts copies of the strings of `src` at the end of `dst`.
pub fn extend_texts(dst: &mut Vec<String>, src: &Vec<String>)
    ensures
        texts(final(dst)@) == texts(old(dst)@) + texts(src@),
{
    let mut i: usize = 0;
    assert(texts(src@).take(0) =~= Seq::<Text>::empty());
    assert(texts(dst@) + Seq::<Text>::empty() =~= texts(dst@));
    while i < src.len()
        invariant
            i <= src.len(),
            texts(dst@) == texts(old(dst)@) + texts(src@).take(i as int),
        decreases src.len() - i,
    {
        let s = src[i].clone();
        proof {
            lemma_texts_push(dst@, s);
            assert(texts(src@).take(i + 1) =~= texts(src@).take(i as int).push(s@));
            assert((texts(old(dst)@) + texts(src@).take(i as int)).push(s@) =~= texts(old(dst)@)
                + texts(src@).take(i + 1));
        }
        dst.push(s);
        i += 1;
    }
    assert(texts(src@).take(src.len() as int) =~= texts(src@));
}

/// The directories that are searched for every binary.
pub fn default_search_dirs() -> (r: Vec<String>)
    ensures
        texts(r@) == default_dirs(),
{
    let mut r: Vec<String> = Vec::new();
    r.push(String::from_str("/lib"));
    r.push(String::from_str("/usr/lib"));
    r.push(String::from_str("/usr/local/lib"));
    r.push(String::from_str("/usr/libexec"));
    r.push(String::from_str("/libexec"));
    assert(texts(r@) =~= default_dirs());
    r
}

/// The directories that a colon-separated list names.
pub fn env_search_dirs(value: &str) -> (r: Vec<String>)
    ensures
        texts(r@) == listed_dirs(value@),
{
    let pieces = split(value, ':');
    let mut r: Vec<String> = Vec::new();
    let mut i: usize = 0;
    while i < pieces.len()
        invariant
            i <= pieces.len(),
            texts(pieces@) == split_on(value@, ':'),
            texts(r@) =~= listed_dirs(value@).take(i as int),
        decreases pieces.len() - i,
    {
        let p = if pieces[i].as_str().unicode_len() == 0 {
            String::from_str(".")
        } else {
            pieces[i].clone()
        };
        proof {
            lemma_texts_push(r@, p);
            assert(texts(pieces@)[i as int] == pieces@[i as int]@);
        }
        r.push(p);
        i += 1;
    }
    r
}

/// The directories that a path file names, one to a line.
pub fn path_lines(content: &str) -> (r: Vec<String>)
    ensures
        texts(r@) == path_file_dirs(content@),
{
    let lines = split(content, '\n');
    let mut r: Vec<String> = Vec::new();
    let mut i: usize = 0;
    assert(texts(lines@).take(0) =~= Seq::<Text>::empty());
    while i < lines.len()
        invariant
            i <= lines.len(),
            texts(r@) =~= filled(texts(lines@).take(i as int)),
        decreases lines.len() - i,
    {
        let t = trim(lines[i].as_str());
        proof {
            assert(texts(lines@).take(i + 1).drop_last() =~= texts(lines@).take(i as int));
            assert(texts(lines@).take(i + 1).last() == lines@[i as int]@);
        }
        if t.unicode_len() > 0 {
            let s = String::from_str(t);
            proof {
                lemma_texts_push(r@, s);
            }
            r.push(s);
        }
        i += 1;
    }
    assert(texts(lines@).take(lines.len() as int) =~= texts(lines@));
    r
}

/// The multiarch name of a machine at a word size, where it has one.
pub fn triplet(arch: ElfArch, machine: ElfMachine) -> (r: Option<&'static str>)
    ensures
        match r {
            Some(t) => triplet_of(arch, machine) == Some(t@),
            None => triplet_of(arch, machine).is_none(),
        },
{
    match machine {
        ElfMachine::PowerPC => match arch {
            ElfArch::Elf32 => Some("powerpc-linux-gnu"),
            ElfArch::Elf64 => Some("powerpc64-linux-gnu"),
            ElfArch::Unknown => None,
        },
        ElfMachine::Mips => match arch {
            ElfArch::Elf32 => Some("mips-linux-gnu"),
            ElfArch::Elf64 => Some("mips64-linux-gnu"),
            ElfArch::Unknown => None,
        },
        ElfMachine::Arm32 => Some("arm-linux-gnueabihf"),
        ElfMachine::Arm64 => Some("aarch64-linux-gnu"),
        ElfMachine::X86 => match arch {
            ElfArch::Elf32 => Some("i386-linux-gnu"),
            _ => None,
        },
        ElfMachine::X86_64 => match arch {
            ElfArch::Elf64 => Some("x86_64-linux-gnu"),
            ElfArch::Elf32 => Some("i386-linux-gnu"),
            ElfArch::Unknown => None,
        },
        ElfMachine::Unknown => None,
    }
}

/// The default directories of a word size and machine.
pub fn default_dirs_for_arch_and_machine(
    elf_arch: ElfArch,
    machine: ElfMachine,
    solaris: bool,
) -> (r: Vec<String>)
    ensures
        texts(r@) == arch_machine_dirs(elf_arch, machine, solaris),
{
    let mut r: Vec<String> = Vec::new();
    match elf_arch {
        ElfArch::Elf32 => {
            r.push(String::from_str("/lib"));
            r.push(String::from_str("/usr/lib"));
            r.push(String::from_str("/lib32"));
            r.push(String::from_str("/usr/lib32"));
            if solaris {
                r.push(String::from_str("/usr/lib/32"));
            }
        },
        ElfArch::Elf64 => {
            r.push(String::from_str("/lib64"));
            r.push(String::from_str("/usr/lib64"));
            if solaris {
                r.push(String::from_str("/usr/lib/64"));
            }
        },
        ElfArch::Unknown => {},
    }
    assert(texts(r@) =~= word_size_dirs(elf_arch, solaris));
    match triplet(elf_arch, machine) {
        Some(t) => {
            r.push(String::from_str("/lib/").concat(t));
            r.push(String::from_str("/usr/lib/").concat(t));
        },
        None => {},
    }
    assert(texts(r@) =~= arch_machine_dirs(elf_arch, machine, solaris));
    r
}

/// The directories of one search before those next to the binary. The
/// caller has read `env` from the environment, where that is wanted, and
/// `config_dirs` from the configuration that the loader of the binary keeps.
pub fn build_search_dirs(
    musl: bool,
    arch: ElfArch,
    machine: ElfMachine,
    solaris: bool,
    env: Option<&str>,
    config_dirs: &Vec<String>,
) -> (r: Vec<String>)
    ensures
        texts(r@) == composed_dirs(
            musl,
            arch,
            machine,
            solaris,
            match env {
                Some(v) => Some(v@),
                None => None,
            },
            texts(config_dirs@),
        ),
{
    let mut r = default_search_dirs();
    match env {
        Some(v) => {
            let listed = env_search_dirs(v);
            extend_texts(&mut r, &listed);
        },
        None => {
            assert(texts(r@) + Seq::<Text>::empty() =~= texts(r@));
        },
    }
    extend_texts(&mut r, config_dirs);
    if !musl {
        let more = default_dirs_for_arch_and_machine(arch, machine, solaris);
        extend_texts(&mut r, &more);
    } else {
        assert(texts(r@) + Seq::<Text>::empty() =~= texts(r@));
    }
    r
}

/// Puts the library directories inside `dir` at the end of `out`.
fn push_lib_subdirs(out: &mut Vec<String>, dir: &str)
    ensures
        texts(final(out)@) == texts(old(out)@) + lib_subdirs(dir@),
{
    let a = join(dir, "lib");
    let b = join(dir, "lib64");
    let c = join(dir, "libs");
    proof {
        lemma_texts_push(out@, a);
        lemma_texts_push(out@.push(a), b);
        lemma_texts_push(out@.push(a).push(b), c);
        assert(texts(out@).push(a@).push(b@).push(c@) =~= texts(out@) + lib_subdirs(dir@));
    }
    out.push(a);
    out.push(b);
    out.push(c);
}

/// The directories next to the binary at `real_path`, which the caller has
/// resolved as far as the file system lets it.
pub fn extra_lib_dirs_for_bin(real_path: &str) -> (r: Vec<String>)
    ensures
        texts(r@) == adjacent_dirs(real_path@),
{
    let mut r: Vec<String> = Vec::new();
    let bin_dir = match parent(real_path) {
        Some(p) => p,
        None => {
            assert(texts(r@) =~= Seq::<Text>::empty());
            return r;
        },
    };
    proof {
        lemma_texts_push(r@, bin_dir);
    }
    r.push(bin_dir.clone());
    push_lib_subdirs(&mut r, bin_dir.as_str());
    let named_bin = match file_name(bin_dir.as_str()) {
        Some(f) => same_text(f.as_str(), "bin"),
        None => false,
    };
    if named_bin {
        match parent(bin_dir.as_str()) {
            Some(up) => {
                push_lib_subdirs(&mut r, up.as_str());
            },
            None => {},
        }
    }
    assert(texts(r@) =~= adjacent_dirs(real_path@));
    r
}

/// Puts `dir` at the end of `dirs` unless it stands there already. Run
/// over a list from its start, this leaves the first of each of its items,
/// in their order.
pub fn push_unique(dirs: &mut Vec<String>, dir: String)
    ensures
        texts(final(dirs)@) == if texts(old(dirs)@).contains(dir@) {
            texts(old(dirs)@)
        } else {
            texts(old(dirs)@).push(dir@)
        },
{
    if !has_text(dirs, dir.as_str()) {
        proof {
            lemma_texts_push(dirs@, dir);
        }
        dirs.push(dir);
    }
}

} // verus!
