//! What a resolution reports, and the options that it runs under.

use crate::elf::{ElfArch, ElfType};
use crate::resolver::{records, Resolution, ResolutionModel};
use crate::text::{same_text, texts, Text};
use vstd::prelude::*;

verus! {

/// Which configuration of library directories the platform keeps.
#[derive(Debug, Clone, Copy, PartialEq, Eq, Structural)]
pub enum PlatformConfigKind {
    /// The loader's configuration file, with the files that it includes.
    GlibcStyle,
    /// No such file: the musl loader keeps a path file, which is read for
    /// the binaries that name that loader, on every platform.
    MuslStyle,
    /// None at all.
    Absent,
}

/// The options of a resolution.
#[derive(Debug, Clone, Copy, PartialEq, Eq, Structural)]
pub struct Config {
    /// Whether the directories that the environment lists are searched.
    pub use_environment_search_paths: bool,
    /// Whether a library of another word size than the binary is turned
    /// down.
    pub enforce_arch_match: bool,
    /// Which configuration of library directories the platform keeps.
    pub platform_config_kind: PlatformConfigKind,
    /// Whether the platform keeps the library directories of Solaris,
    /// `/usr/lib/32` and `/usr/lib/64`, beside those of its word size.
    pub solaris_directories: bool,
}

/// What a resolution found out about a binary.
#[derive(Debug)]
pub struct RlddRexInfo {
    /// The word size of the binary.
    pub arch: ElfArch,
    /// How the binary is linked.
    pub elf_type: ElfType,
    /// The libraries that the binary needs, itself or through others, each
    /// with the path of its file or with `not found` or `arch mismatch`, in
    /// the order in which their names were first met.
    pub deps: Vec<(String, String)>,
}

/// The views of a list of pairs of strings, in order.
pub open spec fn pairs(v: Seq<(String, String)>) -> Seq<(Text, Text)> {
    Seq::new(v.len(), |i: int| (v[i].0@, v[i].1@))
}

/// How a resolution reads in a report.
pub open spec fn status_of(r: ResolutionModel) -> Text {
    match r {
        ResolutionModel::Path(p) => p,
        ResolutionModel::NotFound => "not found"@,
        ResolutionModel::ArchMismatch => "arch mismatch"@,
    }
}

/// How a record of resolved names reads in a report.
pub open spec fn rendered(deps: Seq<(Text, ResolutionModel)>) -> Seq<(Text, Text)> {
    Seq::new(deps.len(), |i: int| (deps[i].0, status_of(deps[i].1)))
}

/// The resolution that a record holds for `name`: that of its first entry
/// of that name.
pub open spec fn status_in(deps: Seq<(Text, ResolutionModel)>, name: Text) -> Option<
    ResolutionModel,
>
    decreases deps.len(),
{
    if deps.len() == 0 {
        None
    } else if deps[0].0 == name {
        Some(deps[0].1)
    } else {
        status_in(deps.skip(1), name)
    }
}

/// The names met, in the order in which they were met, each with the
/// resolution that the record holds for it; a name that the record does not
/// hold yet is left out.
pub open spec fn in_order_met(seen: Seq<Text>, deps: Seq<(Text, ResolutionModel)>) -> Seq<
    (Text, ResolutionModel),
>
    decreases seen.len(),
{
    if seen.len() == 0 {
        Seq::empty()
    } else {
        let rest = in_order_met(seen.drop_last(), deps);
        match status_in(deps, seen.last()) {
            Some(status) => rest.push((seen.last(), status)),
            None => rest,
        }
    }
}

/// What is reported of a file that cannot be read or is no ELF file.
pub fn empty_info() -> (r: RlddRexInfo)
    ensures
        r.arch == ElfArch::Unknown,
        r.elf_type == ElfType::Invalid,
        r.deps@.len() == 0,
{
    RlddRexInfo { arch: ElfArch::Unknown, elf_type: ElfType::Invalid, deps: Vec::new() }
}

/// How a resolution reads in a report.
pub fn status_text(r: &Resolution) -> (s: String)
    ensures
        s@ == status_of(r@),
{
    match r {
        Resolution::Path(p) => p.clone(),
        Resolution::NotFound => String::from_str("not found"),
        Resolution::ArchMismatch => String::from_str("arch mismatch"),
    }
}

/// The index of the first entry of `name` in a record.
fn find_status(deps: &Vec<(String, Resolution)>, name: &str) -> (r: Option<usize>)
    ensures
        match r {
            Some(i) => i < deps.len() && status_in(records(deps@), name@) == Some(deps@[i as int].1@),
            None => status_in(records(deps@), name@).is_none(),
        },
{
    let mut i: usize = 0;
    assert(records(deps@).skip(0) =~= records(deps@));
    while i < deps.len()
        invariant
            i <= deps.len(),
            status_in(records(deps@), name@) == status_in(records(deps@).skip(i as int), name@),
        decreases deps.len() - i,
    {
        assert(records(deps@).skip(i as int)[0] == records(deps@)[i as int]);
        if same_text(deps[i].0.as_str(), name) {
            return Some(i);
        }
        assert(records(deps@).skip(i as int).skip(1) =~= records(deps@).skip(i + 1));
        i += 1;
    }
    None
}

/// The report of a binary of the given word size and link type: the names
/// that the walk met, in the order in which it met them, each with the
/// resolution that the walk recorded for it.
pub fn report(
    arch: ElfArch,
    elf_type: ElfType,
    seen: &Vec<String>,
    deps: &Vec<(String, Resolution)>,
) -> (r: RlddRexInfo)
    ensures
        r.arch == arch,
        r.elf_type == elf_type,
        pairs(r.deps@) == rendered(in_order_met(texts(seen@), records(deps@))),
{
    let mut out: Vec<(String, String)> = Vec::new();
    let mut i: usize = 0;
    assert(texts(seen@).take(0) =~= Seq::<Text>::empty());
    assert(pairs(out@) =~= rendered(in_order_met(texts(seen@).take(0), records(deps@))));
    while i < seen.len()
        invariant
            i <= seen.len(),
            pairs(out@) == rendered(in_order_met(texts(seen@).take(i as int), records(deps@))),
        decreases seen.len() - i,
    {
        proof {
            assert(texts(seen@).take(i + 1).drop_last() =~= texts(seen@).take(i as int));
            assert(texts(seen@).take(i + 1).last() == seen@[i as int]@);
        }
        match find_status(deps, seen[i].as_str()) {
            Some(k) => {
                let name = seen[i].clone();
                let status = status_text(&deps[k].1);
                proof {
                    let before = in_order_met(texts(seen@).take(i as int), records(deps@));
                    assert(pairs(out@.push((name, status))) =~= pairs(out@).push((name@, status@)));
                    assert(rendered(before.push((name@, deps@[k as int].1@))) =~= rendered(
                        before,
                    ).push((name@, status@)));
                }
                out.push((name, status));
            },
            None => {},
        }
        i += 1;
    }
    assert(texts(seen@).take(seen.len() as int) =~= texts(seen@));
    RlddRexInfo { arch, elf_type, deps: out }
}

} // verus!
