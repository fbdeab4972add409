//! What the resolver reads of an ELF file: its class, machine and link
//! type, its interpreter, and the names and search paths in its dynamic
//! section.

use crate::text::{texts, Text};
use vstd::prelude::*;

verus! {

/// `e_type` of an executable file.
pub const ET_EXEC: u16 = 2;

/// `e_type` of a shared object, which a position-independent executable is too.
pub const ET_DYN: u16 = 3;

/// `e_machine` of Intel 80386.
pub const EM_386: u16 = 3;

/// `e_machine` of MIPS.
pub const EM_MIPS: u16 = 8;

/// `e_machine` of 32-bit PowerPC.
pub const EM_PPC: u16 = 20;

/// `e_machine` of 32-bit ARM.
pub const EM_ARM: u16 = 40;

/// `e_machine` of AMD x86-64.
pub const EM_X86_64: u16 = 62;

/// `e_machine` of 64-bit ARM.
pub const EM_AARCH64: u16 = 183;

/// The word size of an ELF file.
#[derive(Debug, Clone, Copy, PartialEq, Eq, Structural)]
pub enum ElfArch {
    Elf32,
    Elf64,
    Unknown,
}

/// The processor an ELF file was built for, as far as the search rules
/// tell processors apart.
#[derive(Debug, Clone, Copy, PartialEq, Eq, Structural)]
pub enum ElfMachine {
    X86,
    X86_64,
    Arm32,
    Arm64,
    Mips,
    PowerPC,
    Unknown,
}

/// How an ELF file is linked. `Invalid` is any file that is neither an
/// executable nor a shared object, a core dump for one.
#[derive(Debug, Clone, Copy, PartialEq, Eq, Structural)]
pub enum ElfType {
    Static,
    Dynamic,
    Pie,
    Invalid,
}

impl ElfType {
    pub fn is_static(&self) -> (r: bool)
        ensures
            r == (*self == ElfType::Static),
    {
        *self == ElfType::Static
    }

    pub fn is_dynamic(&self) -> (r: bool)
        ensures
            r == (*self == ElfType::Dynamic),
    {
        *self == ElfType::Dynamic
    }

    pub fn is_pie(&self) -> (r: bool)
        ensures
            r == (*self == ElfType::Pie),
    {
        *self == ElfType::Pie
    }

    pub fn is_valid(&self) -> (r: bool)
        ensures
            r == (*self != ElfType::Invalid),
    {
        *self != ElfType::Invalid
    }
}

/// The fields of a parsed ELF file that the resolver reads.
#[derive(Debug, Clone)]
pub struct ElfMetadata {
    /// Whether the file is of the 64-bit class.
    pub is_64: bool,
    /// The header's `e_type`.
    pub e_type: u16,
    /// The header's `e_machine`.
    pub e_machine: u16,
    /// Whether the file has a dynamic section.
    pub has_dynamic: bool,
    /// The program interpreter, where the file names one.
    pub interpreter: Option<String>,
    /// The `NEEDED` names, in the order of their declaration.
    pub libraries: Vec<String>,
    /// The `RPATH` entries, in the order of their declaration.
    pub rpaths: Vec<String>,
    /// The `RUNPATH` entries, in the order of their declaration.
    pub runpaths: Vec<String>,
}

/// An `ElfMetadata` as the contracts see it.
pub struct ElfFacts {
    pub is_64: bool,
    pub e_type: u16,
    pub e_machine: u16,
    pub has_dynamic: bool,
    pub interpreter: Option<Text>,
    pub libraries: Seq<Text>,
    pub rpaths: Seq<Text>,
    pub runpaths: Seq<Text>,
}

impl View for ElfMetadata {
    type V = ElfFacts;

    open spec fn view(&self) -> ElfFacts {
        ElfFacts {
            is_64: self.is_64,
            e_type: self.e_type,
            e_machine: self.e_machine,
            has_dynamic: self.has_dynamic,
            interpreter: match self.interpreter {
                Some(s) => Some(s@),
                None => None,
            },
            libraries: texts(self.libraries@),
            rpaths: texts(self.rpaths@),
            runpaths: texts(self.runpaths@),
        }
    }
}

/// The view of metadata that may be missing.
pub open spec fn facts_of(m: Option<ElfMetadata>) -> Option<ElfFacts> {
    match m {
        Some(m) => Some(m@),
        None => None,
    }
}

/// The word size that the class bit stands for.
pub open spec fn arch_of(is_64: bool) -> ElfArch {
    if is_64 {
        ElfArch::Elf64
    } else {
        ElfArch::Elf32
    }
}

/// The machine that an `e_machine` value stands for.
pub open spec fn machine_of(e_machine: u16) -> ElfMachine {
    if e_machine == EM_386 {
        ElfMachine::X86
    } else if e_machine == EM_X86_64 {
        ElfMachine::X86_64
    } else if e_machine == EM_ARM {
        ElfMachine::Arm32
    } else if e_machine == EM_AARCH64 {
        ElfMachine::Arm64
    } else if e_machine == EM_MIPS {
        ElfMachine::Mips
    } else if e_machine == EM_PPC {
        ElfMachine::PowerPC
    } else {
        ElfMachine::Unknown
    }
}

/// The link type of a file. An executable is dynamic if it has a dynamic
/// section and static if not. A shared object that names an interpreter is
/// a position-independent executable, one that names none a plain shared
/// object. Every other file type is invalid.
pub open spec fn link_type(e_type: u16, has_dynamic: bool, has_interpreter: bool) -> ElfType {
    if e_type == ET_EXEC {
        if has_dynamic {
            ElfType::Dynamic
        } else {
            ElfType::Static
        }
    } else if e_type == ET_DYN {
        if has_interpreter {
            ElfType::Pie
        } else {
            ElfType::Dynamic
        }
    } else {
        ElfType::Invalid
    }
}

/// Whether a file of the given class may be loaded into a process of word
/// size `arch`. An unknown word size accepts both classes.
pub open spec fn arch_matches(arch: ElfArch, is_64: bool) -> bool {
    match arch {
        ElfArch::Elf32 => !is_64,
        ElfArch::Elf64 => is_64,
        ElfArch::Unknown => true,
    }
}

/// What parsing the bytes of a file as ELF yields: the fields read here
/// where the bytes parse, nothing where they do not.
pub uninterp spec fn elf_image(bytes: Seq<u8>) -> Option<ElfFacts>;

/// Parses `bytes` with `goblin::elf::Elf::parse` and copies out the fields
/// that the resolver reads. The contract claims only that the outcome is a
/// function of the bytes; which bytes parse, and to what, is goblin's
/// matter.
#[verifier::external_body]
pub(crate) fn parse_image(bytes: &[u8]) -> (r: Option<ElfMetadata>)
    ensures
        facts_of(r) == elf_image(bytes@),
{
    match goblin::elf::Elf::parse(bytes) {
        Ok(elf) => Some(
            ElfMetadata {
                is_64: elf.is_64,
                e_type: elf.header.e_type,
                e_machine: elf.header.e_machine,
                has_dynamic: elf.dynamic.is_some(),
                interpreter: elf.interpreter.map(String::from),
                libraries: elf.libraries.iter().map(ToString::to_string).collect(),
                rpaths: elf.rpaths.iter().map(ToString::to_string).collect(),
                runpaths: elf.runpaths.iter().map(ToString::to_string).collect(),
            },
        ),
        Err(_) => None,
    }
}

impl ElfMetadata {
    /// The word size of the file.
    pub fn arch(&self) -> (a: ElfArch)
        ensures
            a == arch_of(self.is_64),
    {
        if self.is_64 {
            ElfArch::Elf64
        } else {
            ElfArch::Elf32
        }
    }

    /// The machine of the file.
    pub fn machine(&self) -> (m: ElfMachine)
        ensures
            m == machine_of(self.e_machine),
    {
        machine_from_e_machine(self.e_machine)
    }
}

/// The machine that an `e_machine` value stands for.
pub fn machine_from_e_machine(e_machine: u16) -> (m: ElfMachine)
    ensures
        m == machine_of(e_machine),
{
    if e_machine == EM_386 {
        ElfMachine::X86
    } else if e_machine == EM_X86_64 {
        ElfMachine::X86_64
    } else if e_machine == EM_ARM {
        ElfMachine::Arm32
    } else if e_machine == EM_AARCH64 {
        ElfMachine::Arm64
    } else if e_machine == EM_MIPS {
        ElfMachine::Mips
    } else if e_machine == EM_PPC {
        ElfMachine::PowerPC
    } else {
        ElfMachine::Unknown
    }
}

/// The link type of a parsed file.
pub fn get_elf_type(elf: &ElfMetadata) -> (t: ElfType)
    ensures
        t == link_type(elf.e_type, elf.has_dynamic, elf.interpreter.is_some()),
        elf.e_type == ET_EXEC && elf.has_dynamic ==> t == ElfType::Dynamic,
        elf.e_type == ET_EXEC && !elf.has_dynamic ==> t == ElfType::Static,
        elf.e_type == ET_DYN && elf.interpreter.is_some() ==> t == ElfType::Pie,
        elf.e_type == ET_DYN && elf.interpreter.is_none() ==> t == ElfType::Dynamic,
        elf.e_type != ET_EXEC && elf.e_type != ET_DYN ==> t == ElfType::Invalid,
{
    if elf.e_type == ET_EXEC {
        if elf.has_dynamic {
            ElfType::Dynamic
        } else {
            ElfType::Static
        }
    } else if elf.e_type == ET_DYN {
        if elf.interpreter.is_some() {
            ElfType::Pie
        } else {
            ElfType::Dynamic
        }
    } else {
        ElfType::Invalid
    }
}

/// Whether the file `sub_elf` has the word size `arch`.
pub fn is_same_arch(arch: ElfArch, sub_elf: &ElfMetadata) -> (r: bool)
    ensures
        r == arch_matches(arch, sub_elf.is_64),
{
    match arch {
        ElfArch::Elf32 => !sub_elf.is_64,
        ElfArch::Elf64 => sub_elf.is_64,
        ElfArch::Unknown => true,
    }
}

} // verus!
