//! One resolution from its start to its report.
//!
//! A session goes through its phases in order: the loader of a musl binary
//! is looked up; the configuration of library directories is read; the
//! binary's own path is resolved; every directory of the search is resolved
//! and the repeats among them dropped; then the libraries are walked. In
//! each phase the session names what it needs from the file system, and
//! the caller answers. What it passes over on the way, it notes: no failure
//! of a single file ends a session with an error.

use crate::elf::{
    arch_of,
    elf_image,
    facts_of,
    get_elf_type,
    link_type,
    machine_of,
    parse_image,
    ElfArch,
    ElfFacts,
    ElfMachine,
    ElfMetadata,
    ElfType,
};
use crate::ldconf::{ConfModel, ConfWalk, Job, JobModel, MAX_INCLUDES};
use crate::laws::{law_session_begins_sound, law_session_stays_sound, session_sound};
use crate::notes::{extend_warnings, lemma_warnings_push, warnings_of, Warning, WarningModel};
use crate::paths::{file_name, file_name_of};
use crate::report::{
    in_order_met,
    pairs,
    rendered,
    report,
    status_in,
    Config,
    PlatformConfigKind,
    RlddRexInfo,
};
use crate::request::{Request, RequestModel};
use crate::resolver::{pair_of, ResolutionModel, Walk, WalkModel};
use crate::search::{
    adjacent_dirs,
    build_search_dirs,
    composed_dirs,
    extend_texts,
    extra_lib_dirs_for_bin,
    path_file_dirs,
    path_lines,
    push_unique,
};
use crate::text::{contains, contains_text, texts, Text};
use vstd::prelude::*;

verus! {

/// Where a session stands.
#[derive(Debug, Clone, Copy, PartialEq, Eq, Structural)]
pub enum Phase {
    /// The loader of a musl binary is looked up.
    Interpreter,
    /// The path file of the musl loader is read.
    PathFile,
    /// The loader's configuration is walked.
    LoaderConfig,
    /// The binary's own path is resolved.
    BinaryDir,
    /// The directories of the search are resolved, one by one.
    FinalPass,
    /// The libraries are walked.
    Walk,
    /// The report is complete.
    Done,
}

/// The path of the loader's configuration file.
pub open spec fn loader_config_path() -> Text {
    "/etc/ld.so.conf"@
}

/// The path of the musl loader's path file.
pub open spec fn musl_path_file() -> Text {
    "/etc/ld-musl-x86_64.path"@
}

/// Whether an interpreter is the musl loader: whether its path holds `musl`.
pub open spec fn names_musl(interp: Option<Text>) -> bool {
    match interp {
        Some(i) => contains_text(i, "musl"@),
        None => false,
    }
}

/// The name under which a loader is reported: the name that its path ends
/// in, or the whole path where it ends in none.
pub open spec fn loader_name(interp: Text) -> Text {
    match file_name_of(interp) {
        Some(n) => n,
        None => interp,
    }
}

/// An answer that names a path, or `fallback` where the file system had
/// none to give.
pub open spec fn answered(answer: Option<Text>, fallback: Text) -> Text {
    match answer {
        Some(p) => p,
        None => fallback,
    }
}

/// The view of a string slice that may be missing.
pub open spec fn text_of(o: Option<&str>) -> Option<Text> {
    match o {
        Some(s) => Some(s@),
        None => None,
    }
}

/// The view of a string that may be missing.
pub open spec fn string_of(o: Option<String>) -> Option<Text> {
    match o {
        Some(s) => Some(s@),
        None => None,
    }
}

/// The views of a list of strings that may be missing.
pub open spec fn texts_of(o: Option<Vec<String>>) -> Option<Seq<Text>> {
    match o {
        Some(v) => Some(texts(v@)),
        None => None,
    }
}

/// The view of bytes that may be missing.
pub open spec fn bytes_of(bytes: Option<&[u8]>) -> Option<Seq<u8>> {
    match bytes {
        Some(b) => Some(b@),
        None => None,
    }
}

/// What the bytes of a file parse to, where there are any.
pub open spec fn image_of(bytes: Option<&[u8]>) -> Option<ElfFacts> {
    match bytes {
        Some(b) => elf_image(b@),
        None => None,
    }
}

/// The state of a session.
pub struct SessionModel {
    /// The options of the resolution.
    pub config: Config,
    /// The path of the binary, as the caller gave it.
    pub path: Text,
    /// The word size of the binary.
    pub arch: ElfArch,
    /// The machine of the binary.
    pub machine: ElfMachine,
    /// The link type of the binary.
    pub elf_type: ElfType,
    /// The interpreter that the binary names.
    pub interp: Option<Text>,
    /// What the binary parsed to, until the walk takes it over.
    pub root: Option<ElfFacts>,
    /// The list of directories from the environment, where it is wanted.
    pub env: Option<Text>,
    /// Where the session stands.
    pub phase: Phase,
    /// The musl loader's name and path, once it was looked up.
    pub first: Option<(Text, Text)>,
    /// The walk through the loader's configuration.
    pub conf: ConfModel,
    /// The directories of the configuration.
    pub config_dirs: Seq<Text>,
    /// The directories of the search before the final pass.
    pub raw: Seq<Text>,
    /// How many of them the final pass has resolved.
    pub pass: int,
    /// The directories of the search as the final pass leaves them.
    pub dirs: Seq<Text>,
    /// The walk through the libraries, once it began.
    pub walk: Option<WalkModel>,
    /// What the session itself passed over: a binary that cannot be read
    /// or is no ELF file, and a path file that cannot be read.
    pub notes: Seq<WarningModel>,
}

impl SessionModel {
    /// The session of a file that could not be read or is no ELF file: it
    /// is over at once, with nothing to report.
    pub open spec fn neutral(path: Text, config: Config) -> SessionModel {
        SessionModel {
            config,
            path,
            arch: ElfArch::Unknown,
            machine: ElfMachine::Unknown,
            elf_type: ElfType::Invalid,
            interp: None,
            root: None,
            env: None,
            phase: Phase::Done,
            first: None,
            conf: ConfModel::idle(),
            config_dirs: Seq::empty(),
            raw: Seq::empty(),
            pass: 0,
            dirs: Seq::empty(),
            walk: None,
            notes: Seq::empty(),
        }
    }

    /// The session of the binary at `path`, whose bytes are `bytes` or
    /// could not be read. A file that cannot be read is noted, and the
    /// session is over at once.
    pub open spec fn opened(
        path: Text,
        bytes: Option<Seq<u8>>,
        config: Config,
        env: Option<Text>,
    ) -> SessionModel {
        match bytes {
            None => SessionModel {
                notes: seq![WarningModel::Unreadable(path)],
                ..SessionModel::neutral(path, config)
            },
            Some(b) => SessionModel::start(path, elf_image(b), config, env),
        }
    }

    /// The session of the binary at `path`, which parsed to `image` or did
    /// not parse; one that does not parse is noted, and the session is over
    /// at once. The list of `env` counts only where the options want it.
    /// A musl binary has its loader looked up first; any other goes on to
    /// the configuration.
    pub open spec fn start(
        path: Text,
        image: Option<ElfFacts>,
        config: Config,
        env: Option<Text>,
    ) -> SessionModel {
        match image {
            None => SessionModel {
                notes: seq![WarningModel::NotElf(path)],
                ..SessionModel::neutral(path, config)
            },
            Some(meta) => {
                let s = SessionModel {
                    arch: arch_of(meta.is_64),
                    machine: machine_of(meta.e_machine),
                    elf_type: link_type(meta.e_type, meta.has_dynamic, meta.interpreter.is_some()),
                    interp: meta.interpreter,
                    root: Some(meta),
                    env: if config.use_environment_search_paths {
                        env
                    } else {
                        None
                    },
                    phase: Phase::Interpreter,
                    ..SessionModel::neutral(path, config)
                };
                if s.musl() {
                    s
                } else {
                    s.enter_config()
                }
            },
        }
    }

    /// Whether the binary names the musl loader.
    pub open spec fn musl(self) -> bool {
        names_musl(self.interp)
    }

    /// The same session in another phase.
    pub open spec fn at(self, phase: Phase) -> SessionModel {
        SessionModel { phase, ..self }
    }

    /// The session as it turns to the configuration: the path file for a
    /// musl binary; for any other the loader's configuration, where the
    /// platform keeps one, and else nothing.
    pub open spec fn enter_config(self) -> SessionModel {
        if self.musl() {
            self.at(Phase::PathFile)
        } else if self.config.platform_config_kind == PlatformConfigKind::GlibcStyle {
            SessionModel { conf: ConfModel::start(loader_config_path(), MAX_INCLUDES as nat), ..self }.at(
                Phase::LoaderConfig,
            )
        } else {
            self.at(Phase::BinaryDir)
        }
    }

    /// The session as it leaves the configuration with the directories
    /// `found`.
    pub open spec fn leave_config(self, found: Seq<Text>) -> SessionModel {
        SessionModel { config_dirs: found, ..self }.at(Phase::BinaryDir)
    }

    /// The session after a step of the walk through the loader's
    /// configuration, which it leaves when that walk is over.
    pub open spec fn conf_step(self, conf: ConfModel) -> SessionModel {
        let s = SessionModel { conf, ..self };
        if conf.pending().is_none() {
            s.leave_config(conf.dirs)
        } else {
            s
        }
    }

    /// The directories of the search before the final pass, for a binary
    /// whose resolved path is `bin`: the composed ones, then those next to
    /// the binary.
    pub open spec fn search_list(self, bin: Text) -> Seq<Text> {
        composed_dirs(
            self.musl(),
            self.arch,
            self.machine,
            self.config.solaris_directories,
            self.env,
            self.config_dirs,
        )
            + adjacent_dirs(bin)
    }

    /// The session as the final pass begins.
    pub open spec fn begin_pass(self, bin: Text) -> SessionModel {
        SessionModel { raw: self.search_list(bin), pass: 0, dirs: Seq::empty(), ..self }.at(
            Phase::FinalPass,
        ).advance()
    }

    /// The session as the final pass goes on to its next directory or, after
    /// the last, gives way to the walk.
    pub open spec fn advance(self) -> SessionModel {
        if 0 <= self.pass < self.raw.len() {
            self.at(Phase::FinalPass)
        } else {
            self.begin_walk()
        }
    }

    /// The session as the walk begins, with the search that the final pass
    /// left and with the musl loader, if any, at the head of the record.
    pub open spec fn begin_walk(self) -> SessionModel {
        match self.root {
            Some(meta) => SessionModel {
                walk: Some(
                    WalkModel::start(
                        self.path,
                        meta,
                        self.arch,
                        self.dirs,
                        self.config.enforce_arch_match,
                        self.first,
                    ),
                ),
                root: None,
                ..self
            }.at(Phase::Walk),
            None => self.at(Phase::Done),
        }
    }

    /// The session after a step of the walk through the libraries, with
    /// which it is over when that walk is.
    pub open spec fn walk_step(self, walk: WalkModel) -> SessionModel {
        SessionModel { walk: Some(walk), ..self }.at(
            if walk.stage is Done {
                Phase::Done
            } else {
                Phase::Walk
            },
        )
    }

    /// What the session asks next.
    pub open spec fn pending(self) -> RequestModel {
        match self.phase {
            Phase::Interpreter => match self.interp {
                Some(i) => RequestModel::Canonicalize(i),
                None => RequestModel::Done,
            },
            Phase::PathFile => RequestModel::ReadText(musl_path_file()),
            Phase::LoaderConfig => match self.conf.pending() {
                Some(JobModel::Read(p)) => RequestModel::ReadText(p),
                Some(JobModel::Expand(p)) => RequestModel::Glob(p),
                Some(JobModel::Check(p)) => RequestModel::IsDir(p),
                None => RequestModel::Done,
            },
            Phase::BinaryDir => RequestModel::Canonicalize(self.path),
            Phase::FinalPass => RequestModel::Canonicalize(self.raw[self.pass]),
            Phase::Walk => match self.walk {
                Some(w) => w.pending(),
                None => RequestModel::Done,
            },
            Phase::Done => RequestModel::Done,
        }
    }

    /// The session after a pending `Canonicalize` was answered with the
    /// resolved path, or with nothing where the path cannot be resolved;
    /// the path as it stood is taken then. The loader is recorded under its
    /// name; the binary's path yields the directories next to it; a
    /// directory of the search joins the final list unless it stands there.
    pub open spec fn canonicalized(self, answer: Option<Text>) -> SessionModel {
        match self.phase {
            Phase::Interpreter => match self.interp {
                Some(i) => SessionModel {
                    first: Some((loader_name(i), answered(answer, i))),
                    ..self
                }.enter_config(),
                None => self,
            },
            Phase::BinaryDir => self.begin_pass(answered(answer, self.path)),
            Phase::FinalPass => {
                let dir = answered(answer, self.raw[self.pass]);
                SessionModel {
                    dirs: if self.dirs.contains(dir) {
                        self.dirs
                    } else {
                        self.dirs.push(dir)
                    },
                    pass: self.pass + 1,
                    ..self
                }.advance()
            },
            _ => self,
        }
    }

    /// The session after a pending `ReadText` was answered with the text of
    /// the file, or with nothing where it cannot be read, which is noted.
    pub open spec fn text_read(self, content: Option<Text>) -> SessionModel {
        match self.phase {
            Phase::PathFile => match content {
                Some(c) => self.leave_config(path_file_dirs(c)),
                None => SessionModel {
                    notes: self.notes.push(WarningModel::Unreadable(musl_path_file())),
                    ..self
                }.leave_config(Seq::empty()),
            },
            Phase::LoaderConfig => self.conf_step(self.conf.file_read(content)),
            _ => self,
        }
    }

    /// The session after a pending `Glob` was answered with the regular
    /// files that match, or with nothing where the pattern is malformed.
    pub open spec fn globbed(self, files: Option<Seq<Text>>) -> SessionModel {
        match self.phase {
            Phase::LoaderConfig => self.conf_step(self.conf.expanded(files)),
            _ => self,
        }
    }

    /// The session after a pending `IsDir` was answered.
    pub open spec fn dir_checked(self, is_dir: bool) -> SessionModel {
        match self.phase {
            Phase::LoaderConfig => self.conf_step(self.conf.checked(is_dir)),
            _ => self,
        }
    }

    /// The session after a pending `Identify` was answered.
    pub open spec fn identified(self, id: Option<(u64, u64)>) -> SessionModel {
        match (self.phase, self.walk) {
            (Phase::Walk, Some(w)) => self.walk_step(w.identified(id)),
            _ => self,
        }
    }

    /// The session after a pending `Exists` was answered.
    pub open spec fn probed(self, exists: bool) -> SessionModel {
        match (self.phase, self.walk) {
            (Phase::Walk, Some(w)) => self.walk_step(w.probed(exists)),
            _ => self,
        }
    }

    /// The session after a pending `Load` was answered with a file that
    /// parsed to `image`, or with none that does.
    pub open spec fn loaded(self, image: Option<ElfFacts>) -> SessionModel {
        match (self.phase, self.walk) {
            (Phase::Walk, Some(w)) => self.walk_step(w.loaded(image)),
            _ => self,
        }
    }

    /// What the session passed over, in the order in which it came to it:
    /// files that cannot be read or are no ELF, patterns that are malformed
    /// or beyond the limit, files without identity, and files below the
    /// depth limit.
    pub open spec fn warnings(self) -> Seq<WarningModel> {
        self.notes + self.conf.warnings + match self.walk {
            Some(w) => w.warnings,
            None => Seq::empty(),
        }
    }

    /// The names met so far, in the order in which they were met.
    pub open spec fn met(self) -> Seq<Text> {
        match self.walk {
            Some(w) => w.seen,
            None => match self.first {
                Some(r) => seq![r.0],
                None => Seq::empty(),
            },
        }
    }

    /// What the session reports: the names met, in the order in which they
    /// were met, each with its resolution.
    pub open spec fn reported(self) -> Seq<(Text, ResolutionModel)> {
        in_order_met(self.met(), self.deps())
    }

    /// The names resolved so far, each with its resolution, in the order in
    /// which they were recorded.
    pub open spec fn deps(self) -> Seq<(Text, ResolutionModel)> {
        match self.walk {
            Some(w) => w.deps,
            None => match self.first {
                Some(r) => seq![(r.0, ResolutionModel::Path(r.1))],
                None => Seq::empty(),
            },
        }
    }

    /// The state is well-formed for the phase.
    pub open spec fn inv(self) -> bool {
        match self.phase {
            Phase::Done => match self.walk {
                Some(w) => w.shaped() && w.stage is Done,
                None => self.root.is_none() && self.first.is_none(),
            },
            Phase::Walk => match self.walk {
                Some(w) => w.shaped() && !(w.stage is Done),
                None => false,
            },
            _ => {
                &&& self.walk.is_none()
                &&& self.root.is_some()
                &&& self.phase == Phase::Interpreter ==> self.interp.is_some()
                &&& self.phase == Phase::LoaderConfig ==> self.conf.pending().is_some()
                &&& self.phase == Phase::FinalPass ==> 0 <= self.pass < self.raw.len()
            },
        }
    }
}

/// One resolution from its start to its report.
pub struct Session {
    config: Config,
    path: String,
    arch: ElfArch,
    machine: ElfMachine,
    elf_type: ElfType,
    interp: Option<String>,
    root: Option<ElfMetadata>,
    env: Option<String>,
    phase: Phase,
    first: Option<(String, String)>,
    conf: ConfWalk,
    config_dirs: Vec<String>,
    raw: Vec<String>,
    pass: usize,
    dirs: Vec<String>,
    walk: Option<Walk>,
    notes: Vec<Warning>,
}

impl View for Session {
    type V = SessionModel;

    closed spec fn view(&self) -> SessionModel {
        SessionModel {
            config: self.config,
            path: self.path@,
            arch: self.arch,
            machine: self.machine,
            elf_type: self.elf_type,
            interp: string_of(self.interp),
            root: facts_of(self.root),
            env: string_of(self.env),
            phase: self.phase,
            first: pair_of(self.first),
            conf: self.conf@,
            config_dirs: texts(self.config_dirs@),
            raw: texts(self.raw@),
            pass: self.pass as int,
            dirs: texts(self.dirs@),
            walk: match self.walk {
                Some(w) => Some(w@),
                None => None,
            },
            notes: warnings_of(self.notes@),
        }
    }
}

/// Begins the resolution of the binary at `path`. `bytes` are the bytes of
/// that file, or `None` where it could not be read; `env` is the list of
/// directories that the environment gives, where it gives one. A file that
/// cannot be read or does not parse yields no error: the session is over at
/// once, with the neutral report and a warning.
pub fn rldd_rex(path: &str, bytes: Option<&[u8]>, config: Config, env: Option<&str>) -> (s:
    Session)
    ensures
        s.wf(),
        s@ == SessionModel::opened(path@, bytes_of(bytes), config, text_of(env)),
        image_of(bytes).is_none() ==> s@.phase == Phase::Done && s@.arch == ElfArch::Unknown
            && s@.elf_type == ElfType::Invalid && s@.reported().len() == 0,
{
    proof {
        law_session_begins_sound(path@, image_of(bytes), bytes_of(bytes), config, text_of(env));
    }
    match bytes {
        Some(b) => Session::begin(path, parse_image(b), config, env),
        None => {
            let mut s = Session::blank(path, config);
            let w = Warning::Unreadable(String::from_str(path));
            proof {
                lemma_warnings_push(s.notes@, w);
                assert(warnings_of(s.notes@.push(w)) =~= seq![w@]);
            }
            s.notes.push(w);
            s
        },
    }
}

impl Session {
    /// The state is one that a session can reach. Every session that this
    /// module hands out is in such a state, so that every law of sessions
    /// holds of it.
    pub open spec fn wf(&self) -> bool {
        session_sound(self@)
    }

    /// The session that is over, with nothing to report.
    fn blank(path: &str, config: Config) -> (s: Session)
        ensures
            s@ == SessionModel::neutral(path@, config),
    {
        let s = Session {
            config,
            path: String::from_str(path),
            arch: ElfArch::Unknown,
            machine: ElfMachine::Unknown,
            elf_type: ElfType::Invalid,
            interp: None,
            root: None,
            env: None,
            phase: Phase::Done,
            first: None,
            conf: ConfWalk::idle(),
            config_dirs: Vec::new(),
            raw: Vec::new(),
            pass: 0,
            dirs: Vec::new(),
            walk: None,
            notes: Vec::new(),
        };
        proof {
            assert(texts(s.config_dirs@) =~= Seq::<Text>::empty());
            assert(texts(s.raw@) =~= Seq::<Text>::empty());
            assert(texts(s.dirs@) =~= Seq::<Text>::empty());
            assert(warnings_of(s.notes@) =~= Seq::<WarningModel>::empty());
        }
        s
    }

    /// Begins the resolution of the binary at `path`, which parsed to
    /// `meta` or did not parse.
    pub fn begin(path: &str, meta: Option<ElfMetadata>, config: Config, env: Option<&str>) -> (s:
        Session)
        ensures
            s.wf(),
            s@ == SessionModel::start(path@, facts_of(meta), config, text_of(env)),
    {
        proof {
            law_session_begins_sound(path@, facts_of(meta), None, config, text_of(env));
        }
        let mut s = Session::blank(path, config);
        match meta {
            None => {
                let w = Warning::NotElf(String::from_str(path));
                proof {
                    lemma_warnings_push(s.notes@, w);
                    assert(warnings_of(s.notes@.push(w)) =~= seq![w@]);
                }
                s.notes.push(w);
            },
            Some(m) => {
                s.arch = m.arch();
                s.machine = m.machine();
                s.elf_type = get_elf_type(&m);
                s.interp = match &m.interpreter {
                    Some(i) => Some(i.clone()),
                    None => None,
                };
                if config.use_environment_search_paths {
                    s.env = match env {
                        Some(v) => Some(String::from_str(v)),
                        None => None,
                    };
                }
                s.root = Some(m);
                s.phase = Phase::Interpreter;
                let musl = s.is_musl();
                if !musl {
                    s.enter_config();
                }
            },
        }
        s
    }

    /// Whether the binary names the musl loader.
    fn is_musl(&self) -> (r: bool)
        ensures
            r == self@.musl(),
    {
        match &self.interp {
            Some(i) => contains(i.as_str(), "musl"),
            None => false,
        }
    }

    fn enter_config(&mut self)
        requires
            old(self).walk.is_none(),
            old(self).root.is_some(),
        ensures
            final(self)@ == old(self)@.enter_config(),
            final(self)@.inv(),
    {
        if self.is_musl() {
            self.phase = Phase::PathFile;
        } else if self.config.platform_config_kind == PlatformConfigKind::GlibcStyle {
            self.conf = ConfWalk::new("/etc/ld.so.conf", MAX_INCLUDES);
            self.phase = Phase::LoaderConfig;
        } else {
            self.phase = Phase::BinaryDir;
        }
    }

    fn leave_config(&mut self, found: &Vec<String>)
        requires
            old(self).walk.is_none(),
            old(self).root.is_some(),
        ensures
            final(self)@ == old(self)@.leave_config(texts(found@)),
            final(self)@.inv(),
    {
        let mut dirs: Vec<String> = Vec::new();
        assert(texts(dirs@) =~= Seq::<Text>::empty());
        extend_texts(&mut dirs, found);
        assert(texts(dirs@) =~= texts(found@));
        self.config_dirs = dirs;
        self.phase = Phase::BinaryDir;
    }

    /// Leaves the walk through the loader's configuration when it is over.
    fn conf_step(&mut self, Ghost(before): Ghost<SessionModel>)
        requires
            old(self).walk.is_none(),
            old(self).root.is_some(),
            old(self).phase == Phase::LoaderConfig,
            old(self)@ == (SessionModel { conf: old(self)@.conf, ..before }),
        ensures
            final(self)@ == before.conf_step(old(self)@.conf),
            final(self)@.inv(),
    {
        let over = self.conf.pending().is_none();
        if over {
            let mut dirs: Vec<String> = Vec::new();
            assert(texts(dirs@) =~= Seq::<Text>::empty());
            extend_texts(&mut dirs, self.conf.dirs());
            assert(texts(dirs@) =~= self.conf@.dirs);
            self.leave_config(&dirs);
        }
    }

    fn begin_walk(&mut self)
        requires
            old(self).walk.is_none(),
            old(self).root.is_some(),
        ensures
            final(self)@ == old(self)@.begin_walk(),
            final(self)@.inv(),
    {
        let meta = self.root.take().unwrap();
        let mut dirs: Vec<String> = Vec::new();
        assert(texts(dirs@) =~= Seq::<Text>::empty());
        extend_texts(&mut dirs, &self.dirs);
        assert(texts(dirs@) =~= texts(self.dirs@));
        let first = match &self.first {
            Some(r) => Some((r.0.clone(), r.1.clone())),
            None => None,
        };
        let walk = Walk::new(
            self.path.clone(),
            meta,
            self.arch,
            dirs,
            self.config.enforce_arch_match,
            first,
        );
        self.walk = Some(walk);
        self.phase = Phase::Walk;
    }

    fn advance(&mut self)
        requires
            old(self).walk.is_none(),
            old(self).root.is_some(),
        ensures
            final(self)@ == old(self)@.advance(),
            final(self)@.inv(),
    {
        if self.pass < self.raw.len() {
            self.phase = Phase::FinalPass;
        } else {
            self.begin_walk();
        }
    }

    /// Whether the session is over.
    pub fn is_done(&self) -> (r: bool)
        ensures
            r == (self@.phase == Phase::Done),
    {
        self.phase == Phase::Done
    }

    /// What the session asks next.
    pub fn pending(&self) -> (r: Request)
        requires
            self.wf(),
        ensures
            r@ == self@.pending(),
    {
        match self.phase {
            Phase::Interpreter => match &self.interp {
                Some(i) => Request::Canonicalize(i.clone()),
                None => Request::Done,
            },
            Phase::PathFile => Request::ReadText(String::from_str("/etc/ld-musl-x86_64.path")),
            Phase::LoaderConfig => match self.conf.pending() {
                Some(Job::Read(p)) => Request::ReadText(p.clone()),
                Some(Job::Expand(p)) => Request::Glob(p.clone()),
                Some(Job::Check(p)) => Request::IsDir(p.clone()),
                None => Request::Done,
            },
            Phase::BinaryDir => Request::Canonicalize(self.path.clone()),
            Phase::FinalPass => Request::Canonicalize(self.raw[self.pass].clone()),
            Phase::Walk => match &self.walk {
                Some(w) => w.pending(),
                None => Request::Done,
            },
            Phase::Done => Request::Done,
        }
    }

    /// Takes the answer to a pending `Canonicalize`: the path with every
    /// symbolic link followed, or `None` where it cannot be resolved.
    /// Without such a request pending, nothing changes.
    pub fn canonicalized(&mut self, answer: Option<String>)
        requires
            old(self).wf(),
        ensures
            final(self).wf(),
            final(self)@ == old(self)@.canonicalized(string_of(answer)),
    {
        proof {
            law_session_stays_sound(self@, string_of(answer), None, None, false, None, None);
        }
        match self.phase {
            Phase::Interpreter => {
                let found = match &self.interp {
                    Some(i) => {
                        let name = match file_name(i.as_str()) {
                            Some(n) => n,
                            None => i.clone(),
                        };
                        let resolved = match answer {
                            Some(p) => p,
                            None => i.clone(),
                        };
                        Some((name, resolved))
                    },
                    None => None,
                };
                if found.is_some() {
                    self.first = found;
                    self.enter_config();
                }
            },
            Phase::BinaryDir => {
                let bin = match answer {
                    Some(p) => p,
                    None => self.path.clone(),
                };
                let env = match &self.env {
                    Some(v) => Some(v.as_str()),
                    None => None,
                };
                let mut raw = build_search_dirs(
                    self.is_musl(),
                    self.arch,
                    self.machine,
                    self.config.solaris_directories,
                    env,
                    &self.config_dirs,
                );
                let near = extra_lib_dirs_for_bin(bin.as_str());
                extend_texts(&mut raw, &near);
                self.raw = raw;
                self.pass = 0;
                self.dirs = Vec::new();
                assert(texts(self.dirs@) =~= Seq::<Text>::empty());
                self.phase = Phase::FinalPass;
                self.advance();
            },
            Phase::FinalPass => {
                assert(self.pass < self.raw.len()) by {
                    assert(self@.raw.len() == self.raw.len());
                }
                let dir = match answer {
                    Some(p) => p,
                    None => self.raw[self.pass].clone(),
                };
                push_unique(&mut self.dirs, dir);
                self.pass = self.pass + 1;
                self.advance();
            },
            _ => {},
        }
    }

    /// Takes the answer to a pending `ReadText`: the text of the file, or
    /// `None` where it cannot be read. Without such a request pending,
    /// nothing changes.
    pub fn text_read(&mut self, content: Option<&str>)
        requires
            old(self).wf(),
        ensures
            final(self).wf(),
            final(self)@ == old(self)@.text_read(text_of(content)),
    {
        proof {
            law_session_stays_sound(self@, None, text_of(content), None, false, None, None);
        }
        match self.phase {
            Phase::PathFile => {
                let found = match content {
                    Some(c) => path_lines(c),
                    None => {
                        let w = Warning::Unreadable(String::from_str("/etc/ld-musl-x86_64.path"));
                        proof {
                            lemma_warnings_push(self.notes@, w);
                        }
                        self.notes.push(w);
                        Vec::new()
                    },
                };
                assert(content.is_none() ==> texts(found@) =~= Seq::<Text>::empty());
                self.leave_config(&found);
            },
            Phase::LoaderConfig => {
                let ghost before = self@;
                self.conf.file_read(content);
                self.conf_step(Ghost(before));
            },
            _ => {},
        }
    }

    /// Takes the answer to a pending `Glob`: the regular files that match
    /// the pattern, or `None` where the pattern is malformed. Without such
    /// a request pending, nothing changes.
    pub fn globbed(&mut self, files: Option<Vec<String>>)
        requires
            old(self).wf(),
        ensures
            final(self).wf(),
            final(self)@ == old(self)@.globbed(texts_of(files)),
    {
        proof {
            law_session_stays_sound(self@, None, None, texts_of(files), false, None, None);
        }
        match self.phase {
            Phase::LoaderConfig => {
                let ghost before = self@;
                self.conf.expanded(files);
                self.conf_step(Ghost(before));
            },
            _ => {},
        }
    }

    /// Takes the answer to a pending `IsDir`: whether the path names a
    /// directory that is there. Without such a request pending, nothing
    /// changes.
    pub fn dir_checked(&mut self, is_dir: bool)
        requires
            old(self).wf(),
        ensures
            final(self).wf(),
            final(self)@ == old(self)@.dir_checked(is_dir),
    {
        proof {
            law_session_stays_sound(self@, None, None, None, is_dir, None, None);
        }
        match self.phase {
            Phase::LoaderConfig => {
                let ghost before = self@;
                self.conf.checked(is_dir);
                self.conf_step(Ghost(before));
            },
            _ => {},
        }
    }

    /// Puts the walk back after a step, and ends the session with it.
    fn walk_step(&mut self, walk: Walk)
        requires
            walk.wf(),
        ensures
            final(self)@ == old(self)@.walk_step(walk@),
            final(self)@.inv(),
    {
        self.phase = if walk.is_done() {
            Phase::Done
        } else {
            Phase::Walk
        };
        self.walk = Some(walk);
    }

    /// Takes the answer to a pending `Identify`: the device and inode of
    /// the file, or `None` where it has none to give. Without such a
    /// request pending, nothing changes.
    pub fn identified(&mut self, id: Option<(u64, u64)>)
        requires
            old(self).wf(),
        ensures
            final(self).wf(),
            final(self)@ == old(self)@.identified(id),
    {
        proof {
            law_session_stays_sound(self@, None, None, None, false, id, None);
        }
        if self.phase == Phase::Walk {
            match self.walk.take() {
                Some(mut w) => {
                    w.identified(id);
                    self.walk_step(w);
                },
                None => {},
            }
        }
    }

    /// Takes the answer to a pending `Exists`: whether something is there
    /// at the path. Without such a request pending, nothing changes.
    pub fn probed(&mut self, exists: bool)
        requires
            old(self).wf(),
        ensures
            final(self).wf(),
            final(self)@ == old(self)@.probed(exists),
    {
        proof {
            law_session_stays_sound(self@, None, None, None, exists, None, None);
        }
        if self.phase == Phase::Walk {
            match self.walk.take() {
                Some(mut w) => {
                    w.probed(exists);
                    self.walk_step(w);
                },
                None => {},
            }
        }
    }

    /// Takes the answer to a pending `Load`, parsed already: what the file
    /// parsed to, or `None` where it could not be read or did not parse.
    /// Without such a request pending, nothing changes.
    pub fn inspected(&mut self, meta: Option<ElfMetadata>)
        requires
            old(self).wf(),
        ensures
            final(self).wf(),
            final(self)@ == old(self)@.loaded(facts_of(meta)),
    {
        proof {
            law_session_stays_sound(self@, None, None, None, false, None, facts_of(meta));
        }
        if self.phase == Phase::Walk {
            match self.walk.take() {
                Some(mut w) => {
                    w.inspected(meta);
                    self.walk_step(w);
                },
                None => {},
            }
        }
    }

    /// Takes the answer to a pending `Load`: the bytes of the file, or
    /// `None` where it could not be read. Without such a request pending,
    /// nothing changes.
    pub fn loaded(&mut self, bytes: Option<&[u8]>)
        requires
            old(self).wf(),
        ensures
            final(self).wf(),
            final(self)@ == old(self)@.loaded(image_of(bytes)),
    {
        if self.phase != Phase::Walk {
            return ;
        }
        let meta = match bytes {
            Some(b) => parse_image(b),
            None => None,
        };
        self.inspected(meta);
    }

    /// What the session passed over, in the order in which it came to it.
    pub fn warnings(&self) -> (r: Vec<Warning>)
        ensures
            warnings_of(r@) == self@.warnings(),
    {
        let mut r: Vec<Warning> = Vec::new();
        assert(warnings_of(r@) =~= Seq::<WarningModel>::empty());
        extend_warnings(&mut r, &self.notes);
        extend_warnings(&mut r, self.conf.warnings());
        match &self.walk {
            Some(w) => {
                extend_warnings(&mut r, w.warnings());
            },
            None => {},
        }
        assert(warnings_of(r@) =~= self@.warnings());
        r
    }

    /// The report as far as the session has come; complete once it is over.
    pub fn report(&self) -> (r: RlddRexInfo)
        ensures
            r.arch == self@.arch,
            r.elf_type == self@.elf_type,
            pairs(r.deps@) == rendered(self@.reported()),
    {
        match &self.walk {
            Some(w) => report(self.arch, self.elf_type, w.names_met(), w.deps()),
            None => {
                let mut deps: Vec<(String, String)> = Vec::new();
                match &self.first {
                    Some(r) => {
                        deps.push((r.0.clone(), r.1.clone()));
                    },
                    None => {},
                }
                proof {
                    let met = self@.met();
                    let record = self@.deps();
                    if met.len() > 0 {
                        assert(met.drop_last() =~= Seq::<Text>::empty());
                        assert(in_order_met(met.drop_last(), record) =~= Seq::empty());
                        assert(status_in(record, met.last()) == Some(record[0].1));
                        assert(self@.reported() =~= seq![(met[0], record[0].1)]);
                    } else {
                        assert(self@.reported() =~= Seq::empty());
                    }
                    assert(pairs(deps@) =~= rendered(self@.reported()));
                }
                RlddRexInfo { arch: self.arch, elf_type: self.elf_type, deps }
            },
        }
    }
}

} // verus!
