//! The walk through the libraries that a binary needs, and through those
//! that they need in turn.
//!
//! The walk keeps one frame for each binary whose names it is going
//! through, the root's first. For each name not met before it looks into
//! the directories of the frame, the binary's own before the global ones,
//! until a file of that name is there; that file is read and, where it
//! parses and is new, gets a frame of its own. When a frame is through, the
//! name that led to it is recorded with the file's path. The walk keeps the
//! names in the order in which it met them, and the record in the order in
//! which it was made; a report lists the names as they were met.
//!
//! `WalkModel` states all of this as functions from state to state; `Walk`
//! is the state that runs, and each of its methods does what the function
//! of the same name says.

use crate::elf::{
    arch_matches,
    elf_image,
    facts_of,
    is_same_arch,
    parse_image,
    ElfArch,
    ElfFacts,
    ElfMetadata,
};
use crate::laws::{law_walk_begins_sound, law_walk_stays_sound, sound};
use crate::notes::{lemma_warnings_push, warnings_of, Warning, WarningModel};
use crate::paths::{join, joined, origin_resolved, resolve_origin};
use crate::request::{Request, RequestModel};
use crate::search::{extend_texts, has_text, lemma_texts_push};
use crate::text::{texts, Text};
use vstd::prelude::*;

verus! {

/// The depth below the root at which the walk opens no further frame.
pub const MAX_DEPTH: usize = 512;

/// How a needed name was resolved.
#[derive(Debug, Clone, PartialEq, Eq)]
pub enum Resolution {
    /// The file that stands for the name.
    Path(String),
    /// No directory holds a file of the name.
    NotFound,
    /// The file of the name is of another word size than the root.
    ArchMismatch,
}

/// A `Resolution` as the contracts see it.
pub enum ResolutionModel {
    Path(Text),
    NotFound,
    ArchMismatch,
}

impl View for Resolution {
    type V = ResolutionModel;

    open spec fn view(&self) -> ResolutionModel {
        match self {
            Resolution::Path(p) => ResolutionModel::Path(p@),
            Resolution::NotFound => ResolutionModel::NotFound,
            Resolution::ArchMismatch => ResolutionModel::ArchMismatch,
        }
    }
}

/// A binary whose needed names the walk is going through.
pub struct FrameModel {
    /// The path of the binary.
    pub path: Text,
    /// The names it needs, in the order of their declaration.
    pub needed: Seq<Text>,
    /// The directories to look into for them: the binary's own, then the
    /// global ones.
    pub search: Seq<Text>,
    /// The index of the name at hand.
    pub next: int,
    /// The index of the directory at hand.
    pub probe: int,
}

/// What the walk waits for.
pub enum StageModel {
    /// For nothing: every frame is through.
    Done,
    /// For the identity of the file at `path`, which parsed to `meta`.
    Identify { path: Text, meta: ElfFacts },
    /// For whether the candidate at hand is there.
    Probe,
    /// For the bytes of the candidate at hand, which is there.
    Load,
}

/// The state of a walk.
pub struct WalkModel {
    /// Whether a file of another word size than the root is turned down.
    pub enforce_arch: bool,
    /// The word size of the root.
    pub arch: ElfArch,
    /// The global directories, in the order of the search.
    pub dirs: Seq<Text>,
    /// The identities of the files that got a frame.
    pub visited: Seq<(u64, u64)>,
    /// The names met so far.
    pub seen: Seq<Text>,
    /// The names resolved so far, each with its resolution.
    pub deps: Seq<(Text, ResolutionModel)>,
    /// The frames, the root's first.
    pub stack: Seq<FrameModel>,
    /// What the walk passed over: files without identity, and files below
    /// the depth limit.
    pub warnings: Seq<WarningModel>,
    /// What the walk waits for.
    pub stage: StageModel,
}

/// The directories that the binary at `path` names for itself: its `RPATH`
/// entries, then its `RUNPATH` entries, `$ORIGIN` standing for the
/// directory of that binary.
pub open spec fn own_dirs(path: Text, meta: ElfFacts) -> Seq<Text> {
    (meta.rpaths + meta.runpaths).map_values(|e: Text| origin_resolved(path, e))
}

/// The frame of the binary at `path` as the walk opens it.
pub open spec fn frame_of(path: Text, meta: ElfFacts, dirs: Seq<Text>) -> FrameModel {
    FrameModel {
        path,
        needed: meta.libraries,
        search: own_dirs(path, meta) + dirs,
        next: 0,
        probe: 0,
    }
}

impl WalkModel {
    /// The walk that is about to enter the root binary at `path`. With
    /// `first` given, that name counts as met and stands resolved at the
    /// head of the record.
    pub open spec fn start(
        path: Text,
        meta: ElfFacts,
        arch: ElfArch,
        dirs: Seq<Text>,
        enforce_arch: bool,
        first: Option<(Text, Text)>,
    ) -> WalkModel {
        WalkModel {
            enforce_arch,
            arch,
            dirs,
            visited: Seq::empty(),
            seen: match first {
                Some(r) => seq![r.0],
                None => Seq::empty(),
            },
            deps: match first {
                Some(r) => seq![(r.0, ResolutionModel::Path(r.1))],
                None => Seq::empty(),
            },
            stack: Seq::empty(),
            warnings: Seq::empty(),
            stage: StageModel::Identify { path, meta },
        }
    }

    /// The frame that the walk is in.
    pub open spec fn top(self) -> FrameModel {
        self.stack.last()
    }

    /// The name at hand.
    pub open spec fn name(self) -> Text {
        self.top().needed[self.top().next]
    }

    /// The candidate at hand: the file of the name at hand in the
    /// directory at hand.
    pub open spec fn candidate(self) -> Text {
        joined(self.top().search[self.top().probe], self.name())
    }

    /// The same walk, waiting for something else.
    pub open spec fn at(self, stage: StageModel) -> WalkModel {
        WalkModel { stage, ..self }
    }

    /// The same walk with another frame in place of the one it is in.
    pub open spec fn with_top(self, f: FrameModel) -> WalkModel {
        WalkModel { stack: self.stack.drop_last().push(f), ..self }
    }

    /// The same walk without the frame it is in.
    pub open spec fn leave(self) -> WalkModel {
        WalkModel { stack: self.stack.drop_last(), ..self }
    }

    /// The same walk with one more warning.
    pub open spec fn noted(self, w: WarningModel) -> WalkModel {
        WalkModel { warnings: self.warnings.push(w), ..self }
    }

    /// The same walk with the candidate at hand noted as too deep to enter.
    pub open spec fn cut(self) -> WalkModel {
        self.noted(WarningModel::TooDeep(self.candidate()))
    }

    /// The same walk with one more file visited and a frame for it.
    pub open spec fn opened(self, key: (u64, u64), f: FrameModel) -> WalkModel {
        WalkModel { visited: self.visited.push(key), stack: self.stack.push(f), ..self }
    }

    /// The same walk with one more name met.
    pub open spec fn mark(self, name: Text) -> WalkModel {
        WalkModel { seen: self.seen.push(name), ..self }
    }

    /// The walk after it passed the name at hand by.
    pub open spec fn pass(self) -> WalkModel {
        self.with_top(FrameModel { next: self.top().next + 1, probe: 0, ..self.top() })
    }

    /// The walk after it recorded the name at hand as resolved to `status`.
    pub open spec fn record(self, status: ResolutionModel) -> WalkModel {
        WalkModel { deps: self.deps.push((self.name(), status)), ..self }.pass()
    }

    /// How many names the frame that the walk is in has left.
    pub open spec fn slack(self) -> int {
        if self.stack.len() > 0 {
            self.top().needed.len() - self.top().next
        } else {
            0
        }
    }

    /// The walk after it went on as far as it can without the file system.
    /// A frame that is through is left, and the name that led to it is
    /// recorded with the frame's path; the root was led to by no name. A
    /// name met before is passed by. A new name is marked as met; with no
    /// directory to look into it is recorded as not found, else the walk
    /// waits for its first candidate. With no frame left the walk is over.
    pub open spec fn settle(self) -> WalkModel
        decreases self.stack.len(), self.slack(),
    {
        if self.stack.len() == 0 {
            self.at(StageModel::Done)
        } else if self.slack() <= 0 {
            let below = self.leave();
            if below.stack.len() == 0 {
                below.at(StageModel::Done)
            } else {
                below.record(ResolutionModel::Path(self.top().path)).settle()
            }
        } else if self.seen.contains(self.name()) {
            self.pass().settle()
        } else {
            let marked = self.mark(self.name());
            if marked.top().search.len() == 0 {
                marked.record(ResolutionModel::NotFound).settle()
            } else {
                marked.at(StageModel::Probe)
            }
        }
    }

    /// The walk after the file at `path`, which the name at hand led to,
    /// is done with: the name is recorded with that path, and the walk goes
    /// on. The root was led to by no name: with it the walk is over.
    pub open spec fn returned(self, path: Text) -> WalkModel {
        if self.stack.len() == 0 {
            self.at(StageModel::Done)
        } else {
            self.record(ResolutionModel::Path(path)).settle()
        }
    }

    /// What the walk asks next.
    pub open spec fn pending(self) -> RequestModel {
        match self.stage {
            StageModel::Done => RequestModel::Done,
            StageModel::Identify { path, meta } => RequestModel::Identify(path),
            StageModel::Probe => RequestModel::Exists(self.candidate()),
            StageModel::Load => RequestModel::Load(self.candidate()),
        }
    }

    /// The walk after the file that waits was told apart, or could not be.
    /// A file that is new gets a frame. One that was visited before is done
    /// with as it is, and so is one that has no identity, which is noted.
    pub open spec fn identified(self, id: Option<(u64, u64)>) -> WalkModel {
        match self.stage {
            StageModel::Identify { path, meta } => {
                match id {
                    Some(key) => if !self.visited.contains(key) {
                        self.opened(key, frame_of(path, meta, self.dirs)).settle()
                    } else {
                        self.returned(path)
                    },
                    None => self.noted(WarningModel::NoIdentity(path)).returned(path),
                }
            },
            _ => self,
        }
    }

    /// The walk after the candidate at hand was looked for. One that is
    /// there is read next. Else the next directory is at hand, or, after
    /// the last, the name is recorded as not found.
    pub open spec fn probed(self, exists: bool) -> WalkModel {
        match self.stage {
            StageModel::Probe => {
                if exists {
                    self.at(StageModel::Load)
                } else if self.top().probe + 1 < self.top().search.len() {
                    self.with_top(FrameModel { probe: self.top().probe + 1, ..self.top() })
                } else {
                    self.record(ResolutionModel::NotFound).settle()
                }
            },
            _ => self,
        }
    }

    /// The walk after the candidate at hand was read and parsed to
    /// `image`, or was not. A file that does not parse is done with as it
    /// is. One of another word size than the root is recorded as such,
    /// where the walk enforces the match. One below the depth limit is
    /// noted as too deep and done with as it is. Any other waits to be told
    /// apart.
    pub open spec fn loaded(self, image: Option<ElfFacts>) -> WalkModel {
        match self.stage {
            StageModel::Load => {
                match image {
                    None => self.returned(self.candidate()),
                    Some(meta) => {
                        if self.enforce_arch && !arch_matches(self.arch, meta.is_64) {
                            self.record(ResolutionModel::ArchMismatch).settle()
                        } else if self.stack.len() > MAX_DEPTH {
                            self.cut().returned(self.candidate())
                        } else {
                            self.at(StageModel::Identify { path: self.candidate(), meta })
                        }
                    },
                }
            },
            _ => self,
        }
    }

    /// The frames are well-formed: no more than the depth limit allows,
    /// each with its name at hand among its names or just past them, and
    /// each but the last with a name at hand. Where `busy`, the last has a
    /// name at hand too; where not, it has its first directory at hand.
    pub open spec fn shape(self, busy: bool) -> bool {
        &&& self.stack.len() <= MAX_DEPTH + 1
        &&& forall|i: int|
            0 <= i < self.stack.len() ==> 0 <= (#[trigger] self.stack[i]).next
                <= self.stack[i].needed.len() && 0 <= self.stack[i].probe
        &&& forall|i: int|
            0 <= i < self.stack.len() - 1 ==> (#[trigger] self.stack[i]).next
                < self.stack[i].needed.len()
        &&& busy && self.stack.len() > 0 ==> self.top().next < self.top().needed.len()
        &&& !busy && self.stack.len() > 0 ==> self.top().probe == 0
    }

    /// The state is well-formed for what the walk waits for.
    pub open spec fn shaped(self) -> bool {
        match self.stage {
            StageModel::Done => self.stack.len() == 0 && self.shape(false),
            StageModel::Identify { path, meta } => self.stack.len() <= MAX_DEPTH && self.shape(
                true,
            ),
            _ => self.stack.len() > 0 && self.shape(true) && self.top().probe
                < self.top().search.len(),
        }
    }
}

/// `settle` and `returned` do not read what the walk waits for.
pub proof fn lemma_settle_ignores_stage(s: WalkModel, stage: StageModel)
    ensures
        s.at(stage).settle() == s.settle(),
        forall|path: Text| #[trigger] s.at(stage).returned(path) == s.returned(path),
    decreases s.stack.len(), s.slack() + 1,
{
    let t = s.at(stage);
    assert forall|path: Text| #[trigger] t.returned(path) == s.returned(path) by {
        if s.stack.len() > 0 && s.slack() > 0 {
            let r = s.record(ResolutionModel::Path(path));
            assert(t.record(ResolutionModel::Path(path)) == r.at(stage));
            lemma_settle_ignores_stage_step(r, stage);
        } else if s.stack.len() > 0 {
            lemma_returned_idle(s, stage, path);
        }
    }
    lemma_settle_ignores_stage_step(s, stage);
}

proof fn lemma_returned_idle(s: WalkModel, stage: StageModel, path: Text)
    requires
        s.stack.len() > 0,
    ensures
        s.at(stage).returned(path) == s.returned(path),
{
    let r = s.record(ResolutionModel::Path(path));
    assert(s.at(stage).record(ResolutionModel::Path(path)) == r.at(stage));
    lemma_settle_ignores_stage_step(r, stage);
}

proof fn lemma_settle_ignores_stage_step(s: WalkModel, stage: StageModel)
    ensures
        s.at(stage).settle() == s.settle(),
    decreases s.stack.len(), s.slack(),
{
    let t = s.at(stage);
    if s.stack.len() == 0 {
    } else if s.slack() <= 0 {
        let below = s.leave();
        if below.stack.len() > 0 {
            let r = below.record(ResolutionModel::Path(s.top().path));
            assert(t.leave().record(ResolutionModel::Path(t.top().path)) == r.at(stage));
            lemma_settle_ignores_stage_step(r, stage);
        }
    } else if s.seen.contains(s.name()) {
        assert(t.pass() == s.pass().at(stage));
        lemma_settle_ignores_stage_step(s.pass(), stage);
    } else {
        let marked = s.mark(s.name());
        if marked.top().search.len() == 0 {
            let r = marked.record(ResolutionModel::NotFound);
            assert(marked.at(stage).record(ResolutionModel::NotFound) == r.at(stage));
            lemma_settle_ignores_stage_step(r, stage);
        }
    }
}

/// Passing a name by leaves the frames well-formed, with one name less
/// left in the last.
pub proof fn lemma_pass_shape(s: WalkModel)
    requires
        s.shape(true),
        s.stack.len() > 0,
    ensures
        s.pass().shape(false),
        s.pass().stack.len() == s.stack.len(),
        s.pass().slack() == s.slack() - 1,
{
    let p = s.pass();
    assert forall|i: int| 0 <= i < p.stack.len() implies 0 <= (#[trigger] p.stack[i]).next
        <= p.stack[i].needed.len() && 0 <= p.stack[i].probe by {
        if i < p.stack.len() - 1 {
            assert(p.stack[i] == s.stack[i]);
        }
    }
    assert forall|i: int| 0 <= i < p.stack.len() - 1 implies (#[trigger] p.stack[i]).next
        < p.stack[i].needed.len() by {
        assert(p.stack[i] == s.stack[i]);
    }
}

/// Leaving the last frame leaves the others well-formed, the one below it
/// with its name at hand.
pub proof fn lemma_leave_shape(s: WalkModel)
    requires
        s.shape(false),
        s.stack.len() > 0,
    ensures
        s.leave().shape(true),
{
    let below = s.leave();
    assert forall|i: int| 0 <= i < below.stack.len() implies 0 <= (#[trigger] below.stack[i]).next
        <= below.stack[i].needed.len() && 0 <= below.stack[i].probe by {
        assert(below.stack[i] == s.stack[i]);
    }
    assert forall|i: int| 0 <= i < below.stack.len() - 1 implies (#[trigger] below.stack[i]).next
        < below.stack[i].needed.len() by {
        assert(below.stack[i] == s.stack[i]);
    }
    if below.stack.len() > 0 {
        assert(below.top() == s.stack[s.stack.len() - 2]);
    }
}

/// Opening a frame keeps the frames well-formed.
pub proof fn lemma_open_shape(s: WalkModel, key: (u64, u64), f: FrameModel)
    requires
        s.shape(true),
        s.stack.len() <= MAX_DEPTH,
        f.next == 0,
        f.probe == 0,
    ensures
        s.opened(key, f).shape(false),
{
    let opened = s.opened(key, f);
    assert forall|i: int| 0 <= i < opened.stack.len() implies 0 <= (#[trigger] opened.stack[i]).next
        <= opened.stack[i].needed.len() && 0 <= opened.stack[i].probe by {
        if i < s.stack.len() {
            assert(opened.stack[i] == s.stack[i]);
        }
    }
    assert forall|i: int| 0 <= i < opened.stack.len() - 1 implies (#[trigger] opened.stack[i]).next
        < opened.stack[i].needed.len() by {
        assert(opened.stack[i] == s.stack[i]);
        if i == s.stack.len() - 1 {
            assert(s.stack[i] == s.top());
        }
    }
}

/// Going on keeps the frames well-formed.
pub proof fn lemma_settle_shaped(s: WalkModel)
    requires
        s.shape(false),
    ensures
        s.settle().shaped(),
    decreases s.stack.len(), s.slack(),
{
    if s.stack.len() == 0 {
    } else if s.slack() <= 0 {
        let below = s.leave();
        lemma_leave_shape(s);
        if below.stack.len() > 0 {
            let path = ResolutionModel::Path(s.top().path);
            lemma_pass_shape(WalkModel { deps: below.deps.push((below.name(), path)), ..below });
            lemma_settle_shaped(below.record(path));
        }
    } else if s.seen.contains(s.name()) {
        lemma_pass_shape(s);
        lemma_settle_shaped(s.pass());
    } else {
        let marked = s.mark(s.name());
        if marked.top().search.len() == 0 {
            lemma_pass_shape(
                WalkModel {
                    deps: marked.deps.push((marked.name(), ResolutionModel::NotFound)),
                    ..marked
                },
            );
            lemma_settle_shaped(marked.record(ResolutionModel::NotFound));
        }
    }
}

/// Being done with a file keeps the frames well-formed.
pub proof fn lemma_returned_shaped(s: WalkModel, path: Text)
    requires
        s.shape(true),
    ensures
        s.returned(path).shaped(),
{
    if s.stack.len() > 0 {
        let status = ResolutionModel::Path(path);
        lemma_pass_shape(WalkModel { deps: s.deps.push((s.name(), status)), ..s });
        lemma_settle_shaped(s.record(status));
    }
}

/// A binary whose needed names the walk is going through.
struct Frame {
    path: String,
    needed: Vec<String>,
    search: Vec<String>,
    next: usize,
    probe: usize,
}

impl View for Frame {
    type V = FrameModel;

    closed spec fn view(&self) -> FrameModel {
        FrameModel {
            path: self.path@,
            needed: texts(self.needed@),
            search: texts(self.search@),
            next: self.next as int,
            probe: self.probe as int,
        }
    }
}

/// What the walk waits for.
enum Stage {
    Done,
    Identify { path: String, meta: ElfMetadata },
    Probe,
    Load,
}

impl View for Stage {
    type V = StageModel;

    closed spec fn view(&self) -> StageModel {
        match self {
            Stage::Done => StageModel::Done,
            Stage::Identify { path, meta } => StageModel::Identify { path: path@, meta: meta@ },
            Stage::Probe => StageModel::Probe,
            Stage::Load => StageModel::Load,
        }
    }
}

spec fn frames(v: Seq<Frame>) -> Seq<FrameModel> {
    Seq::new(v.len(), |i: int| v[i]@)
}

/// The view of a name and a path that may be missing.
pub open spec fn pair_of(r: Option<(String, String)>) -> Option<(Text, Text)> {
    match r {
        Some(r) => Some((r.0@, r.1@)),
        None => None,
    }
}

/// The views of a list of resolved names, in order.
pub open spec fn records(v: Seq<(String, Resolution)>) -> Seq<(Text, ResolutionModel)> {
    Seq::new(v.len(), |i: int| (v[i].0@, v[i].1@))
}

proof fn lemma_frames_push(v: Seq<Frame>, f: Frame)
    ensures
        frames(v.push(f)) == frames(v).push(f@),
{
    assert(frames(v.push(f)) =~= frames(v).push(f@));
}

proof fn lemma_frames_drop_last(v: Seq<Frame>)
    requires
        v.len() > 0,
    ensures
        frames(v.drop_last()) == frames(v).drop_last(),
        frames(v).last() == v.last()@,
{
    assert(frames(v.drop_last()) =~= frames(v).drop_last());
}

proof fn lemma_records_push(v: Seq<(String, Resolution)>, r: (String, Resolution))
    ensures
        records(v.push(r)) == records(v).push((r.0@, r.1@)),
{
    assert(records(v.push(r)) =~= records(v).push((r.0@, r.1@)));
}

/// Puts each of `entries`, resolved for the binary at `path`, at the end of
/// `out`.
fn resolve_into(out: &mut Vec<String>, path: &str, entries: &Vec<String>)
    ensures
        texts(final(out)@) == texts(old(out)@) + texts(entries@).map_values(
            |e: Text| origin_resolved(path@, e),
        ),
{
    let ghost resolved = texts(entries@).map_values(|e: Text| origin_resolved(path@, e));
    let mut i: usize = 0;
    assert(texts(out@) + resolved.take(0) =~= texts(out@));
    while i < entries.len()
        invariant
            i <= entries.len(),
            resolved == texts(entries@).map_values(|e: Text| origin_resolved(path@, e)),
            texts(out@) == texts(old(out)@) + resolved.take(i as int),
        decreases entries.len() - i,
    {
        let dir = resolve_origin(path, entries[i].as_str());
        proof {
            lemma_texts_push(out@, dir);
            assert(resolved[i as int] == dir@);
            assert((texts(old(out)@) + resolved.take(i as int)).push(dir@) =~= texts(old(out)@)
                + resolved.take(i + 1));
        }
        out.push(dir);
        i += 1;
    }
    assert(resolved.take(entries.len() as int) =~= resolved);
}

/// The frame of the binary at `path` as the walk opens it.
fn open_frame(path: String, meta: ElfMetadata, dirs: &Vec<String>) -> (f: Frame)
    ensures
        f@ == frame_of(path@, meta@, texts(dirs@)),
{
    let mut search: Vec<String> = Vec::new();
    assert(texts(search@) =~= Seq::<Text>::empty());
    resolve_into(&mut search, path.as_str(), &meta.rpaths);
    resolve_into(&mut search, path.as_str(), &meta.runpaths);
    extend_texts(&mut search, dirs);
    proof {
        assert(texts(search@) =~= own_dirs(path@, meta@) + texts(dirs@));
    }
    Frame { path, needed: meta.libraries, search, next: 0, probe: 0 }
}

/// A walk through the libraries that a binary needs.
pub struct Walk {
    enforce_arch: bool,
    arch: ElfArch,
    dirs: Vec<String>,
    visited: Vec<(u64, u64)>,
    seen: Vec<String>,
    deps: Vec<(String, Resolution)>,
    stack: Vec<Frame>,
    warnings: Vec<Warning>,
    stage: Stage,
}

impl View for Walk {
    type V = WalkModel;

    closed spec fn view(&self) -> WalkModel {
        WalkModel {
            enforce_arch: self.enforce_arch,
            arch: self.arch,
            dirs: texts(self.dirs@),
            visited: self.visited@,
            seen: texts(self.seen@),
            deps: records(self.deps@),
            stack: frames(self.stack@),
            warnings: warnings_of(self.warnings@),
            stage: self.stage@,
        }
    }
}

impl Walk {
    /// The state is one that a walk can reach. Every walk that this module
    /// hands out is in such a state, so that every law of walks holds of it.
    pub open spec fn wf(&self) -> bool {
        sound(self@)
    }

    /// The walk that is about to enter the root binary at `path`, which
    /// parsed to `meta`. With `first` given, that name counts as met and
    /// stands at the head of the record, resolved to the path beside it.
    pub fn new(
        path: String,
        meta: ElfMetadata,
        arch: ElfArch,
        dirs: Vec<String>,
        enforce_arch: bool,
        first: Option<(String, String)>,
    ) -> (w: Walk)
        ensures
            w.wf(),
            w@ == WalkModel::start(path@, meta@, arch, texts(dirs@), enforce_arch, pair_of(first)),
    {
        let mut seen: Vec<String> = Vec::new();
        let mut deps: Vec<(String, Resolution)> = Vec::new();
        let ghost head = pair_of(first);
        match first {
            Some(r) => {
                let name = r.0;
                seen.push(name.clone());
                deps.push((name, Resolution::Path(r.1)));
            },
            None => {},
        }
        let w = Walk {
            enforce_arch,
            arch,
            dirs,
            visited: Vec::new(),
            seen,
            deps,
            stack: Vec::new(),
            warnings: Vec::new(),
            stage: Stage::Identify { path, meta },
        };
        proof {
            let m = WalkModel::start(w.stage@->path, w.stage@->meta, arch, w@.dirs, enforce_arch, head);
            assert(w@.seen =~= m.seen);
            assert(w@.deps =~= m.deps);
            assert(w@.stack =~= m.stack);
            assert(w@.warnings =~= m.warnings);
            law_walk_begins_sound(m.stage->path, m.stage->meta, arch, m.dirs, enforce_arch, head);
            assert(w@.visited =~= m.visited);
        }
        w
    }

    /// Whether the walk is over.
    pub fn is_done(&self) -> (r: bool)
        ensures
            r == (self@.stage is Done),
    {
        match &self.stage {
            Stage::Done => true,
            _ => false,
        }
    }

    /// The names resolved so far, each with its resolution, in the order
    /// in which they were recorded.
    pub fn deps(&self) -> (r: &Vec<(String, Resolution)>)
        ensures
            records(r@) == self@.deps,
    {
        &self.deps
    }

    /// The names met so far, in the order in which they were met: a binary's
    /// name before the names that its file needs, and those in the order of
    /// their declaration.
    pub fn names_met(&self) -> (r: &Vec<String>)
        ensures
            texts(r@) == self@.seen,
    {
        &self.seen
    }

    /// What the walk passed over, in the order in which it came to it.
    pub fn warnings(&self) -> (r: &Vec<Warning>)
        ensures
            warnings_of(r@) == self@.warnings,
    {
        &self.warnings
    }

    /// The candidate at hand.
    fn candidate(&self) -> (r: String)
        requires
            self.stack.len() > 0,
            self@.top().next < self@.top().needed.len(),
            self@.top().probe < self@.top().search.len(),
        ensures
            r@ == self@.candidate(),
    {
        proof {
            lemma_frames_drop_last(self.stack@);
        }
        let f = &self.stack[self.stack.len() - 1];
        join(f.search[f.probe].as_str(), f.needed[f.next].as_str())
    }

    /// What the walk asks next.
    pub fn pending(&self) -> (r: Request)
        requires
            self.wf(),
        ensures
            r@ == self@.pending(),
    {
        match &self.stage {
            Stage::Done => Request::Done,
            Stage::Identify { path, meta } => Request::Identify(path.clone()),
            Stage::Probe => Request::Exists(self.candidate()),
            Stage::Load => Request::Load(self.candidate()),
        }
    }

    fn has_visited(&self, key: (u64, u64)) -> (r: bool)
        ensures
            r == self@.visited.contains(key),
    {
        let mut i: usize = 0;
        while i < self.visited.len()
            invariant
                i <= self.visited.len(),
                forall|j: int| 0 <= j < i ==> self.visited@[j] != key,
            decreases self.visited.len() - i,
        {
            let v = self.visited[i];
            if v.0 == key.0 && v.1 == key.1 {
                assert(self.visited@[i as int] == key);
                return true;
            }
            i += 1;
        }
        false
    }

    /// Passes the name at hand by.
    fn pass(&mut self)
        requires
            old(self).stack.len() > 0,
            old(self)@.top().next < old(self)@.top().needed.len(),
        ensures
            final(self)@ == old(self)@.pass(),
    {
        let ghost before = self.stack@;
        proof {
            lemma_frames_drop_last(before);
        }
        let mut f = self.stack.pop().unwrap();
        assert(f@ == old(self)@.top());
        assert(f.next < f.needed.len());
        f.next = f.next + 1;
        f.probe = 0;
        proof {
            assert(self.stack@ =~= before.drop_last());
            lemma_frames_push(self.stack@, f);
        }
        self.stack.push(f);
    }

    /// Records the name at hand as resolved to `status`.
    fn record(&mut self, status: Resolution)
        requires
            old(self).stack.len() > 0,
            old(self)@.top().next < old(self)@.top().needed.len(),
        ensures
            final(self)@ == old(self)@.record(status@),
    {
        proof {
            lemma_frames_drop_last(self.stack@);
        }
        let n = self.stack.len();
        let name = self.stack[n - 1].needed[self.stack[n - 1].next].clone();
        proof {
            lemma_records_push(self.deps@, (name, status));
        }
        self.deps.push((name, status));
        self.pass();
    }

    /// Goes on as far as the walk can without the file system.
    fn settle(&mut self)
        requires
            old(self)@.shape(false),
        ensures
            final(self)@ == old(self)@.settle(),
            final(self)@.shaped(),
    {
        let ghost target = self@.settle();
        proof {
            lemma_settle_shaped(self@);
        }
        loop
            invariant_except_break
                self@.shape(false),
                self@.settle() == target,
            ensures
                self@ == target,
            decreases self@.stack.len(), self@.slack(),
        {
            let ghost s = self@;
            let n = self.stack.len();
            if n == 0 {
                self.stage = Stage::Done;
                break ;
            }
            proof {
                lemma_frames_drop_last(self.stack@);
            }
            let next = self.stack[n - 1].next;
            if next >= self.stack[n - 1].needed.len() {
                let ghost before = self.stack@;
                let f = self.stack.pop().unwrap();
                proof {
                    assert(self.stack@ =~= before.drop_last());
                    assert(self@ == s.leave());
                    lemma_leave_shape(s);
                }
                if self.stack.len() == 0 {
                    self.stage = Stage::Done;
                    break ;
                }
                proof {
                    let status = ResolutionModel::Path(f.path@);
                    lemma_pass_shape(
                        WalkModel { deps: self@.deps.push((self@.name(), status)), ..self@ },
                    );
                }
                self.record(Resolution::Path(f.path));
            } else if has_text(&self.seen, self.stack[n - 1].needed[next].as_str()) {
                proof {
                    lemma_pass_shape(s);
                }
                self.pass();
            } else {
                let name = self.stack[n - 1].needed[next].clone();
                proof {
                    lemma_texts_push(self.seen@, name);
                }
                self.seen.push(name);
                assert(self@ == s.mark(s.name()));
                if self.stack[n - 1].search.len() == 0 {
                    proof {
                        lemma_pass_shape(
                            WalkModel {
                                deps: self@.deps.push((self@.name(), ResolutionModel::NotFound)),
                                ..self@
                            },
                        );
                    }
                    self.record(Resolution::NotFound);
                } else {
                    self.stage = Stage::Probe;
                    break ;
                }
            }
        }
    }

    /// Is done with the file at `path`, which the name at hand led to.
    fn returned(&mut self, path: String)
        requires
            old(self)@.shape(true),
        ensures
            final(self)@ == old(self)@.returned(path@),
            final(self)@.shaped(),
    {
        proof {
            lemma_returned_shaped(self@, path@);
        }
        if self.stack.len() == 0 {
            self.stage = Stage::Done;
        } else {
            proof {
                let status = ResolutionModel::Path(path@);
                lemma_pass_shape(
                    WalkModel { deps: self@.deps.push((self@.name(), status)), ..self@ },
                );
            }
            self.record(Resolution::Path(path));
            self.settle();
        }
    }

    /// Takes the device and inode of the file that the pending `Identify`
    /// names, or `None` where it has none to give. Without such a request
    /// pending, nothing changes.
    pub fn identified(&mut self, id: Option<(u64, u64)>)
        requires
            old(self).wf(),
        ensures
            final(self).wf(),
            final(self)@ == old(self)@.identified(id),
    {
        let ghost s = self@;
        proof {
            law_walk_stays_sound(s, id, false, None);
        }
        let mut stage = Stage::Done;
        core::mem::swap(&mut self.stage, &mut stage);
        match stage {
            Stage::Identify { path, meta } => {
                assert(self@ == s.at(StageModel::Done));
                proof {
                    lemma_settle_ignores_stage(s, StageModel::Done);
                }
                let fresh = match id {
                    Some(key) => !self.has_visited(key),
                    None => false,
                };
                if fresh {
                    let key = id.unwrap();
                    let ghost opened = s.opened(key, frame_of(path@, meta@, s.dirs));
                    self.visited.push(key);
                    let f = open_frame(path, meta, &self.dirs);
                    proof {
                        lemma_frames_push(self.stack@, f);
                    }
                    self.stack.push(f);
                    proof {
                        assert(self@ == opened.at(StageModel::Done));
                        lemma_settle_ignores_stage(opened, StageModel::Done);
                        lemma_open_shape(s, key, frame_of(path@, meta@, s.dirs));
                    }
                    self.settle();
                } else {
                    if id.is_none() {
                        let w = Warning::NoIdentity(path.clone());
                        proof {
                            lemma_warnings_push(self.warnings@, w);
                            lemma_settle_ignores_stage(s.noted(w@), StageModel::Done);
                        }
                        self.warnings.push(w);
                        assert(self@ == s.noted(w@).at(StageModel::Done));
                    }
                    self.returned(path);
                }
            },
            other => {
                self.stage = other;
            },
        }
    }

    /// Takes whether the candidate that the pending `Exists` names is
    /// there. Without such a request pending, nothing changes.
    pub fn probed(&mut self, exists: bool)
        requires
            old(self).wf(),
        ensures
            final(self).wf(),
            final(self)@ == old(self)@.probed(exists),
    {
        proof {
            law_walk_stays_sound(self@, None, exists, None);
        }
        match &self.stage {
            Stage::Probe => {},
            _ => {
                return ;
            },
        }
        if exists {
            self.stage = Stage::Load;
            return ;
        }
        let ghost s = self@;
        proof {
            lemma_frames_drop_last(self.stack@);
        }
        let n = self.stack.len();
        let probe = self.stack[n - 1].probe;
        assert(self.stack@[n - 1]@ == s.top());
        assert(probe < self.stack[n - 1].search.len());
        if probe + 1 < self.stack[n - 1].search.len() {
            let ghost before = self.stack@;
            let mut f = self.stack.pop().unwrap();
            f.probe = probe + 1;
            proof {
                assert(self.stack@ =~= before.drop_last());
                lemma_frames_push(self.stack@, f);
            }
            self.stack.push(f);
            proof {
                let t = self@;
                assert forall|i: int| 0 <= i < t.stack.len() implies 0 <= (
                #[trigger] t.stack[i]).next <= t.stack[i].needed.len() && 0
                    <= t.stack[i].probe by {
                    if i < t.stack.len() - 1 {
                        assert(t.stack[i] == s.stack[i]);
                    }
                }
                assert forall|i: int| 0 <= i < t.stack.len() - 1 implies (
                #[trigger] t.stack[i]).next < t.stack[i].needed.len() by {
                    assert(t.stack[i] == s.stack[i]);
                }
            }
        } else {
            proof {
                lemma_pass_shape(
                    WalkModel {
                        deps: s.deps.push((s.name(), ResolutionModel::NotFound)),
                        ..s
                    },
                );
            }
            self.record(Resolution::NotFound);
            self.settle();
        }
    }

    /// Takes what the file that the pending `Load` names parsed to, or
    /// `None` where it could not be read or did not parse. Without such a
    /// request pending, nothing changes.
    pub fn inspected(&mut self, meta: Option<ElfMetadata>)
        requires
            old(self).wf(),
        ensures
            final(self).wf(),
            final(self)@ == old(self)@.loaded(facts_of(meta)),
    {
        proof {
            law_walk_stays_sound(self@, None, false, facts_of(meta));
        }
        match &self.stage {
            Stage::Load => {},
            _ => {
                return ;
            },
        }
        let ghost s = self@;
        match meta {
            None => {
                let c = self.candidate();
                self.returned(c);
            },
            Some(m) => {
                if self.enforce_arch && !is_same_arch(self.arch, &m) {
                    proof {
                        lemma_pass_shape(
                            WalkModel {
                                deps: s.deps.push((s.name(), ResolutionModel::ArchMismatch)),
                                ..s
                            },
                        );
                    }
                    self.record(Resolution::ArchMismatch);
                    self.settle();
                } else if self.stack.len() > MAX_DEPTH {
                    let c = self.candidate();
                    let w = Warning::TooDeep(c.clone());
                    proof {
                        lemma_warnings_push(self.warnings@, w);
                    }
                    self.warnings.push(w);
                    self.returned(c);
                } else {
                    let c = self.candidate();
                    self.stage = Stage::Identify { path: c, meta: m };
                }
            },
        }
    }

    /// Takes the bytes of the file that the pending `Load` names, or `None`
    /// where it could not be read, parses them, and goes on with what they
    /// parsed to. Without such a request pending, nothing changes.
    pub fn loaded(&mut self, bytes: Option<&[u8]>)
        requires
            old(self).wf(),
        ensures
            final(self).wf(),
            final(self)@ == old(self)@.loaded(
                match bytes {
                    Some(b) => elf_image(b@),
                    None => None,
                },
            ),
    {
        match &self.stage {
            Stage::Load => {},
            _ => {
                return ;
            },
        }
        let meta = match bytes {
            Some(b) => parse_image(b),
            None => None,
        };
        self.inspected(meta);
    }
}

} // verus!
