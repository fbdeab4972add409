//! Why every resolution ends. Against a file system with finitely many
//! files, each answer to a walk through the libraries either gives a frame
//! to a file that had none or uses up one of the steps that the frames have
//! left. Each answer to a walk through the configuration uses up a pattern,
//! a file or a job. A session goes through its phases in order, and each of
//! them ends.

use crate::elf::ElfFacts;
use crate::laws::{
    law_session_stays_sound,
    law_walk_stays_sound,
    lemma_settle_keeps,
    session_sound,
    sound,
};
use crate::ldconf::{conf_jobs, lines_jobs, read_jobs, ConfModel, JobModel};
use crate::request::RequestModel;
use crate::session::{Phase, SessionModel};
use crate::notes::WarningModel;
use crate::resolver::{frame_of, FrameModel, ResolutionModel, StageModel, WalkModel};
use crate::text::Text;
use vstd::prelude::*;

verus! {

/// A file system as a resolution meets it: which paths are there, which
/// file each names, what each parses to, what each resolves to, what text
/// each holds, which files match a pattern, and which paths are directories.
/// `ids` are the identities of its files.
pub struct Files {
    pub ids: Set<(u64, u64)>,
    pub identity: spec_fn(Text) -> Option<(u64, u64)>,
    pub present: spec_fn(Text) -> bool,
    pub image: spec_fn(Text) -> Option<ElfFacts>,
    pub canonical: spec_fn(Text) -> Option<Text>,
    pub content: spec_fn(Text) -> Option<Text>,
    pub matches: spec_fn(Text) -> Option<Seq<Text>>,
    pub is_dir: spec_fn(Text) -> bool,
}

/// The file system holds finitely many files, and every path that names a
/// file names one of them.
pub open spec fn finite(fs: Files) -> bool {
    &&& fs.ids.finite()
    &&& forall|p: Text| (#[trigger] (fs.identity)(p)) matches Some(k) ==> fs.ids.contains(k)
}

/// Every file that the walk has visited is one of `ids`.
pub open spec fn within(s: WalkModel, ids: Set<(u64, u64)>) -> bool {
    forall|k: int| 0 <= k < s.visited.len() ==> ids.contains(#[trigger] s.visited[k])
}

/// The walk after the file system answered what it asks.
pub open spec fn answer(fs: Files, s: WalkModel) -> WalkModel {
    match s.stage {
        StageModel::Done => s,
        StageModel::Identify { path, meta } => s.identified((fs.identity)(path)),
        StageModel::Probe => s.probed((fs.present)(s.candidate())),
        StageModel::Load => s.loaded((fs.image)(s.candidate())),
    }
}

/// The walk after the file system answered `n` times.
pub open spec fn run(fs: Files, s: WalkModel, n: nat) -> WalkModel
    decreases n,
{
    if n == 0 {
        s
    } else {
        run(fs, answer(fs, s), (n - 1) as nat)
    }
}

/// The steps that one name of a frame can take: one for each directory, and
/// three to read the file, tell it apart and record it.
pub open spec fn name_cost(f: FrameModel) -> int {
    (f.search.len() + 3) as int
}

/// The steps that the names after the one at hand can take.
pub open spec fn later(f: FrameModel) -> int {
    (f.needed.len() - f.next - 1) * name_cost(f)
}

/// The steps that the names after those at hand can take, over all frames.
pub open spec fn later_sum(stack: Seq<FrameModel>) -> int
    decreases stack.len(),
{
    if stack.len() == 0 {
        0
    } else {
        later_sum(stack.drop_last()) + later(stack.last())
    }
}

/// The steps that the name at hand can still take.
pub open spec fn at_hand_cost(s: WalkModel) -> int {
    match s.stage {
        StageModel::Done => 0,
        StageModel::Identify { path, meta } => 1,
        StageModel::Probe => name_cost(s.top()) - 1 - s.top().probe,
        StageModel::Load => 2,
    }
}

/// The steps that the walk can still take before a new file gets a frame.
pub open spec fn work(s: WalkModel) -> int {
    later_sum(s.stack) + at_hand_cost(s)
}

/// The same for a walk that is between two names.
pub open spec fn idle_work(s: WalkModel) -> int {
    later_sum(s.stack) + if s.stack.len() > 0 {
        name_cost(s.top())
    } else {
        0
    }
}

proof fn lemma_later_step(f: FrameModel)
    ensures
        later(FrameModel { next: f.next + 1, probe: 0, ..f }) == later(f) - name_cost(f),
        name_cost(f) >= 3,
{
    let a = f.needed.len() - f.next - 1;
    let k = name_cost(f);
    assert((a - 1) * k == a * k - k) by (nonlinear_arith);
}

proof fn lemma_later_nonneg(f: FrameModel)
    requires
        0 <= f.next < f.needed.len(),
    ensures
        later(f) >= 0,
{
    let a = f.needed.len() - f.next - 1;
    let k = name_cost(f);
    assert(a * k >= 0) by (nonlinear_arith)
        requires
            a >= 0,
            k >= 0,
    ;
}

proof fn lemma_later_sum_nonneg(stack: Seq<FrameModel>)
    requires
        forall|i: int|
            0 <= i < stack.len() ==> 0 <= (#[trigger] stack[i]).next < stack[i].needed.len(),
    ensures
        later_sum(stack) >= 0,
    decreases stack.len(),
{
    if stack.len() > 0 {
        let init = stack.drop_last();
        assert forall|i: int| 0 <= i < init.len() implies 0 <= (#[trigger] init[i]).next
            < init[i].needed.len() by {
            assert(init[i] == stack[i]);
        }
        lemma_later_sum_nonneg(init);
        assert(stack.last() == stack[stack.len() - 1]);
        lemma_later_nonneg(stack.last());
    }
}

proof fn lemma_work_nonneg(s: WalkModel)
    requires
        sound(s),
    ensures
        work(s) >= 0,
{
    if s.stage is Done {
        assert(s.stack.len() == 0);
    } else {
        assert forall|i: int| 0 <= i < s.stack.len() implies 0 <= (#[trigger] s.stack[i]).next
            < s.stack[i].needed.len() by {
            if i == s.stack.len() - 1 {
                assert(s.stack[i] == s.top());
            }
        }
        lemma_later_sum_nonneg(s.stack);
    }
}

proof fn lemma_pass_work(s: WalkModel, status: ResolutionModel)
    requires
        s.stack.len() > 0,
    ensures
        later_sum(s.pass().stack) == later_sum(s.stack) - name_cost(s.top()),
        name_cost(s.pass().top()) == name_cost(s.top()),
        s.pass().visited == s.visited,
        s.record(status).stack == s.pass().stack,
        s.record(status).visited == s.visited,
        idle_work(s.pass()) == later_sum(s.stack),
        idle_work(s.record(status)) == later_sum(s.stack),
{
    let f = s.top();
    lemma_later_step(f);
    assert(s.pass().stack.drop_last() =~= s.stack.drop_last());
}

proof fn lemma_probe_work(s: WalkModel, f: FrameModel)
    requires
        s.stack.len() > 0,
        f.needed == s.top().needed,
        f.next == s.top().next,
        f.search == s.top().search,
    ensures
        later_sum(s.with_top(f).stack) == later_sum(s.stack),
{
    assert(s.with_top(f).stack.drop_last() =~= s.stack.drop_last());
}

/// Going on does not add to the steps that are left.
proof fn lemma_settle_work(s: WalkModel)
    requires
        s.shape(false),
    ensures
        work(s.settle()) <= idle_work(s),
    decreases s.stack.len(), s.slack(),
{
    if s.stack.len() == 0 {
    } else if s.slack() <= 0 {
        let below = s.leave();
        crate::resolver::lemma_leave_shape(s);
        assert(s.top() == s.stack[s.stack.len() - 1]);
        assert(s.top().next == s.top().needed.len());
        assert(later(s.top()) == -name_cost(s.top())) by {
            let k = name_cost(s.top());
            assert((-1) * k == -k) by (nonlinear_arith);
        }
        assert(idle_work(s) == later_sum(below.stack));
        if below.stack.len() > 0 {
            let status = ResolutionModel::Path(s.top().path);
            let r = below.record(status);
            lemma_pass_work(below, status);
            crate::resolver::lemma_pass_shape(
                WalkModel { deps: below.deps.push((below.name(), status)), ..below },
            );
            lemma_settle_work(r);
        }
    } else if s.seen.contains(s.name()) {
        lemma_pass_work(s, ResolutionModel::NotFound);
        assert(s.shape(true));
        crate::resolver::lemma_pass_shape(s);
        lemma_later_step(s.top());
        lemma_settle_work(s.pass());
    } else {
        let marked = s.mark(s.name());
        lemma_later_step(s.top());
        if marked.top().search.len() == 0 {
            let r = marked.record(ResolutionModel::NotFound);
            lemma_pass_work(marked, ResolutionModel::NotFound);
            assert(marked.shape(true));
            crate::resolver::lemma_pass_shape(
                WalkModel {
                    deps: marked.deps.push((marked.name(), ResolutionModel::NotFound)),
                    ..marked
                },
            );
            lemma_settle_work(r);
        } else {
            assert(s.top().probe == 0);
        }
    }
}

proof fn lemma_record_settle_work(s: WalkModel, status: ResolutionModel)
    requires
        s.shape(true),
        s.stack.len() > 0,
    ensures
        work(s.record(status).settle()) <= later_sum(s.stack),
        s.record(status).settle().visited == s.visited,
{
    lemma_pass_work(s, status);
    crate::resolver::lemma_pass_shape(
        WalkModel { deps: s.deps.push((s.name(), status)), ..s },
    );
    lemma_settle_work(s.record(status));
    lemma_settle_keeps(s.record(status));
}

/// No walk has visited more files than the file system holds.
proof fn lemma_visited_bound(s: WalkModel, ids: Set<(u64, u64)>)
    requires
        s.visited.no_duplicates(),
        within(s, ids),
        ids.finite(),
    ensures
        s.visited.len() <= ids.len(),
{
    s.visited.unique_seq_to_set();
    assert(s.visited.to_set().subset_of(ids)) by {
        assert forall|x: (u64, u64)| s.visited.to_set().contains(x) implies ids.contains(x) by {
            let k = choose|k: int| 0 <= k < s.visited.len() && s.visited[k] == x;
            assert(ids.contains(s.visited[k]));
        }
    }
    vstd::set_lib::lemma_len_subset(s.visited.to_set(), ids);
}

/// Every answer is progress: after it either one more file has a frame, or
/// no more files have one and fewer steps are left.
pub proof fn law_every_answer_is_progress(fs: Files, s: WalkModel)
    requires
        sound(s),
        !(s.stage is Done),
        finite(fs),
        within(s, fs.ids),
    ensures
        sound(answer(fs, s)),
        within(answer(fs, s), fs.ids),
        answer(fs, s).visited.len() <= fs.ids.len(),
        answer(fs, s).visited.len() > s.visited.len() || (answer(fs, s).visited.len()
            == s.visited.len() && 0 <= work(answer(fs, s)) < work(s)),
{
    let t = answer(fs, s);
    law_walk_stays_sound(s, (fs.identity)(s.stage->path), (fs.present)(s.candidate()), (fs.image)(s.candidate()));
    lemma_work_nonneg(t);
    match s.stage {
        StageModel::Identify { path, meta } => {
            let id = (fs.identity)(path);
            if id.is_some() && !s.visited.contains(id.unwrap()) {
                let opened = s.opened(id.unwrap(), frame_of(path, meta, s.dirs));
                crate::resolver::lemma_open_shape(s, id.unwrap(), frame_of(path, meta, s.dirs));
                lemma_settle_work(opened);
                lemma_settle_keeps(opened);
                assert forall|k: int| 0 <= k < t.visited.len() implies fs.ids.contains(
                    #[trigger] t.visited[k],
                ) by {
                    if k < s.visited.len() {
                        assert(t.visited[k] == s.visited[k]);
                    }
                }
            } else {
                if s.stack.len() > 0 {
                    lemma_record_settle_work(s, ResolutionModel::Path(path));
                    lemma_record_settle_work(
                        s.noted(WarningModel::NoIdentity(path)),
                        ResolutionModel::Path(path),
                    );
                }
            }
        },
        StageModel::Probe => {
            if (fs.present)(s.candidate()) {
            } else if s.top().probe + 1 < s.top().search.len() {
                lemma_probe_work(s, FrameModel { probe: s.top().probe + 1, ..s.top() });
            } else {
                lemma_record_settle_work(s, ResolutionModel::NotFound);
            }
        },
        StageModel::Load => {
            lemma_record_settle_work(s, ResolutionModel::Path(s.candidate()));
            lemma_record_settle_work(s.cut(), ResolutionModel::Path(s.candidate()));
            lemma_record_settle_work(s, ResolutionModel::ArchMismatch);
        },
        StageModel::Done => {},
    }
    lemma_visited_bound(t, fs.ids);
}

/// Every walk ends. Against a file system with finitely many files, a walk
/// is over after some number of answers, which this proof counts: a cycle
/// among the dependencies cannot keep it going, since no file gets a frame
/// twice.
pub proof fn law_walk_ends(fs: Files, s: WalkModel) -> (n: nat)
    requires
        sound(s),
        finite(fs),
        within(s, fs.ids),
    ensures
        run(fs, s, n).stage is Done,
    decreases fs.ids.len() - s.visited.len(), work(s),
{
    if s.stage is Done {
        0
    } else {
        law_every_answer_is_progress(fs, s);
        lemma_visited_bound(s, fs.ids);
        lemma_work_nonneg(s);
        let m = law_walk_ends(fs, answer(fs, s));
        m + 1
    }
}

/// How many of the jobs are to read a file.
pub open spec fn reads(queue: Seq<JobModel>) -> nat
    decreases queue.len(),
{
    if queue.len() == 0 {
        0
    } else {
        reads(queue.drop_last()) + if queue.last() is Read {
            1nat
        } else {
            0nat
        }
    }
}

proof fn lemma_reads_add(a: Seq<JobModel>, b: Seq<JobModel>)
    ensures
        reads(a + b) == reads(a) + reads(b),
    decreases b.len(),
{
    if b.len() == 0 {
        assert(a + b =~= a);
    } else {
        assert((a + b).drop_last() =~= a + b.drop_last());
        assert((a + b).last() == b.last());
        lemma_reads_add(a, b.drop_last());
    }
}

proof fn lemma_reads_skip(q: Seq<JobModel>)
    requires
        q.len() > 0,
    ensures
        reads(q) == reads(q.skip(1)) + if q[0] is Read {
            1nat
        } else {
            0nat
        },
{
    let head = seq![q[0]];
    assert(q =~= head + q.skip(1));
    lemma_reads_add(head, q.skip(1));
    assert(head.drop_last() =~= Seq::<JobModel>::empty());
    assert(reads(head.drop_last()) == 0);
    assert(head.last() == q[0]);
}

proof fn lemma_reads_lines(lines: Seq<Text>)
    ensures
        reads(lines_jobs(lines)) == 0,
    decreases lines.len(),
{
    if lines.len() > 0 {
        lemma_reads_lines(lines.drop_last());
        let init = lines_jobs(lines.drop_last());
        match crate::ldconf::line_job(lines.last()) {
            Some(j) => {
                assert(init.push(j).drop_last() =~= init);
                assert(init.push(j).last() == j);
            },
            None => {},
        }
    }
}

proof fn lemma_reads_files(files: Seq<Text>)
    ensures
        reads(read_jobs(files)) == files.len(),
    decreases files.len(),
{
    if files.len() > 0 {
        assert(read_jobs(files).drop_last() =~= read_jobs(files.drop_last()));
        lemma_reads_files(files.drop_last());
    }
}

/// The walk through the configuration after the file system answered what
/// it asks.
pub open spec fn conf_answer(fs: Files, m: ConfModel) -> ConfModel {
    match m.pending() {
        Some(JobModel::Read(p)) => m.file_read((fs.content)(p)),
        Some(JobModel::Expand(p)) => m.expanded((fs.matches)(p)),
        Some(JobModel::Check(p)) => m.checked((fs.is_dir)(p)),
        None => m,
    }
}

/// The walk through the configuration after the file system answered `n`
/// times.
pub open spec fn conf_run(fs: Files, m: ConfModel, n: nat) -> ConfModel
    decreases n,
{
    if n == 0 {
        m
    } else {
        conf_run(fs, conf_answer(fs, m), (n - 1) as nat)
    }
}

/// Every answer to the walk through the configuration is progress: after
/// it fewer patterns may be expanded, or as many and fewer files are to be
/// read, or as many of both and fewer jobs are left.
pub proof fn law_every_configuration_answer_is_progress(fs: Files, m: ConfModel)
    requires
        m.pending().is_some(),
    ensures
        conf_answer(fs, m).budget < m.budget || (conf_answer(fs, m).budget == m.budget && (reads(
            conf_answer(fs, m).queue,
        ) < reads(m.queue) || (reads(conf_answer(fs, m).queue) == reads(m.queue) && conf_answer(
            fs,
            m,
        ).queue.len() < m.queue.len()))),
{
    lemma_reads_skip(m.queue);
    let rest = m.queue.skip(1);
    match m.queue[0] {
        JobModel::Read(p) => {
            match (fs.content)(p) {
                Some(c) => {
                    lemma_reads_lines(crate::text::split_on(c, '\n'));
                    lemma_reads_add(conf_jobs(c), rest);
                },
                None => {},
            }
        },
        JobModel::Expand(p) => {},
        JobModel::Check(p) => {},
    }
}

/// The walk through a configuration ends: it is over after some number of
/// answers, which this proof counts. Files that include themselves or each
/// other cannot keep it going, since each expansion uses up one of the
/// patterns that it may expand.
pub proof fn law_configuration_walk_ends(fs: Files, m: ConfModel) -> (n: nat)
    ensures
        conf_run(fs, m, n).pending().is_none(),
    decreases m.budget, reads(m.queue), m.queue.len(),
{
    if m.pending().is_none() {
        0
    } else {
        law_every_configuration_answer_is_progress(fs, m);
        let k = law_configuration_walk_ends(fs, conf_answer(fs, m));
        k + 1
    }
}

/// The session after the file system answered what it asks.
pub open spec fn session_answer(fs: Files, s: SessionModel) -> SessionModel {
    match s.pending() {
        RequestModel::Canonicalize(p) => s.canonicalized((fs.canonical)(p)),
        RequestModel::ReadText(p) => s.text_read((fs.content)(p)),
        RequestModel::Glob(p) => s.globbed((fs.matches)(p)),
        RequestModel::IsDir(p) => s.dir_checked((fs.is_dir)(p)),
        RequestModel::Identify(p) => s.identified((fs.identity)(p)),
        RequestModel::Exists(p) => s.probed((fs.present)(p)),
        RequestModel::Load(p) => s.loaded((fs.image)(p)),
        RequestModel::Done => s,
    }
}

/// The session after the file system answered `n` times.
pub open spec fn session_run(fs: Files, s: SessionModel, n: nat) -> SessionModel
    decreases n,
{
    if n == 0 {
        s
    } else {
        session_run(fs, session_answer(fs, s), (n - 1) as nat)
    }
}

/// How far a phase is from the end of a session.
pub open spec fn rank(phase: Phase) -> nat {
    match phase {
        Phase::Interpreter => 6,
        Phase::PathFile => 5,
        Phase::LoaderConfig => 5,
        Phase::BinaryDir => 4,
        Phase::FinalPass => 3,
        Phase::Walk => 2,
        Phase::Done => 0,
    }
}

/// What a phase has left, first of all: patterns to expand, directories to
/// resolve, or files without a frame.
pub open spec fn left_first(fs: Files, s: SessionModel) -> int {
    match s.phase {
        Phase::LoaderConfig => s.conf.budget as int,
        Phase::FinalPass => s.raw.len() - s.pass,
        Phase::Walk => match s.walk {
            Some(w) => fs.ids.len() - w.visited.len(),
            None => 0,
        },
        _ => 0,
    }
}

/// What a phase has left after that: files to read, or steps of the frames.
pub open spec fn left_second(s: SessionModel) -> int {
    match s.phase {
        Phase::LoaderConfig => reads(s.conf.queue) as int,
        Phase::Walk => match s.walk {
            Some(w) => work(w),
            None => 0,
        },
        _ => 0,
    }
}

/// What a phase has left at last: jobs.
pub open spec fn left_third(s: SessionModel) -> int {
    match s.phase {
        Phase::LoaderConfig => s.conf.queue.len() as int,
        _ => 0,
    }
}

/// Every session ends. Against a file system with finitely many files, a
/// session is over after some number of answers, which this proof counts:
/// each phase ends, the walk through the configuration and the walk through
/// the libraries among them, and no phase comes twice.
pub proof fn law_session_ends(fs: Files, s: SessionModel) -> (n: nat)
    requires
        session_sound(s),
        finite(fs),
        s.walk matches Some(w) ==> within(w, fs.ids),
    ensures
        session_run(fs, s, n).phase == Phase::Done,
    decreases rank(s.phase), left_first(fs, s), left_second(s), left_third(s),
{
    if s.phase == Phase::Done {
        0
    } else {
        let t = session_answer(fs, s);
        match s.phase {
            Phase::Interpreter => {
                let p = s.interp.unwrap();
                law_session_stays_sound(s, (fs.canonical)(p), None, None, false, None, None);
            },
            Phase::PathFile => {
                law_session_stays_sound(
                    s,
                    None,
                    (fs.content)(crate::session::musl_path_file()),
                    None,
                    false,
                    None,
                    None,
                );
            },
            Phase::LoaderConfig => {
                law_every_configuration_answer_is_progress(fs, s.conf);
                match s.conf.queue[0] {
                    JobModel::Read(p) => {
                        law_session_stays_sound(s, None, (fs.content)(p), None, false, None, None);
                    },
                    JobModel::Expand(p) => {
                        law_session_stays_sound(s, None, None, (fs.matches)(p), false, None, None);
                    },
                    JobModel::Check(p) => {
                        law_session_stays_sound(s, None, None, None, (fs.is_dir)(p), None, None);
                    },
                }
            },
            Phase::BinaryDir => {
                law_session_stays_sound(s, (fs.canonical)(s.path), None, None, false, None, None);
            },
            Phase::FinalPass => {
                law_session_stays_sound(
                    s,
                    (fs.canonical)(s.raw[s.pass]),
                    None,
                    None,
                    false,
                    None,
                    None,
                );
            },
            Phase::Walk => {
                let w = s.walk.unwrap();
                law_every_answer_is_progress(fs, w);
                lemma_visited_bound(w, fs.ids);
                lemma_work_nonneg(w);
                match w.stage {
                    StageModel::Identify { path, meta } => {
                        law_session_stays_sound(
                            s,
                            None,
                            None,
                            None,
                            false,
                            (fs.identity)(path),
                            None,
                        );
                    },
                    StageModel::Probe => {
                        law_session_stays_sound(
                            s,
                            None,
                            None,
                            None,
                            (fs.present)(w.candidate()),
                            None,
                            None,
                        );
                    },
                    StageModel::Load => {
                        law_session_stays_sound(
                            s,
                            None,
                            None,
                            None,
                            false,
                            None,
                            (fs.image)(w.candidate()),
                        );
                    },
                    StageModel::Done => {},
                }
                assert(t == s.walk_step(answer(fs, w)));
            },
            Phase::Done => {},
        }
        assert(session_sound(t));
        assert(t.walk matches Some(w) ==> within(w, fs.ids)) by {
            if s.phase != Phase::Walk {
                if t.walk.is_some() {
                    assert(t.walk.unwrap().visited.len() == 0);
                }
            }
        }
        let k = law_session_ends(fs, t);
        k + 1
    }
}

} // verus!
