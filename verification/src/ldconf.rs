//! The loader's configuration file: what its lines say, and the walk
//! through the files that it includes.
//!
//! The walk reads no file itself. It keeps the jobs that are left, names
//! the next one, and takes what the caller found out for it: the text of a
//! file, the files that match a pattern, or whether a directory is there.
//! It expands no more patterns than its budget allows, so that it ends
//! even where files include themselves or each other.

use crate::notes::{lemma_warnings_push, warnings_of, Warning, WarningModel};
use crate::search::{has_text, lemma_texts_push};
use crate::text::{split, split_on, starts_with, texts, trim, trimmed, Text};
use vstd::prelude::*;

verus! {

/// One piece of work of the walk.
#[derive(Debug, Clone, PartialEq, Eq)]
pub enum Job {
    /// Read the configuration file at this path.
    Read(String),
    /// Find the regular files that match this pattern.
    Expand(String),
    /// Find out whether this path names a directory that is there.
    Check(String),
}

/// A `Job` as the contracts see it.
pub enum JobModel {
    Read(Text),
    Expand(Text),
    Check(Text),
}

impl View for Job {
    type V = JobModel;

    open spec fn view(&self) -> JobModel {
        match self {
            Job::Read(p) => JobModel::Read(p@),
            Job::Expand(p) => JobModel::Expand(p@),
            Job::Check(p) => JobModel::Check(p@),
        }
    }
}

/// The views of a list of jobs, in order.
pub open spec fn jobs(v: Seq<Job>) -> Seq<JobModel> {
    Seq::new(v.len(), |i: int| v[i]@)
}

/// `s` from its last item to its first.
pub open spec fn reversed<A>(s: Seq<A>) -> Seq<A>
    decreases s.len(),
{
    if s.len() == 0 {
        Seq::empty()
    } else {
        seq![s.last()] + reversed(s.drop_last())
    }
}

/// The job that a line of a configuration file asks for. A line that is
/// empty but for white space, or whose first character after it is `#`,
/// asks for none. One that begins with `include` asks for the files that
/// match the rest of it. Any other line names a directory.
pub open spec fn line_job(line: Text) -> Option<JobModel> {
    let t = trimmed(line);
    if t.len() == 0 || t[0] == '#' {
        None
    } else if "include"@.is_prefix_of(t) {
        Some(JobModel::Expand(trimmed(t.skip(7))))
    } else {
        Some(JobModel::Check(t))
    }
}

/// The jobs that a list of lines asks for, in the order of the lines.
pub open spec fn lines_jobs(lines: Seq<Text>) -> Seq<JobModel>
    decreases lines.len(),
{
    if lines.len() == 0 {
        Seq::empty()
    } else {
        match line_job(lines.last()) {
            Some(j) => lines_jobs(lines.drop_last()).push(j),
            None => lines_jobs(lines.drop_last()),
        }
    }
}

/// The jobs that the text of a configuration file asks for.
pub open spec fn conf_jobs(content: Text) -> Seq<JobModel> {
    lines_jobs(split_on(content, '\n'))
}

/// The jobs to read each of `files`.
pub open spec fn read_jobs(files: Seq<Text>) -> Seq<JobModel> {
    Seq::new(files.len(), |i: int| JobModel::Read(files[i]))
}

/// How many patterns a configuration may expand, over all of its files:
/// files that include each other cannot keep the walk going beyond that.
pub const MAX_INCLUDES: usize = 1024;

/// The state of a walk: the jobs that are left, the next one first; the
/// directories found so far; how many patterns may still be expanded; and
/// what the walk passed over.
pub struct ConfModel {
    pub queue: Seq<JobModel>,
    pub dirs: Seq<Text>,
    pub budget: nat,
    pub warnings: Seq<WarningModel>,
}

impl ConfModel {
    /// The walk that has the file at `root` to read and nothing found, and
    /// that may expand `budget` patterns.
    pub open spec fn start(root: Text, budget: nat) -> ConfModel {
        ConfModel {
            queue: seq![JobModel::Read(root)],
            dirs: Seq::empty(),
            budget,
            warnings: Seq::empty(),
        }
    }

    /// The walk with nothing to do and nothing found.
    pub open spec fn idle() -> ConfModel {
        ConfModel { queue: Seq::empty(), dirs: Seq::empty(), budget: 0, warnings: Seq::empty() }
    }

    /// The job that the caller is to do next; none when the walk is over.
    pub open spec fn pending(self) -> Option<JobModel> {
        if self.queue.len() > 0 {
            Some(self.queue[0])
        } else {
            None
        }
    }

    /// The walk after the file of the pending `Read` was read, or could not
    /// be: the jobs of its lines come before all that was left. A file that
    /// cannot be read is noted and gives no job.
    pub open spec fn file_read(self, content: Option<Text>) -> ConfModel {
        if self.queue.len() > 0 && self.queue[0] is Read {
            match content {
                Some(c) => ConfModel { queue: conf_jobs(c) + self.queue.skip(1), ..self },
                None => ConfModel {
                    queue: self.queue.skip(1),
                    warnings: self.warnings.push(WarningModel::Unreadable(self.queue[0]->Read_0)),
                    ..self
                },
            }
        } else {
            self
        }
    }

    /// The walk after the pattern of the pending `Expand` was matched, or
    /// was found malformed: the files that match are read, in their order,
    /// before all that was left, and one pattern less may be expanded. A
    /// malformed pattern is noted and gives no job; so is any pattern once
    /// none may be expanded any more.
    pub open spec fn expanded(self, files: Option<Seq<Text>>) -> ConfModel {
        if self.queue.len() > 0 && self.queue[0] is Expand {
            let pattern = self.queue[0]->Expand_0;
            match files {
                None => ConfModel {
                    queue: self.queue.skip(1),
                    warnings: self.warnings.push(WarningModel::MalformedPattern(pattern)),
                    ..self
                },
                Some(f) => if self.budget == 0 {
                    ConfModel {
                        queue: self.queue.skip(1),
                        warnings: self.warnings.push(WarningModel::IncludeLimit(pattern)),
                        ..self
                    }
                } else {
                    ConfModel {
                        queue: read_jobs(f) + self.queue.skip(1),
                        budget: (self.budget - 1) as nat,
                        ..self
                    }
                },
            }
        } else {
            self
        }
    }

    /// The walk after the path of the pending `Check` was looked at: a
    /// directory that is there and was not found before is found now.
    pub open spec fn checked(self, is_dir: bool) -> ConfModel {
        if self.queue.len() > 0 && self.queue[0] is Check {
            let dir = self.queue[0]->Check_0;
            ConfModel {
                queue: self.queue.skip(1),
                dirs: if is_dir && !self.dirs.contains(dir) {
                    self.dirs.push(dir)
                } else {
                    self.dirs
                },
                ..self
            }
        } else {
            self
        }
    }
}

/// No directory is found twice: a walk begins without directories, and one
/// without repeats among its directories has none after any step.
pub proof fn law_directories_found_once(
    m: ConfModel,
    root: Text,
    budget: nat,
    content: Option<Text>,
    files: Option<Seq<Text>>,
    is_dir: bool,
)
    requires
        m.dirs.no_duplicates(),
    ensures
        ConfModel::start(root, budget).dirs.no_duplicates(),
        ConfModel::idle().dirs.no_duplicates(),
        m.file_read(content).dirs.no_duplicates(),
        m.expanded(files).dirs.no_duplicates(),
        m.checked(is_dir).dirs.no_duplicates(),
{
}

/// A directory that was found stays found, at its place, and so does a
/// warning: the directories and the warnings before a step begin those
/// after it.
pub proof fn law_directories_stay(
    m: ConfModel,
    content: Option<Text>,
    files: Option<Seq<Text>>,
    is_dir: bool,
)
    ensures
        m.file_read(content).dirs == m.dirs,
        m.expanded(files).dirs == m.dirs,
        m.dirs.is_prefix_of(m.checked(is_dir).dirs),
        m.warnings.is_prefix_of(m.file_read(content).warnings),
        m.warnings.is_prefix_of(m.expanded(files).warnings),
        m.checked(is_dir).warnings == m.warnings,
{
    assert(m.dirs.is_prefix_of(m.dirs));
    assert(m.dirs.is_prefix_of(m.dirs.push(arbitrary())));
    assert(m.warnings.is_prefix_of(m.warnings));
    assert(m.warnings.is_prefix_of(m.warnings.push(arbitrary())));
}

proof fn lemma_jobs_push(v: Seq<Job>, j: Job)
    ensures
        jobs(v.push(j)) == jobs(v).push(j@),
{
    assert(jobs(v.push(j)) =~= jobs(v).push(j@));
}

proof fn lemma_reversed_push<A>(s: Seq<A>, x: A)
    ensures
        reversed(s.push(x)) == seq![x] + reversed(s),
{
    assert(s.push(x).drop_last() =~= s);
}

proof fn lemma_reversed_len<A>(s: Seq<A>)
    ensures
        reversed(s).len() == s.len(),
    decreases s.len(),
{
    if s.len() > 0 {
        lemma_reversed_len(s.drop_last());
    }
}

/// The jobs that the text of a configuration file asks for.
pub fn parse_conf(content: &str) -> (r: Vec<Job>)
    ensures
        jobs(r@) == conf_jobs(content@),
{
    let lines = split(content, '\n');
    let mut r: Vec<Job> = Vec::new();
    let mut i: usize = 0;
    assert(texts(lines@).take(0) =~= Seq::<Text>::empty());
    assert(jobs(r@) =~= Seq::<JobModel>::empty());
    while i < lines.len()
        invariant
            i <= lines.len(),
            jobs(r@) == lines_jobs(texts(lines@).take(i as int)),
        decreases lines.len() - i,
    {
        let t = trim(lines[i].as_str());
        proof {
            assert(texts(lines@).take(i + 1).drop_last() =~= texts(lines@).take(i as int));
            assert(texts(lines@).take(i + 1).last() == lines@[i as int]@);
            reveal_strlit("include");
        }
        let n = t.unicode_len();
        if n > 0 && t.get_char(0) != '#' {
            let job = if starts_with(t, "include") {
                assert(t@.subrange(7, n as int) =~= t@.skip(7));
                Job::Expand(String::from_str(trim(t.substring_char(7, n))))
            } else {
                Job::Check(String::from_str(t))
            };
            proof {
                lemma_jobs_push(r@, job);
            }
            r.push(job);
        }
        i += 1;
    }
    assert(texts(lines@).take(lines.len() as int) =~= texts(lines@));
    r
}

/// A walk through a configuration file and the files that it includes.
pub struct ConfWalk {
    /// The jobs that are left, the next one last.
    stack: Vec<Job>,
    /// The directories found so far.
    dirs: Vec<String>,
    /// How many patterns may still be expanded.
    budget: usize,
    /// What the walk passed over.
    warnings: Vec<Warning>,
}

impl View for ConfWalk {
    type V = ConfModel;

    closed spec fn view(&self) -> ConfModel {
        ConfModel {
            queue: reversed(jobs(self.stack@)),
            dirs: texts(self.dirs@),
            budget: self.budget as nat,
            warnings: warnings_of(self.warnings@),
        }
    }
}

impl ConfWalk {
    /// The walk that has the file at `root` to read and may expand `budget`
    /// patterns.
    pub fn new(root: &str, budget: usize) -> (w: ConfWalk)
        ensures
            w@ == ConfModel::start(root@, budget as nat),
    {
        let mut stack: Vec<Job> = Vec::new();
        let job = Job::Read(String::from_str(root));
        proof {
            lemma_jobs_push(stack@, job);
            lemma_reversed_push(jobs(stack@), job@);
            assert(jobs(stack@) =~= Seq::<JobModel>::empty());
            assert(seq![job@] + reversed(Seq::<JobModel>::empty()) =~= seq![job@]);
        }
        stack.push(job);
        let w = ConfWalk { stack, dirs: Vec::new(), budget, warnings: Vec::new() };
        assert(texts(w.dirs@) =~= Seq::<Text>::empty());
        assert(warnings_of(w.warnings@) =~= Seq::<WarningModel>::empty());
        w
    }

    /// The walk with nothing to do.
    pub fn idle() -> (w: ConfWalk)
        ensures
            w@ == ConfModel::idle(),
    {
        let w = ConfWalk { stack: Vec::new(), dirs: Vec::new(), budget: 0, warnings: Vec::new() };
        assert(jobs(w.stack@) =~= Seq::<JobModel>::empty());
        assert(texts(w.dirs@) =~= Seq::<Text>::empty());
        assert(warnings_of(w.warnings@) =~= Seq::<WarningModel>::empty());
        w
    }

    /// The job that the caller is to do next; none when the walk is over.
    pub fn pending(&self) -> (r: Option<&Job>)
        ensures
            match r {
                Some(j) => self@.pending() == Some(j@),
                None => self@.pending().is_none(),
            },
    {
        proof {
            lemma_reversed_len(jobs(self.stack@));
        }
        let n = self.stack.len();
        if n > 0 {
            Some(&self.stack[n - 1])
        } else {
            None
        }
    }

    /// The directories found so far, in the order in which they were found.
    pub fn dirs(&self) -> (r: &Vec<String>)
        ensures
            texts(r@) == self@.dirs,
    {
        &self.dirs
    }

    /// What the walk passed over, in the order in which it came to it.
    pub fn warnings(&self) -> (r: &Vec<Warning>)
        ensures
            warnings_of(r@) == self@.warnings,
    {
        &self.warnings
    }

    /// Takes the job that is next off the stack.
    fn take_job(&mut self) -> (job: Job)
        requires
            old(self).stack.len() > 0,
        ensures
            old(self)@.queue.len() > 0,
            job@ == old(self)@.queue[0],
            final(self)@ == (ConfModel { queue: old(self)@.queue.skip(1), ..old(self)@ }),
    {
        proof {
            lemma_reversed_len(jobs(self.stack@));
            assert(jobs(self.stack@.drop_last()) =~= jobs(self.stack@).drop_last());
            assert(reversed(jobs(self.stack@)).skip(1) =~= reversed(
                jobs(self.stack@.drop_last()),
            ));
        }
        self.stack.pop().unwrap()
    }

    /// Puts `found` on the stack, so that its first job is next.
    fn put_jobs(&mut self, found: Vec<Job>)
        ensures
            final(self)@ == (ConfModel { queue: jobs(found@) + old(self)@.queue, ..old(self)@ }),
    {
        let mut found = found;
        let ghost all = jobs(found@);
        let ghost rest = self@.queue;
        while found.len() > 0
            invariant
                jobs(found@) + reversed(jobs(self.stack@)) == all + rest,
                self.dirs == old(self).dirs,
                self.budget == old(self).budget,
                self.warnings == old(self).warnings,
            decreases found.len(),
        {
            let ghost before = found@;
            let job = found.pop().unwrap();
            proof {
                lemma_jobs_push(self.stack@, job);
                lemma_reversed_push(jobs(self.stack@), job@);
                assert(jobs(before) =~= jobs(found@).push(job@));
                assert(jobs(found@).push(job@) + reversed(jobs(self.stack@)) =~= jobs(found@) + (
                seq![job@] + reversed(jobs(self.stack@))));
            }
            self.stack.push(job);
        }
        assert(jobs(found@) + reversed(jobs(self.stack@)) =~= reversed(jobs(self.stack@)));
    }

    /// Takes the text of the file of the pending `Read`, or `None` where it
    /// could not be read. Without such a job pending, nothing changes.
    pub fn file_read(&mut self, content: Option<&str>)
        ensures
            final(self)@ == old(self)@.file_read(
                match content {
                    Some(c) => Some(c@),
                    None => None,
                },
            ),
    {
        proof {
            lemma_reversed_len(jobs(self.stack@));
        }
        let n = self.stack.len();
        if n == 0 {
            return ;
        }
        match &self.stack[n - 1] {
            Job::Read(_) => {},
            _ => {
                return ;
            },
        }
        let job = self.take_job();
        match content {
            None => {
                match job {
                    Job::Read(path) => {
                        let w = Warning::Unreadable(path);
                        proof {
                            lemma_warnings_push(self.warnings@, w);
                        }
                        self.warnings.push(w);
                    },
                    _ => {},
                }
            },
            Some(c) => {
                let found = parse_conf(c);
                self.put_jobs(found);
            },
        }
    }

    /// Takes the regular files that match the pattern of the pending
    /// `Expand`, or `None` where the pattern is malformed. Without such a
    /// job pending, nothing changes.
    pub fn expanded(&mut self, files: Option<Vec<String>>)
        ensures
            final(self)@ == old(self)@.expanded(
                match files {
                    Some(f) => Some(texts(f@)),
                    None => None,
                },
            ),
    {
        proof {
            lemma_reversed_len(jobs(self.stack@));
        }
        let n = self.stack.len();
        if n == 0 {
            return ;
        }
        match &self.stack[n - 1] {
            Job::Expand(_) => {},
            _ => {
                return ;
            },
        }
        let job = self.take_job();
        let pattern = match job {
            Job::Expand(p) => p,
            Job::Read(p) => p,
            Job::Check(p) => p,
        };
        match files {
            None => {
                let w = Warning::MalformedPattern(pattern);
                proof {
                    lemma_warnings_push(self.warnings@, w);
                }
                self.warnings.push(w);
            },
            Some(f) => {
                if self.budget == 0 {
                    let w = Warning::IncludeLimit(pattern);
                    proof {
                        lemma_warnings_push(self.warnings@, w);
                    }
                    self.warnings.push(w);
                } else {
                    let mut reads: Vec<Job> = Vec::new();
                    let mut i: usize = 0;
                    assert(jobs(reads@) =~= read_jobs(texts(f@).take(0)));
                    while i < f.len()
                        invariant
                            i <= f.len(),
                            jobs(reads@) == read_jobs(texts(f@).take(i as int)),
                        decreases f.len() - i,
                    {
                        let job = Job::Read(f[i].clone());
                        proof {
                            lemma_jobs_push(reads@, job);
                            assert(read_jobs(texts(f@).take(i as int)).push(job@) =~= read_jobs(
                                texts(f@).take(i + 1),
                            ));
                        }
                        reads.push(job);
                        i += 1;
                    }
                    assert(texts(f@).take(f.len() as int) =~= texts(f@));
                    self.budget = self.budget - 1;
                    self.put_jobs(reads);
                }
            },
        }
    }

    /// Takes whether the path of the pending `Check` names a directory that
    /// is there. Without such a job pending, nothing changes.
    pub fn checked(&mut self, is_dir: bool)
        ensures
            final(self)@ == old(self)@.checked(is_dir),
    {
        proof {
            lemma_reversed_len(jobs(self.stack@));
        }
        let n = self.stack.len();
        if n == 0 {
            return ;
        }
        match &self.stack[n - 1] {
            Job::Check(_) => {},
            _ => {
                return ;
            },
        }
        let job = self.take_job();
        match job {
            Job::Check(dir) => {
                if is_dir && !has_text(&self.dirs, dir.as_str()) {
                    proof {
                        lemma_texts_push(self.dirs@, dir);
                    }
                    self.dirs.push(dir);
                }
            },
            _ => {},
        }
    }
}

} // verus!
