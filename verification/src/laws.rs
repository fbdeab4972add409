//! What holds of every walk and every session: the record only grows, no
//! name stands in it twice, a name is looked for once and recorded with a
//! candidate that is there, and the report lists the names as they were
//! met.

use crate::elf::{arch_matches, ElfArch, ElfFacts, ElfType};
use crate::paths::joined;
use crate::progress::{answer, run, Files};
use crate::report::{in_order_met, status_in, Config};
use crate::notes::WarningModel;
use crate::request::RequestModel;
use crate::resolver::{
    frame_of,
    lemma_leave_shape,
    lemma_open_shape,
    lemma_pass_shape,
    lemma_returned_shaped,
    lemma_settle_shaped,
    own_dirs,
    FrameModel,
    ResolutionModel,
    StageModel,
    WalkModel,
};
use crate::resolver::MAX_DEPTH;
use crate::session::{loader_name, Phase, SessionModel};
use crate::text::Text;
use vstd::prelude::*;

verus! {

/// The names recorded so far, in the order of the record.
pub open spec fn names(s: WalkModel) -> Seq<Text> {
    Seq::new(s.deps.len(), |k: int| s.deps[k].0)
}

/// The name at hand in frame `i`.
pub open spec fn at_hand(s: WalkModel, i: int) -> Text {
    s.stack[i].needed[s.stack[i].next]
}

/// The candidate at hand in frame `i`.
pub open spec fn candidate_of(s: WalkModel, i: int) -> Text {
    joined(s.stack[i].search[s.stack[i].probe], at_hand(s, i))
}

/// How many frames, from the root's on, have a name at hand that waits to
/// be recorded: all but the last, and the last too where `busy`.
pub open spec fn waiting(s: WalkModel, busy: bool) -> int {
    if busy {
        s.stack.len() as int
    } else {
        s.stack.len() - 1
    }
}

/// The name at hand in frame `i` is met and not recorded.
pub open spec fn waits(s: WalkModel, i: int) -> bool {
    s.seen.contains(at_hand(s, i)) && !names(s).contains(at_hand(s, i))
}

/// Frame `i + 1` walks the candidate at hand in frame `i`.
pub open spec fn linked(s: WalkModel, i: int) -> bool {
    s.stack[i + 1].path == candidate_of(s, i)
}

/// Name `j` of frame `i` is met.
pub open spec fn passed(s: WalkModel, i: int, j: int) -> bool {
    s.seen.contains(s.stack[i].needed[j])
}

/// The record and the frames fit together. Nothing stands twice among the
/// visited files, the names met, or the names recorded. Every recorded name
/// is met. The names at hand in the waiting frames are met, not recorded,
/// and differ from frame to frame; every name met is recorded or at hand
/// in a waiting frame. Every name that a frame has passed is met. Each
/// frame above the root's walks the candidate at hand in the frame below.
pub open spec fn tidy(s: WalkModel, busy: bool) -> bool {
    &&& s.shape(busy)
    &&& s.visited.no_duplicates()
    &&& s.seen.no_duplicates()
    &&& names(s).no_duplicates()
    &&& forall|k: int| 0 <= k < s.deps.len() ==> s.seen.contains(#[trigger] names(s)[k])
    &&& forall|i: int| 0 <= i < waiting(s, busy) ==> #[trigger] waits(s, i)
    &&& forall|i: int, j: int|
        0 <= i < j < waiting(s, busy) ==> #[trigger] at_hand(s, i) != #[trigger] at_hand(s, j)
    &&& forall|x: Text| #[trigger]
        s.seen.contains(x) ==> names(s).contains(x) || exists|i: int|
            0 <= i < waiting(s, busy) && #[trigger] at_hand(s, i) == x
    &&& forall|i: int, j: int|
        0 <= i < s.stack.len() && 0 <= j < s.stack[i].next ==> #[trigger] passed(s, i, j)
    &&& forall|i: int| 0 <= i < s.stack.len() - 1 ==> #[trigger] linked(s, i)
}

/// The walk is in a state that a walk can reach.
pub open spec fn sound(s: WalkModel) -> bool {
    &&& s.shaped()
    &&& tidy(s, !(s.stage is Done))
    &&& s.stage matches StageModel::Identify { path, meta } ==> s.stack.len() > 0 ==> path
        == s.candidate()
}

/// `t` has all that `s` has, at its place: the record of `s` begins that of
/// `t`, the files visited in `s` begin those visited in `t`, the names met
/// in `s` begin those met in `t`, and the search is the same.
pub open spec fn extends(s: WalkModel, t: WalkModel) -> bool {
    &&& s.deps.is_prefix_of(t.deps)
    &&& s.visited.is_prefix_of(t.visited)
    &&& s.seen.is_prefix_of(t.seen)
    &&& s.warnings.is_prefix_of(t.warnings)
    &&& forall|x: Text| s.seen.contains(x) ==> #[trigger] t.seen.contains(x)
    &&& t.dirs == s.dirs
    &&& t.arch == s.arch
    &&& t.enforce_arch == s.enforce_arch
}

proof fn lemma_extends_refl(s: WalkModel)
    ensures
        extends(s, s),
{
}

proof fn lemma_extends_trans(a: WalkModel, b: WalkModel, c: WalkModel)
    requires
        extends(a, b),
        extends(b, c),
    ensures
        extends(a, c),
{
    assert(a.deps =~= c.deps.subrange(0, a.deps.len() as int)) by {
        assert forall|k: int| 0 <= k < a.deps.len() implies a.deps[k] == c.deps[k] by {
            assert(a.deps[k] == b.deps.subrange(0, a.deps.len() as int)[k]);
            assert(b.deps[k] == c.deps.subrange(0, b.deps.len() as int)[k]);
        }
    }
    assert(a.seen =~= c.seen.subrange(0, a.seen.len() as int)) by {
        assert forall|k: int| 0 <= k < a.seen.len() implies a.seen[k] == c.seen[k] by {
            assert(a.seen[k] == b.seen.subrange(0, a.seen.len() as int)[k]);
            assert(b.seen[k] == c.seen.subrange(0, b.seen.len() as int)[k]);
        }
    }
    assert(a.warnings =~= c.warnings.subrange(0, a.warnings.len() as int)) by {
        assert forall|k: int| 0 <= k < a.warnings.len() implies a.warnings[k] == c.warnings[k] by {
            assert(a.warnings[k] == b.warnings.subrange(0, a.warnings.len() as int)[k]);
            assert(b.warnings[k] == c.warnings.subrange(0, b.warnings.len() as int)[k]);
        }
    }
    assert(a.visited =~= c.visited.subrange(0, a.visited.len() as int)) by {
        assert forall|k: int| 0 <= k < a.visited.len() implies a.visited[k] == c.visited[k] by {
            assert(a.visited[k] == b.visited.subrange(0, a.visited.len() as int)[k]);
            assert(b.visited[k] == c.visited.subrange(0, b.visited.len() as int)[k]);
        }
    }
}

proof fn lemma_record_extends(s: WalkModel, status: ResolutionModel)
    ensures
        extends(s, s.record(status)),
        s.record(status).deps == s.deps.push((s.name(), status)),
        extends(s, s.pass()),
        extends(s, s.leave()),
        forall|st: StageModel| extends(s, #[trigger] s.at(st)),
        forall|x: Text| extends(s, #[trigger] s.mark(x)),
        forall|w: WarningModel| extends(s, #[trigger] s.noted(w)),
{
    assert(s.warnings =~= s.warnings.subrange(0, s.warnings.len() as int));
    assert forall|w: WarningModel| extends(s, #[trigger] s.noted(w)) by {
        assert(s.warnings =~= s.noted(w).warnings.subrange(0, s.warnings.len() as int));
    }
    assert(s.deps =~= s.deps.push((s.name(), status)).subrange(0, s.deps.len() as int));
    assert(s.deps =~= s.deps.subrange(0, s.deps.len() as int));
    assert(s.visited =~= s.visited.subrange(0, s.visited.len() as int));
    assert(s.seen =~= s.seen.subrange(0, s.seen.len() as int));
    assert forall|x: Text| extends(s, #[trigger] s.mark(x)) by {
        let t = s.mark(x);
        assert(s.seen =~= t.seen.subrange(0, s.seen.len() as int));
        assert forall|y: Text| s.seen.contains(y) implies #[trigger] t.seen.contains(y) by {
            let k = choose|k: int| 0 <= k < s.seen.len() && s.seen[k] == y;
            assert(t.seen[k] == y);
        }
    }
}

/// Going on recasts nothing: what the walk had before, it has after.
pub proof fn lemma_settle_extends(s: WalkModel)
    ensures
        extends(s, s.settle()),
    decreases s.stack.len(), s.slack(),
{
    lemma_record_extends(s, ResolutionModel::NotFound);
    if s.stack.len() == 0 {
    } else if s.slack() <= 0 {
        let below = s.leave();
        if below.stack.len() > 0 {
            let r = below.record(ResolutionModel::Path(s.top().path));
            lemma_record_extends(below, ResolutionModel::Path(s.top().path));
            lemma_extends_trans(s, below, r);
            lemma_settle_extends(r);
            lemma_extends_trans(s, r, r.settle());
        } else {
            lemma_record_extends(below, ResolutionModel::NotFound);
            lemma_extends_trans(s, below, below.at(StageModel::Done));
        }
    } else if s.seen.contains(s.name()) {
        lemma_settle_extends(s.pass());
        lemma_extends_trans(s, s.pass(), s.pass().settle());
    } else {
        let marked = s.mark(s.name());
        lemma_record_extends(marked, ResolutionModel::NotFound);
        if marked.top().search.len() == 0 {
            let r = marked.record(ResolutionModel::NotFound);
            lemma_extends_trans(s, marked, r);
            lemma_settle_extends(r);
            lemma_extends_trans(s, r, r.settle());
        } else {
            lemma_extends_trans(s, marked, marked.at(StageModel::Probe));
        }
    }
}

proof fn lemma_returned_extends(s: WalkModel, path: Text)
    ensures
        extends(s, s.returned(path)),
        s.stack.len() > 0 ==> s.deps.push((s.name(), ResolutionModel::Path(path))).is_prefix_of(
            s.returned(path).deps,
        ),
{
    lemma_record_extends(s, ResolutionModel::Path(path));
    if s.stack.len() > 0 {
        let r = s.record(ResolutionModel::Path(path));
        lemma_settle_extends(r);
        lemma_extends_trans(s, r, r.settle());
    }
}

/// The record only grows. Whatever the file system answers, the walk after
/// the answer has all that it had before: no entry of the record is taken
/// back or rewritten, and no name met is forgotten.
pub proof fn law_record_only_grows(
    s: WalkModel,
    id: Option<(u64, u64)>,
    exists: bool,
    image: Option<ElfFacts>,
)
    ensures
        extends(s, s.identified(id)),
        extends(s, s.probed(exists)),
        extends(s, s.loaded(image)),
{
    lemma_extends_refl(s);
    lemma_record_extends(s, ResolutionModel::NotFound);
    lemma_record_extends(s, ResolutionModel::ArchMismatch);
    match s.stage {
        StageModel::Identify { path, meta } => {
            if id.is_some() && !s.visited.contains(id.unwrap()) {
                let opened = s.opened(id.unwrap(), frame_of(path, meta, s.dirs));
                assert(s.visited =~= opened.visited.subrange(0, s.visited.len() as int));
                assert(extends(s, opened));
                lemma_settle_extends(opened);
                lemma_extends_trans(s, opened, opened.settle());
            } else if id.is_none() {
                let n = s.noted(WarningModel::NoIdentity(path));
                lemma_returned_extends(n, path);
                lemma_extends_trans(s, n, n.returned(path));
            } else {
                lemma_returned_extends(s, path);
            }
        },
        StageModel::Probe => {
            if !exists && !(s.top().probe + 1 < s.top().search.len()) {
                let r = s.record(ResolutionModel::NotFound);
                lemma_settle_extends(r);
                lemma_extends_trans(s, r, r.settle());
            }
        },
        StageModel::Load => {
            lemma_returned_extends(s, s.candidate());
            match image {
                Some(meta) => {
                    let r = s.record(ResolutionModel::ArchMismatch);
                    lemma_settle_extends(r);
                    lemma_extends_trans(s, r, r.settle());
                    lemma_returned_extends(s.cut(), s.candidate());
                    lemma_extends_trans(s, s.cut(), s.cut().returned(s.candidate()));
                },
                None => {},
            }
        },
        StageModel::Done => {},
    }
}

/// Two states with the same frames, record, names met and files visited
/// are tidy together.
proof fn lemma_tidy_same(s: WalkModel, t: WalkModel, busy: bool)
    requires
        tidy(s, busy),
        t.stack == s.stack,
        t.deps == s.deps,
        t.seen == s.seen,
        t.visited == s.visited,
    ensures
        tidy(t, busy),
{
    assert(names(t) =~= names(s));
    assert forall|i: int| 0 <= i < waiting(t, busy) implies #[trigger] waits(t, i) by {
        assert(waits(s, i));
    }
    assert forall|i: int, j: int| 0 <= i < j < waiting(t, busy) implies #[trigger] at_hand(t, i)
        != #[trigger] at_hand(t, j) by {
        assert(at_hand(s, i) != at_hand(s, j));
    }
    assert forall|x: Text| #[trigger] t.seen.contains(x) implies names(t).contains(x) || exists|
        i: int,
    |
        0 <= i < waiting(t, busy) && #[trigger] at_hand(t, i) == x by {
        if !names(s).contains(x) {
            let i = choose|i: int| 0 <= i < waiting(s, busy) && #[trigger] at_hand(s, i) == x;
            assert(at_hand(t, i) == x);
        }
    }
    assert forall|i: int, j: int|
        0 <= i < t.stack.len() && 0 <= j < t.stack[i].next implies #[trigger] passed(t, i, j) by {
        assert(passed(s, i, j));
    }
    assert forall|i: int| 0 <= i < t.stack.len() - 1 implies #[trigger] linked(t, i) by {
        assert(linked(s, i));
    }
}

/// Recording the name at hand keeps the state tidy.
proof fn lemma_record_tidy(s: WalkModel, status: ResolutionModel)
    requires
        tidy(s, true),
        s.stack.len() > 0,
    ensures
        tidy(s.record(status), false),
{
    let name = s.name();
    let d = WalkModel { deps: s.deps.push((name, status)), ..s };
    lemma_pass_shape(d);
    let t = s.record(status);
    let last = s.stack.len() - 1;
    assert(names(t) =~= names(s).push(name));
    assert(waits(s, last));
    assert(at_hand(s, last) == name);
    assert forall|i: int| 0 <= i < last implies #[trigger] t.stack[i] == s.stack[i] by {}
    assert forall|i: int| 0 <= i < last implies at_hand(t, i) == #[trigger] at_hand(s, i) by {
        assert(t.stack[i] == s.stack[i]);
    }
    assert forall|k: int| 0 <= k < names(s).len() implies #[trigger] names(s)[k] != name by {
        if names(s)[k] == name {
            assert(names(s).contains(name));
        }
    }
    assert(names(t).no_duplicates());
    assert forall|k: int| 0 <= k < t.deps.len() implies t.seen.contains(
        #[trigger] names(t)[k],
    ) by {
        if k < s.deps.len() {
            assert(names(s)[k] == names(t)[k]);
        }
    }
    assert forall|i: int| 0 <= i < waiting(t, false) implies #[trigger] waits(t, i) by {
        assert(waits(s, i));
        assert(t.stack[i] == s.stack[i]);
        assert(at_hand(s, i) != at_hand(s, last));
        if names(t).contains(at_hand(t, i)) {
            let k = choose|k: int| 0 <= k < names(t).len() && names(t)[k] == at_hand(t, i);
            if k < names(s).len() {
                assert(names(s)[k] == at_hand(s, i));
                assert(names(s).contains(at_hand(s, i)));
            }
        }
    }
    assert forall|i: int, j: int| 0 <= i < j < waiting(t, false) implies #[trigger] at_hand(t, i)
        != #[trigger] at_hand(t, j) by {
        assert(t.stack[i] == s.stack[i]);
        assert(t.stack[j] == s.stack[j]);
        assert(at_hand(s, i) != at_hand(s, j));
    }
    assert forall|x: Text| #[trigger] t.seen.contains(x) implies names(t).contains(x) || exists|
        i: int,
    |
        0 <= i < waiting(t, false) && #[trigger] at_hand(t, i) == x by {
        if names(s).contains(x) {
            let k = choose|k: int| 0 <= k < names(s).len() && names(s)[k] == x;
            assert(names(t)[k] == x);
        } else {
            let i = choose|i: int| 0 <= i < waiting(s, true) && #[trigger] at_hand(s, i) == x;
            if i == last {
                assert(names(t)[names(s).len() as int] == x);
            } else {
                assert(t.stack[i] == s.stack[i]);
                assert(at_hand(t, i) == x);
            }
        }
    }
    assert forall|i: int, j: int|
        0 <= i < t.stack.len() && 0 <= j < t.stack[i].next implies #[trigger] passed(t, i, j) by {
        if i < last {
            assert(t.stack[i] == s.stack[i]);
            assert(passed(s, i, j));
        } else if j < s.stack[last].next {
            assert(passed(s, last, j));
        }
    }
    assert forall|i: int| 0 <= i < t.stack.len() - 1 implies #[trigger] linked(t, i) by {
        assert(linked(s, i));
        assert(t.stack[i] == s.stack[i]);
    }
}

/// Leaving the last frame keeps the state tidy.
proof fn lemma_leave_tidy(s: WalkModel)
    requires
        tidy(s, false),
        s.stack.len() > 0,
    ensures
        tidy(s.leave(), true),
{
    let t = s.leave();
    lemma_leave_shape(s);
    assert(names(t) =~= names(s));
    assert forall|i: int| 0 <= i < waiting(t, true) implies #[trigger] waits(t, i) by {
        assert(waits(s, i));
        assert(t.stack[i] == s.stack[i]);
    }
    assert forall|i: int, j: int| 0 <= i < j < waiting(t, true) implies #[trigger] at_hand(t, i)
        != #[trigger] at_hand(t, j) by {
        assert(t.stack[i] == s.stack[i]);
        assert(t.stack[j] == s.stack[j]);
        assert(at_hand(s, i) != at_hand(s, j));
    }
    assert forall|x: Text| #[trigger] t.seen.contains(x) implies names(t).contains(x) || exists|
        i: int,
    |
        0 <= i < waiting(t, true) && #[trigger] at_hand(t, i) == x by {
        if !names(s).contains(x) {
            let i = choose|i: int| 0 <= i < waiting(s, false) && #[trigger] at_hand(s, i) == x;
            assert(t.stack[i] == s.stack[i]);
            assert(at_hand(t, i) == x);
        }
    }
    assert forall|i: int, j: int|
        0 <= i < t.stack.len() && 0 <= j < t.stack[i].next implies #[trigger] passed(t, i, j) by {
        assert(t.stack[i] == s.stack[i]);
        assert(passed(s, i, j));
    }
    assert forall|i: int| 0 <= i < t.stack.len() - 1 implies #[trigger] linked(t, i) by {
        assert(linked(s, i));
        assert(t.stack[i] == s.stack[i]);
        assert(t.stack[i + 1] == s.stack[i + 1]);
    }
}

/// Passing by a name that was met keeps the state tidy.
proof fn lemma_skip_tidy(s: WalkModel)
    requires
        tidy(s, false),
        s.stack.len() > 0,
        s.slack() > 0,
        s.seen.contains(s.name()),
    ensures
        tidy(s.pass(), false),
{
    let t = s.pass();
    let last = s.stack.len() - 1;
    assert(s.shape(true));
    lemma_pass_shape(s);
    assert(names(t) =~= names(s));
    assert forall|i: int| 0 <= i < last implies #[trigger] t.stack[i] == s.stack[i] by {}
    assert forall|i: int| 0 <= i < waiting(t, false) implies #[trigger] waits(t, i) by {
        assert(waits(s, i));
        assert(t.stack[i] == s.stack[i]);
    }
    assert forall|i: int, j: int| 0 <= i < j < waiting(t, false) implies #[trigger] at_hand(t, i)
        != #[trigger] at_hand(t, j) by {
        assert(t.stack[i] == s.stack[i]);
        assert(t.stack[j] == s.stack[j]);
        assert(at_hand(s, i) != at_hand(s, j));
    }
    assert forall|x: Text| #[trigger] t.seen.contains(x) implies names(t).contains(x) || exists|
        i: int,
    |
        0 <= i < waiting(t, false) && #[trigger] at_hand(t, i) == x by {
        if !names(s).contains(x) {
            let i = choose|i: int| 0 <= i < waiting(s, false) && #[trigger] at_hand(s, i) == x;
            assert(t.stack[i] == s.stack[i]);
            assert(at_hand(t, i) == x);
        }
    }
    assert forall|i: int, j: int|
        0 <= i < t.stack.len() && 0 <= j < t.stack[i].next implies #[trigger] passed(t, i, j) by {
        if i < last {
            assert(t.stack[i] == s.stack[i]);
            assert(passed(s, i, j));
        } else if j < s.stack[last].next {
            assert(passed(s, last, j));
        }
    }
    assert forall|i: int| 0 <= i < t.stack.len() - 1 implies #[trigger] linked(t, i) by {
        assert(linked(s, i));
        assert(t.stack[i] == s.stack[i]);
    }
}

/// Marking a new name as met keeps the state tidy.
proof fn lemma_mark_tidy(s: WalkModel)
    requires
        tidy(s, false),
        s.stack.len() > 0,
        s.slack() > 0,
        !s.seen.contains(s.name()),
    ensures
        tidy(s.mark(s.name()), true),
{
    let name = s.name();
    let t = s.mark(name);
    let last = s.stack.len() - 1;
    assert(names(t) =~= names(s));
    assert(t.seen[s.seen.len() as int] == name);
    assert forall|x: Text| s.seen.contains(x) implies #[trigger] t.seen.contains(x) by {
        let k = choose|k: int| 0 <= k < s.seen.len() && s.seen[k] == x;
        assert(t.seen[k] == x);
    }
    assert forall|k: int| 0 <= k < s.seen.len() implies #[trigger] s.seen[k] != name by {
        if s.seen[k] == name {
            assert(s.seen.contains(name));
        }
    }
    assert(t.seen.no_duplicates());
    assert forall|k: int| 0 <= k < t.deps.len() implies t.seen.contains(
        #[trigger] names(t)[k],
    ) by {
        assert(s.seen.contains(names(s)[k]));
    }
    assert(!names(s).contains(name)) by {
        if names(s).contains(name) {
            let k = choose|k: int| 0 <= k < names(s).len() && names(s)[k] == name;
            assert(s.seen.contains(names(s)[k]));
        }
    }
    assert forall|i: int| 0 <= i < waiting(t, true) implies #[trigger] waits(t, i) by {
        if i < last {
            assert(waits(s, i));
        }
    }
    assert forall|i: int, j: int| 0 <= i < j < waiting(t, true) implies #[trigger] at_hand(t, i)
        != #[trigger] at_hand(t, j) by {
        if j < last {
            assert(at_hand(s, i) != at_hand(s, j));
        } else {
            assert(waits(s, i));
        }
    }
    assert forall|x: Text| #[trigger] t.seen.contains(x) implies names(t).contains(x) || exists|
        i: int,
    |
        0 <= i < waiting(t, true) && #[trigger] at_hand(t, i) == x by {
        let k = choose|k: int| 0 <= k < t.seen.len() && t.seen[k] == x;
        if k < s.seen.len() {
            assert(s.seen[k] == x);
            assert(s.seen.contains(x));
            if !names(s).contains(x) {
                let i = choose|i: int|
                    0 <= i < waiting(s, false) && #[trigger] at_hand(s, i) == x;
                assert(at_hand(t, i) == x);
            }
        } else {
            assert(at_hand(t, last) == x);
        }
    }
    assert forall|i: int, j: int|
        0 <= i < t.stack.len() && 0 <= j < t.stack[i].next implies #[trigger] passed(t, i, j) by {
        assert(passed(s, i, j));
    }
    assert forall|i: int| 0 <= i < t.stack.len() - 1 implies #[trigger] linked(t, i) by {
        assert(linked(s, i));
    }
}

/// Opening a frame for a file that is new keeps the state tidy.
proof fn lemma_open_tidy(s: WalkModel, key: (u64, u64), f: FrameModel)
    requires
        tidy(s, true),
        !s.visited.contains(key),
        s.stack.len() <= MAX_DEPTH,
        f.next == 0,
        f.probe == 0,
        s.stack.len() > 0 ==> f.path == s.candidate(),
    ensures
        tidy(s.opened(key, f), false),
{
    let t = s.opened(key, f);
    lemma_open_shape(s, key, f);
    let last = s.stack.len() - 1;
    assert(names(t) =~= names(s));
    assert forall|i: int| 0 <= i < s.stack.len() implies #[trigger] t.stack[i] == s.stack[i] by {}
    assert forall|k: int| 0 <= k < s.visited.len() implies #[trigger] s.visited[k] != key by {
        if s.visited[k] == key {
            assert(s.visited.contains(key));
        }
    }
    assert(t.visited.no_duplicates());
    assert forall|i: int| 0 <= i < waiting(t, false) implies #[trigger] waits(t, i) by {
        assert(waits(s, i));
        assert(t.stack[i] == s.stack[i]);
    }
    assert forall|i: int, j: int| 0 <= i < j < waiting(t, false) implies #[trigger] at_hand(t, i)
        != #[trigger] at_hand(t, j) by {
        assert(t.stack[i] == s.stack[i]);
        assert(t.stack[j] == s.stack[j]);
        assert(at_hand(s, i) != at_hand(s, j));
    }
    assert forall|x: Text| #[trigger] t.seen.contains(x) implies names(t).contains(x) || exists|
        i: int,
    |
        0 <= i < waiting(t, false) && #[trigger] at_hand(t, i) == x by {
        if !names(s).contains(x) {
            let i = choose|i: int| 0 <= i < waiting(s, true) && #[trigger] at_hand(s, i) == x;
            assert(t.stack[i] == s.stack[i]);
            assert(at_hand(t, i) == x);
        }
    }
    assert forall|i: int, j: int|
        0 <= i < t.stack.len() && 0 <= j < t.stack[i].next implies #[trigger] passed(t, i, j) by {
        if i < s.stack.len() {
            assert(t.stack[i] == s.stack[i]);
            assert(passed(s, i, j));
        }
    }
    assert forall|i: int| 0 <= i < t.stack.len() - 1 implies #[trigger] linked(t, i) by {
        assert(t.stack[i] == s.stack[i]);
        if i < last {
            assert(linked(s, i));
            assert(t.stack[i + 1] == s.stack[i + 1]);
        } else {
            assert(t.stack[i + 1] == f);
            assert(s.stack[i] == s.top());
        }
    }
}

/// Going on leaves the walk in a state that a walk can reach.
proof fn lemma_settle_tidy(s: WalkModel)
    requires
        tidy(s, false),
    ensures
        sound(s.settle()),
    decreases s.stack.len(), s.slack(),
{
    lemma_settle_shaped(s);
    if s.stack.len() == 0 {
        lemma_tidy_same(s, s.at(StageModel::Done), false);
    } else if s.slack() <= 0 {
        let below = s.leave();
        lemma_leave_tidy(s);
        if below.stack.len() > 0 {
            let status = ResolutionModel::Path(s.top().path);
            lemma_record_tidy(below, status);
            lemma_settle_tidy(below.record(status));
        } else {
            let t = below.at(StageModel::Done);
            assert(t.shape(false));
            assert(names(t) =~= names(below));
            assert forall|x: Text| #[trigger] t.seen.contains(x) implies names(t).contains(x) by {
                assert(below.seen.contains(x));
            }
            assert(tidy(t, false));
        }
    } else if s.seen.contains(s.name()) {
        lemma_skip_tidy(s);
        lemma_settle_tidy(s.pass());
    } else {
        let marked = s.mark(s.name());
        lemma_mark_tidy(s);
        if marked.top().search.len() == 0 {
            lemma_record_tidy(marked, ResolutionModel::NotFound);
            lemma_settle_tidy(marked.record(ResolutionModel::NotFound));
        } else {
            lemma_tidy_same(marked, marked.at(StageModel::Probe), true);
        }
    }
}

/// Being done with a file leaves the walk in a state that a walk can reach.
proof fn lemma_returned_tidy(s: WalkModel, path: Text)
    requires
        tidy(s, true),
    ensures
        sound(s.returned(path)),
{
    lemma_returned_shaped(s, path);
    if s.stack.len() > 0 {
        lemma_record_tidy(s, ResolutionModel::Path(path));
        lemma_settle_tidy(s.record(ResolutionModel::Path(path)));
    } else {
        let t = s.at(StageModel::Done);
        assert(names(t) =~= names(s));
        assert forall|x: Text| #[trigger] t.seen.contains(x) implies names(t).contains(x) by {
            assert(s.seen.contains(x));
        }
        assert(tidy(t, false));
    }
}

/// A walk begins in a state that a walk can reach.
pub proof fn law_walk_begins_sound(
    path: Text,
    meta: ElfFacts,
    arch: ElfArch,
    dirs: Seq<Text>,
    enforce_arch: bool,
    first: Option<(Text, Text)>,
)
    ensures
        sound(WalkModel::start(path, meta, arch, dirs, enforce_arch, first)),
{
    let s = WalkModel::start(path, meta, arch, dirs, enforce_arch, first);
    assert forall|x: Text| #[trigger] s.seen.contains(x) implies names(s).contains(x) by {
        let k = choose|k: int| 0 <= k < s.seen.len() && s.seen[k] == x;
        assert(names(s)[0] == x);
    }
    assert forall|k: int| 0 <= k < s.deps.len() implies s.seen.contains(
        #[trigger] names(s)[k],
    ) by {
        assert(s.seen[0] == names(s)[k]);
    }
}

/// A walk stays in the states that a walk can reach, whatever the file
/// system answers.
pub proof fn law_walk_stays_sound(
    s: WalkModel,
    id: Option<(u64, u64)>,
    exists: bool,
    image: Option<ElfFacts>,
)
    requires
        sound(s),
    ensures
        sound(s.identified(id)),
        sound(s.probed(exists)),
        sound(s.loaded(image)),
{
    match s.stage {
        StageModel::Identify { path, meta } => {
            if id.is_some() && !s.visited.contains(id.unwrap()) {
                let f = frame_of(path, meta, s.dirs);
                lemma_open_tidy(s, id.unwrap(), f);
                lemma_settle_tidy(s.opened(id.unwrap(), f));
            } else if id.is_none() {
                let n = s.noted(WarningModel::NoIdentity(path));
                lemma_tidy_same(s, n, true);
                lemma_returned_tidy(n, path);
            } else {
                lemma_returned_tidy(s, path);
            }
        },
        StageModel::Probe => {
            if exists {
                lemma_tidy_same(s, s.at(StageModel::Load), true);
            } else if s.top().probe + 1 < s.top().search.len() {
                let t = s.probed(false);
                let last = s.stack.len() - 1;
                assert forall|i: int| 0 <= i < last implies #[trigger] t.stack[i] == s.stack[i] by {}
                assert(t.shape(true)) by {
                    assert forall|i: int| 0 <= i < t.stack.len() implies 0 <= (
                    #[trigger] t.stack[i]).next <= t.stack[i].needed.len() && 0
                        <= t.stack[i].probe by {
                        if i < last {
                            assert(t.stack[i] == s.stack[i]);
                        }
                    }
                    assert forall|i: int| 0 <= i < t.stack.len() - 1 implies (
                    #[trigger] t.stack[i]).next < t.stack[i].needed.len() by {
                        assert(t.stack[i] == s.stack[i]);
                    }
                }
                assert(names(t) =~= names(s));
                assert forall|i: int| 0 <= i < waiting(t, true) implies at_hand(t, i) == at_hand(
                    s,
                    i,
                ) by {
                    if i < last {
                        assert(t.stack[i] == s.stack[i]);
                    }
                }
                assert forall|i: int| 0 <= i < waiting(t, true) implies #[trigger] waits(t, i) by {
                    assert(waits(s, i));
                }
                assert forall|i: int, j: int| 0 <= i < j < waiting(t, true) implies #[trigger] at_hand(
                    t,
                    i,
                ) != #[trigger] at_hand(t, j) by {
                    assert(at_hand(s, i) != at_hand(s, j));
                }
                assert forall|x: Text| #[trigger] t.seen.contains(x) implies names(t).contains(x)
                    || exists|i: int| 0 <= i < waiting(t, true) && #[trigger] at_hand(t, i) == x by {
                    if !names(s).contains(x) {
                        let i = choose|i: int|
                            0 <= i < waiting(s, true) && #[trigger] at_hand(s, i) == x;
                        assert(at_hand(t, i) == x);
                    }
                }
                assert forall|i: int, j: int|
                    0 <= i < t.stack.len() && 0 <= j < t.stack[i].next implies #[trigger] passed(
                    t,
                    i,
                    j,
                ) by {
                    if i < last {
                        assert(t.stack[i] == s.stack[i]);
                    }
                    assert(passed(s, i, j));
                }
                assert forall|i: int| 0 <= i < t.stack.len() - 1 implies #[trigger] linked(t, i) by {
                    assert(linked(s, i));
                    assert(t.stack[i] == s.stack[i]);
                }
            } else {
                lemma_record_tidy(s, ResolutionModel::NotFound);
                lemma_settle_tidy(s.record(ResolutionModel::NotFound));
            }
        },
        StageModel::Load => {
            lemma_returned_tidy(s, s.candidate());
            match image {
                Some(meta) => {
                    lemma_tidy_same(s, s.cut(), true);
                    lemma_returned_tidy(s.cut(), s.candidate());
                    lemma_record_tidy(s, ResolutionModel::ArchMismatch);
                    lemma_settle_tidy(s.record(ResolutionModel::ArchMismatch));
                    lemma_tidy_same(
                        s,
                        s.at(StageModel::Identify { path: s.candidate(), meta }),
                        true,
                    );
                },
                None => {},
            }
        },
        StageModel::Done => {},
    }
}

/// No name is recorded twice, and once the walk is over every name that it
/// met is recorded: the names of the record are the names met, each once.
pub proof fn law_each_name_reported_once(s: WalkModel)
    requires
        sound(s),
    ensures
        names(s).no_duplicates(),
        forall|x: Text| names(s).contains(x) ==> s.seen.contains(x),
        s.stage is Done ==> forall|x: Text| s.seen.contains(x) ==> names(s).contains(x),
{
    assert forall|x: Text| names(s).contains(x) implies s.seen.contains(x) by {
        let k = choose|k: int| 0 <= k < names(s).len() && names(s)[k] == x;
        assert(s.seen.contains(names(s)[k]));
    }
}

/// Every name that a binary declares before the one at hand is met. With
/// the law above: a name that several binaries declare is met when the
/// first of them comes to it, stays met, and is in the record once when
/// the walk is over.
pub proof fn law_declared_names_are_met(s: WalkModel, i: int, j: int)
    requires
        sound(s),
        0 <= i < s.stack.len(),
        0 <= j < s.stack[i].next,
    ensures
        s.seen.contains(s.stack[i].needed[j]),
{
    assert(passed(s, i, j));
}

/// A name is looked for once. The name at hand in a frame is not in the
/// record and is at hand in no other frame; so a name that one binary led
/// to is never looked for again, in the directories of no other binary
/// that declares it. A name that was met is passed by without a question
/// to the file system.
pub proof fn law_name_is_looked_for_once(s: WalkModel, i: int, j: int)
    requires
        sound(s),
        !(s.stage is Done),
        0 <= i < s.stack.len(),
        0 <= j < s.stack.len(),
        i != j,
    ensures
        !names(s).contains(at_hand(s, i)),
        s.seen.contains(at_hand(s, i)),
        at_hand(s, i) != at_hand(s, j),
        forall|t: WalkModel|
            t.stack.len() > 0 && t.slack() > 0 && t.seen.contains(t.name()) ==> #[trigger] t.settle()
                == t.pass().settle(),
{
    assert(waits(s, i));
    if i < j {
        assert(at_hand(s, i) != at_hand(s, j));
    } else {
        assert(at_hand(s, j) != at_hand(s, i));
    }
}

/// A binary's own directories are searched before the global ones: the
/// search of its frame holds its `RPATH` and `RUNPATH` entries first, in the
/// order of their declaration, and the global directories after them.
pub proof fn law_own_directories_first(path: Text, meta: ElfFacts, dirs: Seq<Text>)
    ensures
        frame_of(path, meta, dirs).search.len() == own_dirs(path, meta).len() + dirs.len(),
        forall|i: int|
            0 <= i < own_dirs(path, meta).len() ==> frame_of(path, meta, dirs).search[i]
                == own_dirs(path, meta)[i],
        forall|j: int|
            0 <= j < dirs.len() ==> frame_of(path, meta, dirs).search[own_dirs(path, meta).len()
                + j] == dirs[j],
{
}

/// The walk after `n` candidates in a row were answered not to be there.
pub open spec fn refused(s: WalkModel, n: nat) -> WalkModel
    decreases n,
{
    if n == 0 {
        s
    } else {
        refused(s.probed(false), (n - 1) as nat)
    }
}

/// The candidates of a name are asked for in the order of the search, and
/// the first that is there is the one that is read. After `k` candidates
/// were answered not to be there, with more to come, the walk asks for the
/// next directory's; when that one is there, it asks for its bytes. The
/// record stands as it was.
pub proof fn law_first_candidate_there_is_read(s: WalkModel, k: nat)
    requires
        sound(s),
        s.stage is Probe,
        s.top().probe + k < s.top().search.len(),
    ensures
        sound(refused(s, k)),
        refused(s, k).stage is Probe,
        refused(s, k).deps == s.deps,
        refused(s, k).pending() == RequestModel::Exists(
            joined(s.top().search[s.top().probe + k], s.name()),
        ),
        refused(s, k).probed(true).pending() == RequestModel::Load(
            joined(s.top().search[s.top().probe + k], s.name()),
        ),
    decreases k,
{
    if k > 0 {
        let t = s.probed(false);
        law_walk_stays_sound(s, None, false, None);
        law_first_candidate_there_is_read(t, (k - 1) as nat);
    }
}

/// A name that is in none of the directories is recorded as not found:
/// when every candidate that is left was answered not to be there, the
/// record goes on with the name at hand and that status.
pub proof fn law_absent_everywhere_is_not_found(s: WalkModel)
    requires
        sound(s),
        s.stage is Probe,
    ensures
        s.deps.push((s.name(), ResolutionModel::NotFound)).is_prefix_of(
            refused(s, (s.top().search.len() - s.top().probe) as nat).deps,
        ),
    decreases s.top().search.len() - s.top().probe,
{
    let n = (s.top().search.len() - s.top().probe) as nat;
    let t = s.probed(false);
    assert(refused(s, n) == refused(t, (n - 1) as nat));
    if s.top().probe + 1 < s.top().search.len() {
        law_walk_stays_sound(s, None, false, None);
        law_absent_everywhere_is_not_found(t);
    } else {
        let r = s.record(ResolutionModel::NotFound);
        lemma_record_extends(s, ResolutionModel::NotFound);
        lemma_settle_extends(r);
    }
}

/// A name whose candidate is there is recorded with that candidate, or as
/// a mismatch. A file that cannot be read or parsed, and one below the depth
/// limit, is recorded with its path at once, the latter noted as too deep;
/// one of another word size, where
/// the walk enforces the match, as a mismatch; any other waits to be told
/// apart, and one that is then not new is recorded with its path.
pub proof fn law_found_name_is_recorded(
    s: WalkModel,
    image: Option<ElfFacts>,
    id: Option<(u64, u64)>,
)
    requires
        sound(s),
        s.stack.len() > 0,
    ensures
        s.stage is Load ==> match image {
            None => s.deps.push((s.name(), ResolutionModel::Path(s.candidate()))).is_prefix_of(
                s.loaded(image).deps,
            ),
            Some(meta) => if s.enforce_arch && !arch_matches(s.arch, meta.is_64) {
                s.deps.push((s.name(), ResolutionModel::ArchMismatch)).is_prefix_of(
                    s.loaded(image).deps,
                )
            } else if s.stack.len() > MAX_DEPTH {
                s.deps.push((s.name(), ResolutionModel::Path(s.candidate()))).is_prefix_of(
                    s.loaded(image).deps,
                )
            } else {
                s.loaded(image) == s.at(StageModel::Identify { path: s.candidate(), meta })
            },
        },
        s.stage matches StageModel::Identify { path, meta } ==> path == s.candidate() && (
        id.is_none() || s.visited.contains(id.unwrap()) ==> s.deps.push(
            (s.name(), ResolutionModel::Path(path)),
        ).is_prefix_of(s.identified(id).deps)),
{
    lemma_returned_extends(s, s.candidate());
    lemma_returned_extends(s.cut(), s.candidate());
    lemma_record_extends(s, ResolutionModel::ArchMismatch);
    lemma_settle_extends(s.record(ResolutionModel::ArchMismatch));
    match s.stage {
        StageModel::Identify { path, meta } => {
            lemma_returned_extends(s, path);
            lemma_returned_extends(s.noted(WarningModel::NoIdentity(path)), path);
        },
        _ => {},
    }
}

/// Each frame above the root's walks the candidate at hand in the frame
/// below it, and when the walk leaves a frame the name that led to it is
/// recorded with that frame's path.
pub proof fn law_left_frame_is_recorded(s: WalkModel, i: int)
    requires
        sound(s),
        0 <= i < s.stack.len() - 1,
    ensures
        s.stack[i + 1].path == candidate_of(s, i),
        i == s.stack.len() - 2 && s.slack() <= 0 ==> s.leave().deps.push(
            (at_hand(s, i), ResolutionModel::Path(s.top().path)),
        ).is_prefix_of(s.settle().deps),
{
    assert(linked(s, i));
    if i == s.stack.len() - 2 && s.slack() <= 0 {
        let below = s.leave();
        let status = ResolutionModel::Path(s.top().path);
        assert(below.top() == s.stack[i]);
        lemma_record_extends(below, status);
        lemma_settle_extends(below.record(status));
    }
}

/// The walk never goes deeper than the limit, and no file gets a frame
/// twice. A file that is found at the limit is noted and not entered.
pub proof fn law_walk_is_bounded(s: WalkModel, meta: ElfFacts)
    requires
        sound(s),
    ensures
        s.stack.len() <= MAX_DEPTH + 1,
        s.visited.no_duplicates(),
        s.stage is Load && s.stack.len() > MAX_DEPTH && (!s.enforce_arch || arch_matches(
            s.arch,
            meta.is_64,
        )) ==> s.loaded(Some(meta)).warnings == s.warnings.push(
            WarningModel::TooDeep(s.candidate()),
        ) && s.loaded(
            Some(meta),
        ).visited == s.visited,
{
    if s.stage is Load && s.stack.len() > MAX_DEPTH {
        let c = s.cut();
        if c.stack.len() > 0 {
            let r = c.record(ResolutionModel::Path(s.candidate()));
            lemma_settle_keeps(r);
        }
    }
}

/// Going on visits no file and notes nothing.
pub proof fn lemma_settle_keeps(s: WalkModel)
    ensures
        s.settle().warnings == s.warnings,
        s.settle().visited == s.visited,
    decreases s.stack.len(), s.slack(),
{
    if s.stack.len() == 0 {
    } else if s.slack() <= 0 {
        let below = s.leave();
        if below.stack.len() > 0 {
            lemma_settle_keeps(below.record(ResolutionModel::Path(s.top().path)));
        }
    } else if s.seen.contains(s.name()) {
        lemma_settle_keeps(s.pass());
    } else {
        let marked = s.mark(s.name());
        if marked.top().search.len() == 0 {
            lemma_settle_keeps(marked.record(ResolutionModel::NotFound));
        }
    }
}

/// The session is in a state that a session can reach: it is well-formed,
/// its walk is sound, no directory stands twice in its search, and once the
/// loader of a musl binary was looked up it stands at the head of the
/// record, under its name.
pub open spec fn session_sound(s: SessionModel) -> bool {
    &&& s.inv()
    &&& s.dirs.no_duplicates()
    &&& s.walk matches Some(w) ==> sound(w) && w.dirs == s.dirs
    &&& s.musl() && s.phase != Phase::Interpreter ==> {
        &&& s.interp.is_some()
        &&& s.first.is_some()
        &&& s.first.unwrap().0 == loader_name(s.interp.unwrap())
        &&& s.met().len() > 0
        &&& s.met()[0] == s.first.unwrap().0
        &&& s.deps().len() > 0
        &&& s.deps()[0] == (s.first.unwrap().0, ResolutionModel::Path(s.first.unwrap().1))
    }
}

/// A file that cannot be read or is no ELF file yields no error but the
/// neutral report: the session is over at once, with an unknown word size,
/// an invalid link type, no dependency, and one warning that says which of
/// the two it was.
pub proof fn law_unreadable_file_reports_nothing(path: Text, config: Config, env: Option<Text>)
    ensures
        SessionModel::start(path, None, config, env).phase == Phase::Done,
        SessionModel::start(path, None, config, env).arch == ElfArch::Unknown,
        SessionModel::start(path, None, config, env).elf_type == ElfType::Invalid,
        SessionModel::start(path, None, config, env).reported().len() == 0,
        SessionModel::start(path, None, config, env).pending() == RequestModel::Done,
        SessionModel::start(path, None, config, env).warnings() == seq![WarningModel::NotElf(path)],
        SessionModel::opened(path, None, config, env).phase == Phase::Done,
        SessionModel::opened(path, None, config, env).arch == ElfArch::Unknown,
        SessionModel::opened(path, None, config, env).elf_type == ElfType::Invalid,
        SessionModel::opened(path, None, config, env).reported().len() == 0,
        SessionModel::opened(path, None, config, env).warnings() == seq![
            WarningModel::Unreadable(path),
        ],
{
    assert(SessionModel::start(path, None, config, env).warnings() =~= seq![
        WarningModel::NotElf(path),
    ]);
    assert(SessionModel::opened(path, None, config, env).warnings() =~= seq![
        WarningModel::Unreadable(path),
    ]);
}

/// A session begins in a state that a session can reach.
pub proof fn law_session_begins_sound(
    path: Text,
    image: Option<ElfFacts>,
    bytes: Option<Seq<u8>>,
    config: Config,
    env: Option<Text>,
)
    ensures
        session_sound(SessionModel::start(path, image, config, env)),
        session_sound(SessionModel::opened(path, bytes, config, env)),
{
}

proof fn lemma_session_walk_begins(s: SessionModel)
    requires
        s.dirs.no_duplicates(),
        s.walk.is_none(),
        s.root.is_some(),
        s.musl() && s.phase != Phase::Interpreter ==> s.first.is_some() && s.interp.is_some()
            && s.first.unwrap().0 == loader_name(s.interp.unwrap()),
        s.phase != Phase::Interpreter,
    ensures
        session_sound(s.begin_walk()),
        session_sound(s.advance()),
{
    law_walk_begins_sound(
        s.path,
        s.root.unwrap(),
        s.arch,
        s.dirs,
        s.config.enforce_arch_match,
        s.first,
    );
}

proof fn lemma_session_walk_step(s: SessionModel, w: WalkModel, t: WalkModel)
    requires
        session_sound(s),
        s.phase == Phase::Walk,
        s.walk == Some(w),
        sound(t),
        extends(w, t),
    ensures
        session_sound(s.walk_step(t)),
{
    if s.musl() {
        assert(w.deps[0] == t.deps.subrange(0, w.deps.len() as int)[0]);
        assert(w.seen[0] == t.seen.subrange(0, w.seen.len() as int)[0]);
    }
}

/// A session stays in the states that a session can reach, whatever the
/// file system answers.
pub proof fn law_session_stays_sound(
    s: SessionModel,
    path: Option<Text>,
    content: Option<Text>,
    files: Option<Seq<Text>>,
    flag: bool,
    id: Option<(u64, u64)>,
    image: Option<ElfFacts>,
)
    requires
        session_sound(s),
    ensures
        session_sound(s.canonicalized(path)),
        session_sound(s.text_read(content)),
        session_sound(s.globbed(files)),
        session_sound(s.dir_checked(flag)),
        session_sound(s.identified(id)),
        session_sound(s.probed(flag)),
        session_sound(s.loaded(image)),
{
    match s.phase {
        Phase::Walk => {
            let w = s.walk.unwrap();
            law_walk_stays_sound(w, id, flag, image);
            law_record_only_grows(w, id, flag, image);
            lemma_session_walk_step(s, w, w.identified(id));
            lemma_session_walk_step(s, w, w.probed(flag));
            lemma_session_walk_step(s, w, w.loaded(image));
        },
        Phase::BinaryDir => {
            let bin = match path {
                Some(p) => p,
                None => s.path,
            };
            let t = SessionModel {
                raw: s.search_list(bin),
                pass: 0,
                dirs: Seq::empty(),
                ..s
            }.at(Phase::FinalPass);
            lemma_session_walk_begins(t);
        },
        Phase::FinalPass => {
            let dir = match path {
                Some(p) => p,
                None => s.raw[s.pass],
            };
            if !s.dirs.contains(dir) {
                assert forall|k: int| 0 <= k < s.dirs.len() implies #[trigger] s.dirs[k] != dir by {
                    if s.dirs[k] == dir {
                        assert(s.dirs.contains(dir));
                    }
                }
            }
            let t = SessionModel {
                dirs: if s.dirs.contains(dir) {
                    s.dirs
                } else {
                    s.dirs.push(dir)
                },
                pass: s.pass + 1,
                ..s
            };
            lemma_session_walk_begins(t);
        },
        _ => {},
    }
}

/// The search of a walk holds no directory twice: the final pass has put
/// each resolved directory there once, where it came first.
pub proof fn law_search_without_repeats(s: SessionModel)
    requires
        session_sound(s),
    ensures
        s.dirs.no_duplicates(),
        s.walk matches Some(w) ==> w.dirs.no_duplicates(),
{
}

/// The record holds a resolution for each of its names: that of the entry
/// of that name, where no name stands in it twice.
proof fn lemma_status_in(deps: Seq<(Text, ResolutionModel)>, k: int)
    requires
        0 <= k < deps.len(),
        forall|i: int, j: int|
            0 <= i < deps.len() && 0 <= j < deps.len() && i != j ==> deps[i].0 != deps[j].0,
    ensures
        status_in(deps, deps[k].0) == Some(deps[k].1),
    decreases k,
{
    if k > 0 {
        let rest = deps.skip(1);
        assert(deps[0].0 != deps[k].0);
        assert forall|i: int, j: int|
            0 <= i < rest.len() && 0 <= j < rest.len() && i != j implies rest[i].0
            != rest[j].0 by {
            assert(rest[i] == deps[i + 1]);
            assert(rest[j] == deps[j + 1]);
        }
        assert(rest[k - 1] == deps[k]);
        lemma_status_in(rest, k - 1);
    }
}

/// The first name met heads the report once the record holds it.
proof fn lemma_in_order_first(seen: Seq<Text>, deps: Seq<(Text, ResolutionModel)>)
    requires
        seen.len() > 0,
        status_in(deps, seen[0]).is_some(),
    ensures
        in_order_met(seen, deps).len() > 0,
        in_order_met(seen, deps)[0] == (seen[0], status_in(deps, seen[0]).unwrap()),
    decreases seen.len(),
{
    if seen.len() > 1 {
        let init = seen.drop_last();
        assert(init[0] == seen[0]);
        lemma_in_order_first(init, deps);
    } else {
        assert(seen.drop_last() =~= Seq::<Text>::empty());
        assert(in_order_met(seen.drop_last(), deps) =~= Seq::empty());
        assert(seen.last() == seen[0]);
    }
}

/// With every name met in the record, the report holds each of them, in
/// the order in which they were met.
proof fn lemma_in_order_all(seen: Seq<Text>, deps: Seq<(Text, ResolutionModel)>)
    requires
        forall|k: int| 0 <= k < seen.len() ==> status_in(deps, #[trigger] seen[k]).is_some(),
    ensures
        in_order_met(seen, deps).len() == seen.len(),
        forall|k: int|
            0 <= k < seen.len() ==> #[trigger] in_order_met(seen, deps)[k] == (
                seen[k],
                status_in(deps, seen[k]).unwrap(),
            ),
    decreases seen.len(),
{
    if seen.len() > 0 {
        let init = seen.drop_last();
        assert forall|k: int| 0 <= k < init.len() implies status_in(
            deps,
            #[trigger] init[k],
        ).is_some() by {
            assert(init[k] == seen[k]);
        }
        lemma_in_order_all(init, deps);
        assert(status_in(deps, seen[seen.len() - 1]).is_some());
        assert forall|k: int| 0 <= k < seen.len() implies #[trigger] in_order_met(seen, deps)[k]
            == (seen[k], status_in(deps, seen[k]).unwrap()) by {
            if k < init.len() {
                assert(in_order_met(init, deps)[k] == (init[k], status_in(deps, init[k]).unwrap()));
                assert(init[k] == seen[k]);
            }
        }
    }
}

/// Once the walk is over, the report holds every name that was met, once
/// and in the order in which the names were met, each with the resolution
/// that was recorded for it: a binary's name stands before the names that
/// its file needs, and those in the order of their declaration.
pub proof fn law_report_in_order_met(s: WalkModel)
    requires
        sound(s),
        s.stage is Done,
    ensures
        in_order_met(s.seen, s.deps).len() == s.seen.len(),
        s.seen.len() == s.deps.len(),
        s.seen.no_duplicates(),
        forall|k: int|
            0 <= k < s.seen.len() ==> (#[trigger] in_order_met(s.seen, s.deps)[k]).0 == s.seen[k],
        forall|k: int|
            0 <= k < s.deps.len() ==> status_in(s.deps, (#[trigger] s.deps[k]).0) == Some(
                s.deps[k].1,
            ),
{
    assert forall|i: int, j: int|
        0 <= i < s.deps.len() && 0 <= j < s.deps.len() && i != j implies s.deps[i].0
        != s.deps[j].0 by {
        assert(names(s)[i] != names(s)[j]);
    }
    assert forall|k: int| 0 <= k < s.deps.len() implies status_in(s.deps, (#[trigger] s.deps[k]).0)
        == Some(s.deps[k].1) by {
        lemma_status_in(s.deps, k);
    }
    assert forall|k: int| 0 <= k < s.seen.len() implies status_in(
        s.deps,
        #[trigger] s.seen[k],
    ).is_some() by {
        assert(s.seen.contains(s.seen[k]));
        assert(names(s).contains(s.seen[k]));
        let i = choose|i: int| 0 <= i < names(s).len() && names(s)[i] == s.seen[k];
        lemma_status_in(s.deps, i);
    }
    lemma_in_order_all(s.seen, s.deps);
    // as many names met as recorded: each list holds the other's items, once
    s.seen.unique_seq_to_set();
    names(s).unique_seq_to_set();
    assert(s.seen.to_set() =~= names(s).to_set()) by {
        assert forall|x: Text| s.seen.to_set().contains(x) <==> names(s).to_set().contains(x) by {
            if names(s).contains(x) {
                let i = choose|i: int| 0 <= i < names(s).len() && names(s)[i] == x;
                assert(s.seen.contains(names(s)[i]));
            }
            if s.seen.contains(x) {
                assert(names(s).contains(x));
            }
        }
    }
}

/// The loader of a musl binary is the first entry of the report: once it
/// was looked up, the report begins with it, under the name that its path
/// ends in.
pub proof fn law_musl_loader_reported_first(s: SessionModel)
    requires
        session_sound(s),
        s.musl(),
        s.phase != Phase::Interpreter,
    ensures
        s.reported().len() > 0,
        s.reported()[0].0 == loader_name(s.interp.unwrap()),
        s.first.is_some(),
        s.reported()[0].1 == ResolutionModel::Path(s.first.unwrap().1),
{
    assert(status_in(s.deps(), s.met()[0]) == Some(s.deps()[0].1));
    lemma_in_order_first(s.met(), s.deps());
}

/// An entry of the record is borne out by the file system: a path that it
/// gives is there and is the name in some directory, and a mismatch is that
/// of a file of the name that is there in some directory.
pub open spec fn borne_out(fs: Files, entry: (Text, ResolutionModel)) -> bool {
    match entry.1 {
        ResolutionModel::Path(p) => (fs.present)(p) && exists|d: Text|
            p == #[trigger] joined(d, entry.0),
        ResolutionModel::ArchMismatch => exists|d: Text|
            (fs.present)(#[trigger] joined(d, entry.0)),
        ResolutionModel::NotFound => true,
    }
}

/// The candidate at hand in frame `i` is there.
pub open spec fn there(fs: Files, s: WalkModel, i: int) -> bool {
    (fs.present)(candidate_of(s, i))
}

/// The entries of the record from `base` on are borne out.
pub open spec fn honest_record(fs: Files, s: WalkModel, base: int) -> bool {
    forall|k: int| base <= k < s.deps.len() ==> borne_out(fs, #[trigger] s.deps[k])
}

/// The candidate at hand in each frame but the last is there.
pub open spec fn honest_frames(fs: Files, s: WalkModel) -> bool {
    forall|i: int| 0 <= i < s.stack.len() - 1 ==> #[trigger] there(fs, s, i)
}

/// The walk agrees with the file system in all that it holds: the entries
/// of its record from `base` on are borne out, each frame above the root's
/// walks a file that is there, and so is the file that is read or told
/// apart. The entries before `base` are those that the walk began with.
pub open spec fn honest(fs: Files, s: WalkModel, base: int) -> bool {
    &&& 0 <= base
    &&& honest_record(fs, s, base)
    &&& honest_frames(fs, s)
    &&& (s.stage is Load || s.stage is Identify) && s.stack.len() > 0 ==> (fs.present)(
        s.candidate(),
    )
}

proof fn lemma_record_honest(fs: Files, s: WalkModel, status: ResolutionModel, base: int)
    requires
        s.stack.len() > 0,
        0 <= base,
        honest_record(fs, s, base),
        honest_frames(fs, s),
        borne_out(fs, (s.name(), status)),
    ensures
        honest_record(fs, s.record(status), base),
        honest_frames(fs, s.record(status)),
{
    let t = s.record(status);
    assert(t.deps =~= s.deps.push((s.name(), status)));
    assert forall|k: int| base <= k < t.deps.len() implies borne_out(fs, #[trigger] t.deps[k]) by {
        if k < s.deps.len() {
            assert(t.deps[k] == s.deps[k]);
        }
    }
    assert forall|i: int| 0 <= i < t.stack.len() - 1 implies #[trigger] there(fs, t, i) by {
        assert(t.stack[i] == s.stack[i]);
        assert(there(fs, s, i));
    }
}

proof fn lemma_same_honest(fs: Files, s: WalkModel, t: WalkModel, base: int)
    requires
        honest_record(fs, s, base),
        honest_frames(fs, s),
        t.deps == s.deps,
        t.stack.len() == s.stack.len(),
        forall|i: int| 0 <= i < s.stack.len() - 1 ==> #[trigger] t.stack[i] == s.stack[i],
    ensures
        honest_record(fs, t, base),
        honest_frames(fs, t),
{
    assert forall|i: int| 0 <= i < t.stack.len() - 1 implies #[trigger] there(fs, t, i) by {
        assert(t.stack[i] == s.stack[i]);
        assert(there(fs, s, i));
    }
}

proof fn lemma_settle_honest(fs: Files, s: WalkModel, base: int)
    requires
        tidy(s, false),
        0 <= base,
        honest_record(fs, s, base),
        honest_frames(fs, s),
    ensures
        honest(fs, s.settle(), base),
    decreases s.stack.len(), s.slack(),
{
    lemma_settle_shaped(s);
    if s.stack.len() == 0 {
        lemma_same_honest(fs, s, s.at(StageModel::Done), base);
    } else if s.slack() <= 0 {
        let below = s.leave();
        lemma_leave_tidy(s);
        assert forall|i: int| 0 <= i < below.stack.len() - 1 implies #[trigger] there(
            fs,
            below,
            i,
        ) by {
            assert(below.stack[i] == s.stack[i]);
            assert(there(fs, s, i));
        }
        if below.stack.len() > 0 {
            let i = s.stack.len() - 2;
            let status = ResolutionModel::Path(s.top().path);
            assert(linked(s, i));
            assert(there(fs, s, i));
            assert(below.top() == s.stack[i]);
            assert(s.top() == s.stack[i + 1]);
            let d = s.stack[i].search[s.stack[i].probe];
            let entry = (below.name(), status);
            assert(s.top().path == joined(d, entry.0));
            assert((fs.present)(s.top().path));
            assert(borne_out(fs, entry));
            lemma_record_tidy(below, status);
            lemma_record_honest(fs, below, status, base);
            lemma_settle_honest(fs, below.record(status), base);
        } else {
            lemma_same_honest(fs, below, below.at(StageModel::Done), base);
        }
    } else if s.seen.contains(s.name()) {
        lemma_skip_tidy(s);
        let t = s.pass();
        assert forall|i: int| 0 <= i < s.stack.len() - 1 implies #[trigger] t.stack[i]
            == s.stack[i] by {}
        lemma_same_honest(fs, s, t, base);
        lemma_settle_honest(fs, t, base);
    } else {
        let marked = s.mark(s.name());
        lemma_mark_tidy(s);
        lemma_same_honest(fs, s, marked, base);
        if marked.top().search.len() == 0 {
            lemma_record_tidy(marked, ResolutionModel::NotFound);
            lemma_record_honest(fs, marked, ResolutionModel::NotFound, base);
            lemma_settle_honest(fs, marked.record(ResolutionModel::NotFound), base);
        } else {
            lemma_same_honest(fs, marked, marked.at(StageModel::Probe), base);
        }
    }
}

proof fn lemma_returned_honest(fs: Files, s: WalkModel, path: Text, base: int)
    requires
        tidy(s, true),
        0 <= base,
        honest_record(fs, s, base),
        honest_frames(fs, s),
        s.stack.len() > 0 ==> path == s.candidate() && (fs.present)(path),
    ensures
        honest(fs, s.returned(path), base),
{
    lemma_returned_shaped(s, path);
    if s.stack.len() > 0 {
        let status = ResolutionModel::Path(path);
        let d = s.top().search[s.top().probe];
        let entry = (s.name(), status);
        assert(path == joined(d, entry.0));
        assert(borne_out(fs, entry));
        lemma_record_tidy(s, status);
        lemma_record_honest(fs, s, status, base);
        lemma_settle_honest(fs, s.record(status), base);
    } else {
        lemma_same_honest(fs, s, s.at(StageModel::Done), base);
    }
}

/// A walk begins in agreement with every file system: the entries that it
/// begins with stand before `base`.
pub proof fn law_walk_begins_honest(
    fs: Files,
    path: Text,
    meta: ElfFacts,
    arch: ElfArch,
    dirs: Seq<Text>,
    enforce_arch: bool,
    first: Option<(Text, Text)>,
)
    ensures
        honest(
            fs,
            WalkModel::start(path, meta, arch, dirs, enforce_arch, first),
            WalkModel::start(path, meta, arch, dirs, enforce_arch, first).deps.len() as int,
        ),
{
}

/// A walk stays in agreement with the file system that answers it: after
/// each answer, every path in the record is one that the file system said
/// was there, and every mismatch is that of such a file.
pub proof fn law_records_are_borne_out(fs: Files, s: WalkModel, base: int)
    requires
        sound(s),
        honest(fs, s, base),
    ensures
        sound(answer(fs, s)),
        honest(fs, answer(fs, s), base),
{
    law_walk_stays_sound(
        s,
        (fs.identity)(s.stage->path),
        (fs.present)(s.candidate()),
        (fs.image)(s.candidate()),
    );
    let last = s.stack.len() - 1;
    match s.stage {
        StageModel::Identify { path, meta } => {
            let id = (fs.identity)(path);
            if id.is_some() && !s.visited.contains(id.unwrap()) {
                let f = frame_of(path, meta, s.dirs);
                let opened = s.opened(id.unwrap(), f);
                lemma_open_tidy(s, id.unwrap(), f);
                assert forall|i: int| 0 <= i < opened.stack.len() - 1 implies #[trigger] there(
                    fs,
                    opened,
                    i,
                ) by {
                    assert(opened.stack[i] == s.stack[i]);
                    if i < last {
                        assert(there(fs, s, i));
                    } else {
                        assert(s.stack[i] == s.top());
                    }
                }
                lemma_settle_honest(fs, opened, base);
            } else if id.is_none() {
                let n = s.noted(WarningModel::NoIdentity(path));
                lemma_tidy_same(s, n, true);
                lemma_same_honest(fs, s, n, base);
                lemma_returned_honest(fs, n, path, base);
            } else {
                lemma_returned_honest(fs, s, path, base);
            }
        },
        StageModel::Probe => {
            if (fs.present)(s.candidate()) {
                lemma_same_honest(fs, s, s.at(StageModel::Load), base);
            } else if s.top().probe + 1 < s.top().search.len() {
                let t = s.probed(false);
                assert forall|i: int| 0 <= i < s.stack.len() - 1 implies #[trigger] t.stack[i]
                    == s.stack[i] by {}
                lemma_same_honest(fs, s, t, base);
            } else {
                lemma_record_tidy(s, ResolutionModel::NotFound);
                lemma_record_honest(fs, s, ResolutionModel::NotFound, base);
                lemma_settle_honest(fs, s.record(ResolutionModel::NotFound), base);
            }
        },
        StageModel::Load => {
            let c = s.candidate();
            let d = s.top().search[s.top().probe];
            assert(c == joined(d, s.name()));
            assert((fs.present)(joined(d, s.name())));
            match (fs.image)(c) {
                None => {
                    lemma_returned_honest(fs, s, c, base);
                },
                Some(meta) => {
                    if s.enforce_arch && !arch_matches(s.arch, meta.is_64) {
                        let entry = (s.name(), ResolutionModel::ArchMismatch);
                        assert((fs.present)(joined(d, entry.0)));
                        assert(borne_out(fs, entry));
                        lemma_record_tidy(s, ResolutionModel::ArchMismatch);
                        lemma_record_honest(fs, s, ResolutionModel::ArchMismatch, base);
                        lemma_settle_honest(fs, s.record(ResolutionModel::ArchMismatch), base);
                    } else if s.stack.len() > MAX_DEPTH {
                        lemma_tidy_same(s, s.cut(), true);
                        lemma_same_honest(fs, s, s.cut(), base);
                        lemma_returned_honest(fs, s.cut(), c, base);
                    } else {
                        lemma_same_honest(
                            fs,
                            s,
                            s.at(StageModel::Identify { path: c, meta }),
                            base,
                        );
                    }
                },
            }
        },
        StageModel::Done => {},
    }
}

/// The same over a whole run: whatever the number of answers, the walk is
/// sound and agrees with the file system that gave them.
pub proof fn law_run_is_borne_out(fs: Files, s: WalkModel, base: int, n: nat)
    requires
        sound(s),
        honest(fs, s, base),
    ensures
        sound(run(fs, s, n)),
        honest(fs, run(fs, s, n), base),
    decreases n,
{
    if n > 0 {
        law_records_are_borne_out(fs, s, base);
        law_run_is_borne_out(fs, answer(fs, s), base, (n - 1) as nat);
    }
}

/// A name that is in no directory at all is never recorded as found: in a
/// walk that agrees with the file system, every entry of that name is `not
/// found`. There is at most one, as no name is recorded twice, whatever the
/// number of binaries that declare it.
pub proof fn law_name_that_is_nowhere_is_not_found(
    fs: Files,
    s: WalkModel,
    base: int,
    name: Text,
    k: int,
)
    requires
        sound(s),
        honest(fs, s, base),
        forall|d: Text| !(fs.present)(#[trigger] joined(d, name)),
        base <= k < s.deps.len(),
        s.deps[k].0 == name,
    ensures
        s.deps[k].1 == ResolutionModel::NotFound,
        forall|j: int| 0 <= j < s.deps.len() && j != k ==> (#[trigger] s.deps[j]).0 != name,
{
    assert(borne_out(fs, s.deps[k]));
    assert forall|j: int| 0 <= j < s.deps.len() && j != k implies (#[trigger] s.deps[j]).0
        != name by {
        assert(names(s)[j] != names(s)[k]);
    }
}

/// A name that is recorded with a path is recorded with a file that the
/// file system said was there and that has that name in some directory.
pub proof fn law_recorded_path_is_there(fs: Files, s: WalkModel, base: int, k: int)
    requires
        honest(fs, s, base),
        base <= k < s.deps.len(),
        s.deps[k].1 is Path,
    ensures
        (fs.present)(s.deps[k].1->Path_0),
        exists|d: Text| s.deps[k].1->Path_0 == #[trigger] joined(d, s.deps[k].0),
{
    assert(borne_out(fs, s.deps[k]));
}

} // verus!
