//! What a resolution notes on its way: the failures that it passes over
//! without giving up.

use crate::text::Text;
use vstd::prelude::*;

verus! {

/// Something that a resolution passed over.
#[derive(Debug, Clone, PartialEq, Eq)]
pub enum Warning {
    /// The file at this path could not be read.
    Unreadable(String),
    /// The file at this path is no ELF file.
    NotElf(String),
    /// This pattern of an `include` line is malformed.
    MalformedPattern(String),
    /// This pattern of an `include` line was dropped: the configuration had
    /// expanded as many patterns as it may.
    IncludeLimit(String),
    /// The file at this path has no identity to give.
    NoIdentity(String),
    /// The file at this path lies below the depth limit and was not entered.
    TooDeep(String),
}

/// A `Warning` as the contracts see it.
pub enum WarningModel {
    Unreadable(Text),
    NotElf(Text),
    MalformedPattern(Text),
    IncludeLimit(Text),
    NoIdentity(Text),
    TooDeep(Text),
}

impl View for Warning {
    type V = WarningModel;

    open spec fn view(&self) -> WarningModel {
        match self {
            Warning::Unreadable(p) => WarningModel::Unreadable(p@),
            Warning::NotElf(p) => WarningModel::NotElf(p@),
            Warning::MalformedPattern(p) => WarningModel::MalformedPattern(p@),
            Warning::IncludeLimit(p) => WarningModel::IncludeLimit(p@),
            Warning::NoIdentity(p) => WarningModel::NoIdentity(p@),
            Warning::TooDeep(p) => WarningModel::TooDeep(p@),
        }
    }
}

/// The views of a list of warnings, in order.
pub open spec fn warnings_of(v: Seq<Warning>) -> Seq<WarningModel> {
    Seq::new(v.len(), |i: int| v[i]@)
}

/// The views of a list with one more warning.
pub proof fn lemma_warnings_push(v: Seq<Warning>, w: Warning)
    ensures
        warnings_of(v.push(w)) == warnings_of(v).push(w@),
{
    assert(warnings_of(v.push(w)) =~= warnings_of(v).push(w@));
}

/// A copy of a warning.
pub fn copy_warning(w: &Warning) -> (r: Warning)
    ensures
        r@ == w@,
{
    match w {
        Warning::Unreadable(p) => Warning::Unreadable(p.clone()),
        Warning::NotElf(p) => Warning::NotElf(p.clone()),
        Warning::MalformedPattern(p) => Warning::MalformedPattern(p.clone()),
        Warning::IncludeLimit(p) => Warning::IncludeLimit(p.clone()),
        Warning::NoIdentity(p) => Warning::NoIdentity(p.clone()),
        Warning::TooDeep(p) => Warning::TooDeep(p.clone()),
    }
}

/// Puts copies of the warnings of `src` at the end of `dst`.
pub fn extend_warnings(dst: &mut Vec<Warning>, src: &Vec<Warning>)
    ensures
        warnings_of(final(dst)@) == warnings_of(old(dst)@) + warnings_of(src@),
{
    let mut i: usize = 0;
    assert(warnings_of(dst@) + warnings_of(src@).take(0) =~= warnings_of(dst@));
    while i < src.len()
        invariant
            i <= src.len(),
            warnings_of(dst@) == warnings_of(old(dst)@) + warnings_of(src@).take(i as int),
        decreases src.len() - i,
    {
        let w = copy_warning(&src[i]);
        proof {
            lemma_warnings_push(dst@, w);
            assert((warnings_of(old(dst)@) + warnings_of(src@).take(i as int)).push(w@)
                =~= warnings_of(old(dst)@) + warnings_of(src@).take(i + 1));
        }
        dst.push(w);
        i += 1;
    }
    assert(warnings_of(src@).take(src.len() as int) =~= warnings_of(src@));
}

} // verus!
