//! What the library asks of the file system. The library touches no file
//! itself: it names what it needs to know next, and the caller answers.

use crate::text::Text;
use vstd::prelude::*;

verus! {

/// A question to the file system.
#[derive(Debug, Clone, PartialEq, Eq)]
pub enum Request {
    /// The path, with every symbolic link in it followed.
    Canonicalize(String),
    /// The text of the file at the path.
    ReadText(String),
    /// The regular files that match the pattern.
    Glob(String),
    /// Whether the path names a directory that is there.
    IsDir(String),
    /// The device and inode of the file at the path.
    Identify(String),
    /// Whether something is there at the path.
    Exists(String),
    /// The bytes of the file at the path.
    Load(String),
    /// Nothing more: the work is over.
    Done,
}

/// A `Request` as the contracts see it.
pub enum RequestModel {
    Canonicalize(Text),
    ReadText(Text),
    Glob(Text),
    IsDir(Text),
    Identify(Text),
    Exists(Text),
    Load(Text),
    Done,
}

impl View for Request {
    type V = RequestModel;

    open spec fn view(&self) -> RequestModel {
        match self {
            Request::Canonicalize(p) => RequestModel::Canonicalize(p@),
            Request::ReadText(p) => RequestModel::ReadText(p@),
            Request::Glob(p) => RequestModel::Glob(p@),
            Request::IsDir(p) => RequestModel::IsDir(p@),
            Request::Identify(p) => RequestModel::Identify(p@),
            Request::Exists(p) => RequestModel::Exists(p@),
            Request::Load(p) => RequestModel::Load(p@),
            Request::Done => RequestModel::Done,
        }
    }
}

} // verus!
