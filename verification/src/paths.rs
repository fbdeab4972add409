//! File paths as text: joining a directory and a name, the containing
//! directory, the final component, and the `$ORIGIN` token of run-time
//! search paths.
//!
//! A path is read by its `/` separators alone. Components `.` and `..` are
//! kept as they stand; nothing here looks at the file system.

use crate::text::{chars_of, starts_with, Text};
use vstd::prelude::*;

verus! {

/// `s` without the `/` characters at its end.
pub open spec fn strip_slashes(s: Text) -> Text
    decreases s.len(),
{
    if s.len() > 0 && s.last() == '/' {
        strip_slashes(s.drop_last())
    } else {
        s
    }
}

/// The index of the last `/` in `s`, or -1 when it holds none.
pub open spec fn last_slash(s: Text) -> int
    decreases s.len(),
{
    if s.len() == 0 {
        -1
    } else if s.last() == '/' {
        s.len() - 1
    } else {
        last_slash(s.drop_last())
    }
}

/// The text after the last `/` of `path`, once the `/` at its end are
/// dropped: the name of the file or directory that the path ends in. There
/// is none where nothing is left, or where the path ends in `.` or `..`.
pub open spec fn file_name_of(path: Text) -> Option<Text> {
    let t = strip_slashes(path);
    let name = t.skip(last_slash(t) + 1);
    if name.len() == 0 || name == seq!['.'] || name == seq!['.', '.'] {
        None
    } else {
        Some(name)
    }
}

/// The directory that holds the last component of `path`: the text before
/// the last `/`, without the `/` at its end. It is `/` for a path directly
/// under the root and empty for a single relative component. The root and
/// the empty path have none.
pub open spec fn parent_of(path: Text) -> Option<Text> {
    let t = strip_slashes(path);
    if t.len() == 0 {
        None
    } else {
        let i = last_slash(t);
        if i < 0 {
            Some(Seq::empty())
        } else {
            let d = strip_slashes(t.take(i));
            if d.len() == 0 {
                Some(seq!['/'])
            } else {
                Some(d)
            }
        }
    }
}

/// The path of `name` inside `dir`. An absolute `name` stands for itself;
/// otherwise one `/` separates the two unless `dir` is empty or already
/// ends in one.
pub open spec fn joined(dir: Text, name: Text) -> Text {
    if name.len() > 0 && name[0] == '/' {
        name
    } else if dir.len() == 0 || dir.last() == '/' {
        dir + name
    } else {
        dir + seq!['/'] + name
    }
}

/// The token that stands for the directory of the binary that declares a
/// run-time search path.
pub open spec fn origin_token() -> Text {
    seq!['$', 'O', 'R', 'I', 'G', 'I', 'N']
}

/// The directory that `$ORIGIN` stands for in the entries of the binary at
/// `bin`: its containing directory, or the root where it has none.
pub open spec fn origin_dir(bin: Text) -> Text {
    match parent_of(bin) {
        Some(d) => d,
        None => seq!['/'],
    }
}

/// A directory with the rest of an entry put behind it. Where the
/// directory ends in `/` and the rest begins with one, as it does for the
/// root, the two share it.
pub open spec fn continued(dir: Text, rest: Text) -> Text {
    if dir.len() > 0 && dir.last() == '/' && rest.len() > 0 && rest[0] == '/' {
        dir + rest.skip(1)
    } else {
        dir + rest
    }
}

/// A run-time search path entry of the binary at `bin`, with a leading
/// `$ORIGIN` replaced by that binary's directory. Any other entry names a
/// directory as it stands.
pub open spec fn origin_resolved(bin: Text, entry: Text) -> Text {
    if origin_token().is_prefix_of(entry) {
        continued(origin_dir(bin), entry.skip(7))
    } else {
        entry
    }
}

/// The length of `v[..n]` once the `/` at its end are dropped.
fn stripped_len(v: &Vec<char>, n: usize) -> (e: usize)
    requires
        n <= v.len(),
    ensures
        e <= n,
        strip_slashes(v@.take(n as int)) == v@.take(e as int),
{
    let mut e: usize = n;
    while e > 0 && v[e - 1] == '/'
        invariant
            e <= n <= v.len(),
            strip_slashes(v@.take(n as int)) == strip_slashes(v@.take(e as int)),
        decreases e,
    {
        assert(v@.take(e as int).drop_last() =~= v@.take(e - 1));
        e -= 1;
    }
    e
}

/// The index of the last `/` in `v[..n]`.
fn last_slash_in(v: &Vec<char>, n: usize) -> (r: Option<usize>)
    requires
        n <= v.len(),
    ensures
        match r {
            Some(i) => i < n && last_slash(v@.take(n as int)) == i,
            None => last_slash(v@.take(n as int)) == -1,
        },
{
    let mut k: usize = n;
    while k > 0 && v[k - 1] != '/'
        invariant
            k <= n <= v.len(),
            last_slash(v@.take(n as int)) == last_slash(v@.take(k as int)),
        decreases k,
    {
        assert(v@.take(k as int).drop_last() =~= v@.take(k - 1));
        k -= 1;
    }
    if k == 0 {
        None
    } else {
        Some(k - 1)
    }
}

/// The name that `path` ends in.
pub fn file_name(path: &str) -> (r: Option<String>)
    ensures
        match r {
            Some(name) => file_name_of(path@) == Some(name@),
            None => file_name_of(path@).is_none(),
        },
{
    let v = chars_of(path);
    assert(v@.take(v.len() as int) =~= v@);
    let e = stripped_len(&v, v.len());
    let from: usize = match last_slash_in(&v, e) {
        Some(i) => i + 1,
        None => 0,
    };
    assert(v@.take(e as int).skip(from as int) =~= v@.subrange(from as int, e as int));
    let n: usize = e - from;
    if n == 0 || (n == 1 && v[from] == '.') || (n == 2 && v[from] == '.' && v[from + 1] == '.') {
        proof {
            let name = v@.subrange(from as int, e as int);
            if n == 1 {
                assert(name =~= seq!['.']);
            }
            if n == 2 {
                assert(name =~= seq!['.', '.']);
            }
        }
        None
    } else {
        proof {
            let name = v@.subrange(from as int, e as int);
            if n == 1 {
                assert(name[0] != seq!['.'][0]);
            }
            if n == 2 {
                assert(name[0] != seq!['.', '.'][0] || name[1] != seq!['.', '.'][1]);
            }
        }
        Some(String::from_str(path.substring_char(from, e)))
    }
}

/// The directory that holds the last component of `path`.
pub fn parent(path: &str) -> (r: Option<String>)
    ensures
        match r {
            Some(dir) => parent_of(path@) == Some(dir@),
            None => parent_of(path@).is_none(),
        },
{
    let v = chars_of(path);
    assert(v@.take(v.len() as int) =~= v@);
    let e = stripped_len(&v, v.len());
    if e == 0 {
        return None;
    }
    match last_slash_in(&v, e) {
        None => Some(String::new()),
        Some(i) => {
            assert(v@.take(e as int).take(i as int) =~= v@.take(i as int));
            let d = stripped_len(&v, i);
            if d == 0 {
                proof {
                    reveal_strlit("/");
                    assert("/"@ =~= seq!['/']);
                }
                Some(String::from_str("/"))
            } else {
                assert(v@.take(d as int) =~= path@.subrange(0, d as int));
                Some(String::from_str(path.substring_char(0, d)))
            }
        },
    }
}

/// The path of `name` inside `dir`.
pub fn join(dir: &str, name: &str) -> (r: String)
    ensures
        r@ == joined(dir@, name@),
{
    let n = name.unicode_len();
    if n > 0 && name.get_char(0) == '/' {
        return String::from_str(name);
    }
    let d = dir.unicode_len();
    let mut out = String::from_str(dir);
    if d > 0 && dir.get_char(d - 1) != '/' {
        proof {
            reveal_strlit("/");
            assert("/"@ =~= seq!['/']);
        }
        out.append("/");
    }
    out.append(name);
    out
}

/// A run-time search path entry of the binary at `bin_path`, with a leading
/// `$ORIGIN` replaced by that binary's directory.
pub fn resolve_origin(bin_path: &str, entry: &str) -> (r: String)
    ensures
        r@ == origin_resolved(bin_path@, entry@),
{
    proof {
        reveal_strlit("$ORIGIN");
        assert("$ORIGIN"@ =~= origin_token());
    }
    if starts_with(entry, "$ORIGIN") {
        let mut out = match parent(bin_path) {
            Some(dir) => dir,
            None => {
                proof {
                    reveal_strlit("/");
                    assert("/"@ =~= seq!['/']);
                }
                String::from_str("/")
            },
        };
        let n = entry.unicode_len();
        assert(entry@.subrange(7, n as int) =~= entry@.skip(7));
        let d = out.as_str().unicode_len();
        if d > 0 && n > 7 && out.as_str().get_char(d - 1) == '/' && entry.get_char(7) == '/' {
            assert(entry@.subrange(8, n as int) =~= entry@.skip(7).skip(1));
            out.append(entry.substring_char(8, n));
        } else {
            out.append(entry.substring_char(7, n));
        }
        out
    } else {
        String::from_str(entry)
    }
}

} // verus!
