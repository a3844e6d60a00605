//! Paths of manifests and of the directories they stand in: text, with `/`
//! between the components.
//!
//! A reference to a manifest is the path of a directory or of a manifest
//! file, as a dependency's `path` field gives it: relative to the directory
//! of the manifest that holds the field, not to the working directory.

use vstd::prelude::*;
use vstd::string::StringExecFns;

verus! {

/// The name of the manifest file of a package directory.
pub open spec fn manifest_name() -> Seq<char> {
    "Cargo.toml"@
}

/// The position of the last `/` in `path`, or -1 if it has none.
pub open spec fn last_separator(path: Seq<char>) -> int
    decreases path.len(),
{
    if path.len() == 0 {
        -1
    } else if path.last() == '/' {
        path.len() - 1
    } else {
        last_separator(path.drop_last())
    }
}

/// The directory that `path` stands in: what comes before its last `/`, or
/// that `/` alone where nothing comes before it. A path without `/` stands
/// in the directory with the empty name.
pub open spec fn directory(path: Seq<char>) -> Seq<char> {
    let at = last_separator(path);
    if at < 0 {
        Seq::empty()
    } else if at == 0 {
        path.take(1)
    } else {
        path.take(at)
    }
}

/// `rel` as seen from the directory `dir`: `rel` itself where it starts at
/// the root or `dir` has the empty name, else `dir`, one `/` between the
/// two, and `rel`.
pub open spec fn joined(dir: Seq<char>, rel: Seq<char>) -> Seq<char> {
    if rel.len() > 0 && rel[0] == '/' {
        rel
    } else if dir.len() == 0 {
        rel
    } else if dir.last() == '/' {
        dir + rel
    } else {
        dir + seq!['/'] + rel
    }
}

/// The reference that the `path` field `rel` of the manifest at `current`
/// stands for.
pub open spec fn reference(current: Seq<char>, rel: Seq<char>) -> Seq<char> {
    joined(directory(current), rel)
}

/// The manifest file that the reference `raw` stands for: the manifest in
/// it where it is a directory, else the reference itself.
pub open spec fn manifest_file(raw: Seq<char>, is_dir: bool) -> Seq<char> {
    if is_dir {
        joined(raw, manifest_name())
    } else {
        raw
    }
}

/// The position of the last `/` lies in the path, and nothing after it is
/// a `/`.
pub proof fn lemma_last_separator(path: Seq<char>)
    ensures
        -1 <= last_separator(path) < path.len(),
        last_separator(path) >= 0 ==> path[last_separator(path)] == '/',
        forall|i: int| last_separator(path) < i < path.len() ==> path[i] != '/',
    decreases path.len(),
{
    if path.len() > 0 && path.last() != '/' {
        let rest = path.drop_last();
        lemma_last_separator(rest);
        assert forall|i: int| last_separator(path) < i < path.len() implies path[i] != '/' by {
            if i < rest.len() {
                assert(path[i] == rest[i]);
            }
        }
    }
}

/// The directory that the manifest or directory at `path` stands in.
pub fn directory_of(path: &str) -> (dir: String)
    ensures
        dir@ == directory(path@),
{
    let n: usize = path.unicode_len();
    let mut i: usize = n;
    assert(path@.take(n as int) =~= path@);
    while i > 0
        invariant
            i <= n,
            n == path@.len(),
            last_separator(path@) == last_separator(path@.take(i as int)),
        decreases i,
    {
        if path.get_char(i - 1) == '/' {
            assert(path@.take(i as int).last() == '/');
            let end: usize = if i == 1 {
                1
            } else {
                i - 1
            };
            return path.substring_char(0, end).to_owned();
        }
        assert(path@.take(i as int).drop_last() =~= path@.take(i - 1));
        i -= 1;
    }
    assert(path@.take(0).len() == 0);
    String::new()
}

/// `rel` as seen from the directory `dir`.
pub fn join(dir: &str, rel: &str) -> (path: String)
    ensures
        path@ == joined(dir@, rel@),
{
    let dn: usize = dir.unicode_len();
    let rn: usize = rel.unicode_len();
    if rn > 0 && rel.get_char(0) == '/' {
        return rel.to_owned();
    }
    if dn == 0 {
        return rel.to_owned();
    }
    let mut path: String = dir.to_owned();
    if dir.get_char(dn - 1) != '/' {
        proof {
            reveal_strlit("/");
        }
        path.append("/");
        assert(path@ =~= dir@ + seq!['/']);
    }
    path.append(rel);
    path
}

/// The reference that the `path` field `rel` of the manifest at `current`
/// stands for: `rel` as seen from the directory of that manifest, wherever
/// the process itself runs.
pub fn reference_from(current: &str, rel: &str) -> (raw: String)
    ensures
        raw@ == reference(current@, rel@),
{
    let dir: String = directory_of(current);
    join(dir.as_str(), rel)
}

/// The path of the manifest file that the reference `raw` stands for, given
/// whether `raw` is a directory. This path is what gets resolved to the
/// identity of the manifest.
pub fn manifest_path(raw: &str, is_dir: bool) -> (file: String)
    ensures
        file@ == manifest_file(raw@, is_dir),
{
    if is_dir {
        join(raw, "Cargo.toml")
    } else {
        raw.to_owned()
    }
}

} // verus!
