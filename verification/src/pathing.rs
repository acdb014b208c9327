//! Path strings and the file tree.
//!
//! The browsed directory is kept as a plain `/`-separated string that always
//! ends with a separator.  These functions derive from such strings what the
//! file tree shows: the parent step, display names for files and
//! directories, the dirs-first ordering, and the glob pattern used to list a
//! directory.  Whether a path exists on disk, or is a file or a directory,
//! is the listing collaborator's knowledge and comes in as plain booleans.

use vstd::prelude::*;
use vstd::string::{StrSliceExecFns, StringExecFns};

use crate::text::push_char;

verus! {

/// The error of the glob-pattern builder: the path names nothing on disk.
#[derive(Clone, Copy, PartialEq, Eq, Structural, Debug)]
pub enum PathError {
    NotFound,
}

/// One row of the file tree.
#[derive(Debug)]
pub struct FileTreeEntry {
    pub title: String,
    pub checked: bool,
    pub is_dir: bool,
    pub full_path: String,
}

/// `s` with `c` appended, unless `s` ends with `c` already.
pub open spec fn maybe_added(s: Seq<char>, c: char) -> Seq<char> {
    if s.len() > 0 && s.last() == c {
        s
    } else {
        s.push(c)
    }
}

/// `s` without a single trailing separator.
pub open spec fn strip_trailing(s: Seq<char>) -> Seq<char> {
    if s.len() > 0 && s.last() == '/' {
        s.drop_last()
    } else {
        s
    }
}

/// The index of the last separator in `s`, or -1 when there is none.
pub open spec fn last_sep(s: Seq<char>) -> int
    decreases s.len(),
{
    if s.len() == 0 {
        -1
    } else if s.last() == '/' {
        s.len() - 1
    } else {
        last_sep(s.drop_last())
    }
}

/// What `last_sep` finds is the last separator: it is a separator, and no
/// later position holds one.
proof fn lemma_last_sep_props(s: Seq<char>)
    ensures
        -1 <= last_sep(s) < s.len(),
        last_sep(s) >= 0 ==> s[last_sep(s)] == '/',
        forall|k: int| last_sep(s) < k < s.len() ==> s[k] != '/',
    decreases s.len(),
{
    if s.len() > 0 && s.last() != '/' {
        lemma_last_sep_props(s.drop_last());
        assert forall|k: int| last_sep(s) < k < s.len() implies s[k] != '/' by {
            if k < s.len() - 1 {
                assert(s[k] == s.drop_last()[k]);
            }
        }
    }
}

/// The parent of a path string: everything before the last separator, a
/// single trailing separator ignored.  A bare name's parent is the empty
/// path; a path with nothing left after stripping — the root or the empty
/// path — has no parent and stays as it is.
pub open spec fn parent_path(s: Seq<char>) -> Seq<char> {
    let t = strip_trailing(s);
    if t.len() == 0 {
        s
    } else if last_sep(t) >= 0 {
        t.take(last_sep(t))
    } else {
        Seq::empty()
    }
}

/// The file-name part of a path string: everything after the last
/// separator, a single trailing separator ignored.
pub open spec fn file_name_of(s: Seq<char>) -> Seq<char> {
    let t = strip_trailing(s);
    if last_sep(t) >= 0 {
        t.skip(last_sep(t) + 1)
    } else {
        t
    }
}

/// A directory's display name: `"> "`, the name, `"/"`.
pub open spec fn dir_name_spec(s: Seq<char>) -> Seq<char> {
    "> "@ + file_name_of(s) + "/"@
}

/// What the file tree displays for a path.
pub open spec fn entry_name_of(s: Seq<char>, is_dir: bool) -> Seq<char> {
    if is_dir {
        dir_name_spec(s)
    } else {
        file_name_of(s)
    }
}

/// The glob pattern that lists a directory: the path — for a file, its
/// parent — with `/` and `*` appended where missing.
pub open spec fn glob_pattern_of(s: Seq<char>, is_file: bool) -> Seq<char> {
    let base = if is_file {
        parent_path(s)
    } else {
        s
    };
    maybe_added(maybe_added(base, '/'), '*')
}

/// Appends `character` unless the string ends with it already.
pub fn maybe_add_character(string: String, character: char) -> (r: String)
    ensures
        r@ == maybe_added(string@, character),
{
    let n = string.as_str().unicode_len();
    if n > 0 {
        let last = string.as_str().get_char(n - 1);
        if last == character {
            return string;
        }
    }
    let mut s = string;
    push_char(&mut s, character);
    s
}

/// Normalizes the browsed path: it ends with a separator afterwards.
pub fn update_path(path: String) -> (r: String)
    ensures
        r@ == maybe_added(path@, '/'),
{
    maybe_add_character(path, '/')
}

/// Finds the position of the last separator strictly before `end`.
fn rfind_sep(s: &str, end: usize) -> (r: Option<usize>)
    requires
        end <= s@.len(),
    ensures
        match r {
            Some(i) => i < end && last_sep(s@.take(end as int)) == i,
            None => last_sep(s@.take(end as int)) == -1,
        },
{
    let ghost t = s@.take(end as int);
    proof {
        lemma_last_sep_props(t);
    }
    let mut i: usize = end;
    while i > 0
        invariant
            i <= end <= s@.len(),
            t == s@.take(end as int),
            forall|k: int| i <= k < end ==> s@[k] != '/',
        decreases i,
    {
        let c = s.get_char(i - 1);
        if c == '/' {
            proof {
                lemma_last_sep_props(t);
                assert(t[i - 1] == '/');
                assert forall|k: int| i - 1 < k < t.len() implies t[k] != '/' by {
                    assert(t[k] == s@[k]);
                }
                if last_sep(t) > i - 1 {
                    assert(t[last_sep(t)] == '/');
                }
                if last_sep(t) < i - 1 {
                    assert(t[i - 1] != '/');
                }
            }
            return Some(i - 1);
        }
        i = i - 1;
    }
    proof {
        lemma_last_sep_props(t);
        if last_sep(t) >= 0 {
            assert(t[last_sep(t)] == '/');
            assert(s@[last_sep(t)] != '/');
        }
    }
    None
}

/// The length of the path with a single trailing separator stripped.
fn stripped_end(path: &str) -> (r: usize)
    ensures
        r <= path@.len(),
        path@.take(r as int) == strip_trailing(path@),
{
    let n = path.unicode_len();
    if n > 0 && path.get_char(n - 1) == '/' {
        proof {
            assert(path@.take(n - 1) =~= path@.drop_last());
        }
        n - 1
    } else {
        proof {
            assert(path@.take(n as int) =~= path@);
        }
        n
    }
}

/// The parent of a path, as [`parent_path`] describes it.
pub fn parent_dir(path: &str) -> (r: String)
    ensures
        r@ == parent_path(path@),
{
    let t_end = stripped_end(path);
    if t_end == 0 {
        return path.to_owned();
    }
    match rfind_sep(path, t_end) {
        Some(i) => {
            let p = path.substring_char(0, i);
            proof {
                assert(path@.take(t_end as int).take(i as int) =~= path@.subrange(0, i as int));
            }
            p.to_owned()
        },
        None => String::new(),
    }
}

/// One step up in the file tree: the parent path, normalized to end with a
/// separator.  A path without a parent comes back unchanged but normalized.
pub fn go_to_parent(path: &str) -> (r: String)
    ensures
        r@ == maybe_added(parent_path(path@), '/'),
{
    update_path(parent_dir(path))
}

/// The display name of a plain file: the path's file-name part.
pub fn file_name_format(path: &str) -> (r: String)
    ensures
        r@ == file_name_of(path@),
{
    let t_end = stripped_end(path);
    match rfind_sep(path, t_end) {
        Some(i) => {
            let p = path.substring_char(i + 1, t_end);
            proof {
                assert(path@.take(t_end as int).skip(i + 1) =~= path@.subrange(
                    i + 1,
                    t_end as int,
                ));
            }
            p.to_owned()
        },
        None => {
            let p = path.substring_char(0, t_end);
            proof {
                assert(path@.take(t_end as int).subrange(0, t_end as int) =~= path@.take(
                    t_end as int,
                ));
            }
            p.to_owned()
        },
    }
}

/// The display name of a directory: `"> "`, the name, `"/"`.
pub fn dir_name_format(path: &str) -> (r: String)
    ensures
        r@ == dir_name_spec(path@),
{
    let mut s = String::from_str("> ");
    let name = file_name_format(path);
    s.append(name.as_str());
    s.append("/");
    proof {
        assert(s@ =~= dir_name_spec(path@));
    }
    s
}

/// What the file tree displays for a path: the directory or plain-file
/// format, as the listing collaborator reported the path's kind.
pub fn filetree_entry_name_from_path(path: &str, is_dir: bool) -> (r: String)
    ensures
        r@ == entry_name_of(path@, is_dir),
{
    if is_dir {
        return dir_name_format(path);
    }
    file_name_format(path)
}

/// The file-tree row for a path: its display title, unchecked, its kind and
/// the full path it stands for.
pub fn filetree_entry_from_path(path: &str, is_dir: bool) -> (r: FileTreeEntry)
    ensures
        r.title@ == entry_name_of(path@, is_dir),
        r.checked == false,
        r.is_dir == is_dir,
        r.full_path@ == path@,
{
    FileTreeEntry {
        title: filetree_entry_name_from_path(path, is_dir),
        checked: false,
        is_dir,
        full_path: path.to_owned(),
    }
}

/// The directory rows of `s`, in their original order.
pub open spec fn dirs_of(s: Seq<FileTreeEntry>) -> Seq<FileTreeEntry>
    decreases s.len(),
{
    if s.len() == 0 {
        Seq::empty()
    } else if s.last().is_dir {
        dirs_of(s.drop_last()).push(s.last())
    } else {
        dirs_of(s.drop_last())
    }
}

/// The plain-file rows of `s`, in their original order.
pub open spec fn files_of(s: Seq<FileTreeEntry>) -> Seq<FileTreeEntry>
    decreases s.len(),
{
    if s.len() == 0 {
        Seq::empty()
    } else if !s.last().is_dir {
        files_of(s.drop_last()).push(s.last())
    } else {
        files_of(s.drop_last())
    }
}

/// Orders the file tree: directories first, plain files after, each group
/// keeping its original relative order.
pub fn sort_filetree(files: Vec<FileTreeEntry>) -> (r: Vec<FileTreeEntry>)
    ensures
        r@ == dirs_of(files@) + files_of(files@),
{
    let mut dirs: Vec<FileTreeEntry> = Vec::new();
    let mut plain: Vec<FileTreeEntry> = Vec::new();
    let mut i: usize = 0;
    while i < files.len()
        invariant
            i <= files@.len(),
            dirs@ == dirs_of(files@.take(i as int)),
            plain@ == files_of(files@.take(i as int)),
        decreases files@.len() - i,
    {
        proof {
            assert(files@.take(i + 1).drop_last() =~= files@.take(i as int));
            assert(files@.take(i + 1).last() == files@[i as int]);
        }
        let e = FileTreeEntry {
            title: files[i].title.clone(),
            checked: files[i].checked,
            is_dir: files[i].is_dir,
            full_path: files[i].full_path.clone(),
        };
        if e.is_dir {
            dirs.push(e);
        } else {
            plain.push(e);
        }
        i = i + 1;
    }
    proof {
        assert(files@.take(files@.len() as int) =~= files@);
    }
    let mut out = dirs;
    let mut j: usize = 0;
    while j < plain.len()
        invariant
            j <= plain@.len(),
            out@ == dirs_of(files@) + plain@.take(j as int),
        decreases plain@.len() - j,
    {
        let e = FileTreeEntry {
            title: plain[j].title.clone(),
            checked: plain[j].checked,
            is_dir: plain[j].is_dir,
            full_path: plain[j].full_path.clone(),
        };
        out.push(e);
        proof {
            assert(out@ =~= dirs_of(files@) + plain@.take(j + 1));
        }
        j = j + 1;
    }
    proof {
        assert(plain@.take(plain@.len() as int) =~= plain@);
    }
    out
}

/// Builds the glob pattern that lists the directory a path names; a path
/// the listing collaborator knows nothing of — not a file, not a directory,
/// nothing existing under that name — is refused.
pub fn glob_string_from_path(path: String, is_file: bool, is_dir: bool, exists: bool) -> (r:
    Result<String, PathError>)
    ensures
        match r {
            Ok(g) => (is_file || is_dir || exists) && g@ == glob_pattern_of(path@, is_file),
            Err(e) => !is_file && !is_dir && !exists && e == PathError::NotFound,
        },
{
    if !is_file && !is_dir && !exists {
        return Err(PathError::NotFound);
    }
    let base: String = if is_file {
        parent_dir(path.as_str())
    } else {
        path
    };
    let with_sep = maybe_add_character(base, '/');
    Ok(maybe_add_character(with_sep, '*'))
}

} // verus!
