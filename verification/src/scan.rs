//! What a walk through the store directory finds, and what of it counts.
//!
//! A walk passes over hidden files and directories, whose names begin with
//! `.`, and over the files called `README.md`. What it comes upon else is
//! reported as a list of `ScanEntry`, from which the store builds its index.

use crate::path::{
    base_name, file_name, is_absolute_path, last_separator, lemma_last_separator,
    lemma_last_separator_of_concat, relative_to,
};
use crate::text::{same_chars, to_chars};
use vstd::prelude::*;

verus! {

/// Something that a walk through the store directory came upon.
#[derive(Debug, PartialEq, Eq)]
pub struct ScanEntry {
    /// Its path, which begins with the store directory.
    pub path: String,
    /// Whether it is a regular file.
    pub is_file: bool,
}

/// What a `ScanEntry` stands for.
pub struct ScanEntryView {
    pub path: Seq<char>,
    pub is_file: bool,
}

impl View for ScanEntry {
    type V = ScanEntryView;

    open spec fn view(&self) -> ScanEntryView {
        ScanEntryView { path: self.path@, is_file: self.is_file }
    }
}

/// What a list of scan entries stands for.
pub open spec fn entry_views(found: Seq<ScanEntry>) -> Seq<ScanEntryView> {
    found.map_values(|e: ScanEntry| e@)
}

/// The name of the file that every directory may hold without it becoming a
/// dotfile.
pub open spec fn readme() -> Seq<char> {
    "README.md"@
}

/// Whether a walk through the store passes over what is called `file_name`:
/// it does when the name begins with `.`, and for a file also when the name
/// is that of the readme.
pub open spec fn ignored(file_name: Seq<char>, is_dir: bool) -> bool {
    (file_name.len() > 0 && file_name[0] == '.') || (!is_dir && file_name == readme())
}

/// A component of `p` begins at index `i`.
pub open spec fn begins_component(p: Seq<char>, i: int) -> bool {
    0 <= i < p.len() && (i == 0 || p[i - 1] == '/')
}

/// A component of `p` begins with `.`.
pub open spec fn has_hidden_component(p: Seq<char>) -> bool {
    exists|i: int| #[trigger] begins_component(p, i) && p[i] == '.'
}

/// Whether the file called `name` is a dotfile of the store: the name is
/// relative to the store directory, neither the file nor a directory above it
/// is hidden, and the file is not a readme.
pub open spec fn indexable(name: Seq<char>) -> bool {
    name.len() > 0 && !is_absolute_path(name) && !has_hidden_component(name) && base_name(name)
        != readme()
}

/// Whether a walk that came upon `found` shows a dotfile called `name` in the
/// store at `root`: a regular file lies there, and its name is indexable.
pub open spec fn scanned(root: Seq<char>, found: Seq<ScanEntryView>, name: Seq<char>) -> bool {
    indexable(name) && exists|i: int|
        0 <= i < found.len() && (#[trigger] found[i]).is_file && relative_to(found[i].path, root)
            == Some(name)
}

/// A file that lies in the store directory itself is indexable exactly when
/// a walk does not pass over it.
pub proof fn lemma_indexable_file(name: Seq<char>)
    requires
        !name.contains('/'),
    ensures
        indexable(name) <==> name.len() > 0 && !ignored(name, false),
{
    lemma_last_separator(name);
    assert(last_separator(name) == -1);
    assert(name.skip(0) =~= name);
    if has_hidden_component(name) {
        let i = choose|i: int| #[trigger] begins_component(name, i) && name[i] == '.';
        assert(i == 0) by {
            if i > 0 {
                assert(name.contains(name[i - 1]));
            }
        }
    }
    if name.len() > 0 && name[0] == '.' {
        assert(begins_component(name, 0));
    }
}

/// A file that lies deeper is indexable exactly when a walk descends into
/// the first directory of its name, and the rest of its name is indexable
/// below that directory.
pub proof fn lemma_indexable_below(dir: Seq<char>, rest: Seq<char>)
    requires
        dir.len() > 0,
        !dir.contains('/'),
        rest.len() > 0,
        !is_absolute_path(rest),
    ensures
        indexable(dir + seq!['/'] + rest) <==> !ignored(dir, true) && indexable(rest),
{
    let head = dir + seq!['/'];
    let name = head + rest;
    let n: int = dir.len() as int;
    assert(head.drop_last() =~= dir);
    lemma_last_separator(rest);
    lemma_last_separator_of_concat(head, rest);
    assert(base_name(name) =~= base_name(rest));
    if has_hidden_component(name) {
        let i = choose|i: int| #[trigger] begins_component(name, i) && name[i] == '.';
        if 0 < i <= n {
            assert(dir.contains(dir[i - 1]));
        } else if i > n {
            assert(begins_component(rest, i - n - 1));
            assert(rest[i - n - 1] == '.');
        }
    }
    if dir.len() > 0 && dir[0] == '.' {
        assert(begins_component(name, 0));
    }
    if has_hidden_component(rest) {
        let j = choose|j: int| #[trigger] begins_component(rest, j) && rest[j] == '.';
        assert(begins_component(name, n + 1 + j));
        assert(name[n + 1 + j] == '.');
    }
}

/// Whether a walk through the store passes over the file or directory that
/// is called `file_name`, without descending into it.
pub fn is_ignored(file_name: &str, is_dir: bool) -> (r: bool)
    ensures
        r == ignored(file_name@, is_dir),
{
    let name = to_chars(file_name);
    if name.len() > 0 && name[0] == '.' {
        return true;
    }
    if is_dir {
        return false;
    }
    let readme = to_chars("README.md");
    same_chars(&name, &readme)
}

/// Whether the file called `name` is a dotfile of the store.
pub fn is_indexable(name: &str) -> (r: bool)
    ensures
        r == indexable(name@),
{
    let chars = to_chars(name);
    if chars.len() == 0 || chars[0] == '/' {
        return false;
    }
    let mut i: usize = 0;
    while i < chars.len()
        invariant
            i <= chars.len(),
            chars@ == name@,
            forall|j: int|
                0 <= j < i && #[trigger] begins_component(chars@, j) ==> chars@[j] != '.',
        decreases chars.len() - i,
    {
        if chars[i] == '.' && (i == 0 || chars[i - 1] == '/') {
            assert(begins_component(chars@, i as int));
            return false;
        }
        i += 1;
    }
    let last = file_name(name);
    let last_chars = to_chars(last.as_str());
    let readme = to_chars("README.md");
    !same_chars(&last_chars, &readme)
}

} // verus!
