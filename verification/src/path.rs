//! Paths as texts.
//!
//! A path is a sequence of characters whose components are separated by `/`.
//! The functions here are purely lexical: they never look at a filesystem, and
//! they expect paths in resolved form (no empty, `.` or `..` components and no
//! trailing separator, except for the root `/` itself).

use crate::text::{has_prefix, to_chars};
use vstd::prelude::*;

verus! {

/// A path is absolute when it begins at the root.
pub open spec fn is_absolute_path(p: Seq<char>) -> bool {
    p.len() > 0 && p[0] == '/'
}

/// `rel` adjoined to `base`: an absolute `rel` replaces `base`, and a
/// separator is put between the two unless `base` is empty or already ends
/// with one.
pub open spec fn joined(base: Seq<char>, rel: Seq<char>) -> Seq<char> {
    if is_absolute_path(rel) {
        rel
    } else if base.len() == 0 || base.last() == '/' {
        base + rel
    } else {
        base + seq!['/'] + rel
    }
}

/// `p` is `base` itself or lies below it: `base` is a prefix of `p` that ends
/// where a component of `p` ends.
pub open spec fn within(p: Seq<char>, base: Seq<char>) -> bool {
    base.len() == 0 || (base.is_prefix_of(p) && (p.len() == base.len() || base.last() == '/'
        || p[base.len() as int] == '/'))
}

/// What is left of `p` once `base` and the separator after it are taken away,
/// or `None` when `p` is not within `base`.
pub open spec fn relative_to(p: Seq<char>, base: Seq<char>) -> Option<Seq<char>> {
    if !within(p, base) {
        None
    } else if base.len() == 0 || p.len() == base.len() || base.last() == '/' {
        Some(p.skip(base.len() as int))
    } else {
        Some(p.skip(base.len() as int + 1))
    }
}

/// Taking `base` away from `joined(base, rel)` gives back a relative `rel`.
pub proof fn lemma_join_then_strip(base: Seq<char>, rel: Seq<char>)
    requires
        !is_absolute_path(rel),
    ensures
        within(joined(base, rel), base),
        relative_to(joined(base, rel), base) == Some(rel),
{
    let p = joined(base, rel);
    if base.len() == 0 {
        assert(p =~= rel);
        assert(p.skip(0) =~= rel);
    } else if base.last() == '/' {
        assert(p.subrange(0, base.len() as int) =~= base);
        assert(p.skip(base.len() as int) =~= rel);
    } else {
        assert(p.subrange(0, base.len() as int) =~= base);
        assert(p[base.len() as int] == '/');
        assert(p.skip(base.len() as int + 1) =~= rel);
    }
}

/// Adjoining to `base` what was left of `p` gives back `p`, provided
/// something relative was left.
pub proof fn lemma_strip_then_join(p: Seq<char>, base: Seq<char>)
    requires
        relative_to(p, base) is Some,
        relative_to(p, base)->0.len() > 0,
        !is_absolute_path(relative_to(p, base)->0),
    ensures
        joined(base, relative_to(p, base)->0) == p,
{
    let rest = relative_to(p, base)->0;
    if base.len() == 0 {
        assert(rest =~= p);
        assert(base + rest =~= p);
    } else if base.last() == '/' {
        assert(p.subrange(0, base.len() as int) =~= base);
        assert(base + rest =~= p);
    } else {
        assert(p.subrange(0, base.len() as int) =~= base);
        assert(base + seq!['/'] + rest =~= p);
    }
}

/// The index of the last separator of `p`, or -1 when `p` has none.
pub open spec fn last_separator(p: Seq<char>) -> int
    decreases p.len(),
{
    if p.len() == 0 {
        -1
    } else if p.last() == '/' {
        p.len() - 1
    } else {
        last_separator(p.drop_last())
    }
}

/// The last component of `p`: what follows its last separator.
pub open spec fn base_name(p: Seq<char>) -> Seq<char> {
    p.skip(last_separator(p) + 1)
}

/// The directory that holds `p`: `p` without its last component and the
/// separator before it. The empty path and the root have none.
pub open spec fn parent_of(p: Seq<char>) -> Option<Seq<char>> {
    if p.len() == 0 || p == seq!['/'] {
        None
    } else if last_separator(p) < 0 {
        Some(Seq::empty())
    } else if last_separator(p) == 0 {
        Some(seq!['/'])
    } else {
        Some(p.take(last_separator(p)))
    }
}

/// `last_separator(p)` is the greatest index of `p` that holds a separator.
pub proof fn lemma_last_separator(p: Seq<char>)
    ensures
        -1 <= last_separator(p) < p.len(),
        last_separator(p) >= 0 ==> p[last_separator(p)] == '/',
        forall|j: int| last_separator(p) < j < p.len() ==> p[j] != '/',
    decreases p.len(),
{
    if p.len() > 0 && p.last() != '/' {
        lemma_last_separator(p.drop_last());
        assert forall|j: int| last_separator(p) < j < p.len() implies p[j] != '/' by {
            if j < p.len() - 1 {
                assert(p.drop_last()[j] == p[j]);
            }
        }
    }
}

/// The last separator of two texts put together lies in the second one if
/// that has any, and else in the first one.
pub proof fn lemma_last_separator_of_concat(a: Seq<char>, b: Seq<char>)
    ensures
        last_separator(a + b) == if last_separator(b) >= 0 {
            a.len() + last_separator(b)
        } else {
            last_separator(a)
        },
    decreases b.len(),
{
    if b.len() == 0 {
        assert(a + b =~= a);
    } else {
        assert((a + b).drop_last() =~= a + b.drop_last());
        lemma_last_separator(b.drop_last());
        if b.last() != '/' {
            lemma_last_separator_of_concat(a, b.drop_last());
        }
    }
}

/// The order of characters within names: the separator comes before every
/// other character, the others follow by code point.
pub open spec fn char_precedes(x: char, y: char) -> bool {
    x != y && (x == '/' || (y != '/' && (x as int) < (y as int)))
}

/// The order of names: component by component, which is the order of the
/// texts when the separator is the least character. A proper prefix comes
/// first.
pub open spec fn precedes(a: Seq<char>, b: Seq<char>) -> bool
    decreases a.len(),
{
    if b.len() == 0 {
        false
    } else if a.len() == 0 {
        true
    } else if a[0] != b[0] {
        char_precedes(a[0], b[0])
    } else {
        precedes(a.skip(1), b.skip(1))
    }
}

/// No name precedes itself.
pub proof fn lemma_precedes_irreflexive(a: Seq<char>)
    ensures
        !precedes(a, a),
    decreases a.len(),
{
    if a.len() > 0 {
        lemma_precedes_irreflexive(a.skip(1));
    }
}

/// The order of names is transitive.
pub proof fn lemma_precedes_transitive(a: Seq<char>, b: Seq<char>, c: Seq<char>)
    requires
        precedes(a, b),
        precedes(b, c),
    ensures
        precedes(a, c),
    decreases a.len(),
{
    if a.len() > 0 && a[0] == b[0] && b[0] == c[0] {
        lemma_precedes_transitive(a.skip(1), b.skip(1), c.skip(1));
    }
}

/// Of two different names one precedes the other.
pub proof fn lemma_precedes_total(a: Seq<char>, b: Seq<char>)
    ensures
        precedes(a, b) || a == b || precedes(b, a),
    decreases a.len(),
{
    if a.len() > 0 && b.len() > 0 && a[0] == b[0] {
        lemma_precedes_total(a.skip(1), b.skip(1));
        if a.skip(1) == b.skip(1) {
            assert(a =~= seq![a[0]] + a.skip(1));
            assert(b =~= seq![b[0]] + b.skip(1));
        }
    } else if a.len() == 0 && b.len() == 0 {
        assert(a =~= b);
    }
}

/// What `path_clean::clean` makes of a path, as a function of its text.
pub uninterp spec fn cleaned(path: Seq<char>) -> Seq<char>;

/// Calls `path_clean::clean`, which shortens a path by its text alone,
/// without looking at the filesystem: repeated separators become one, `.`
/// components are dropped, a `..` component is resolved against the component
/// before it (at the root it is dropped, at the start of a relative path it
/// stays), and what would be empty becomes `.`.
///
/// None of this is proved here. The contract claims that the result is
/// determined by the text of the path, and gives it a name; that the result
/// is never empty; and that an absolute path stays absolute, since the root
/// at its start is never dropped.
#[verifier::external_body]
fn clean(path: &str) -> (r: String)
    ensures
        r@ == cleaned(path@),
        r@.len() > 0,
        is_absolute_path(path@) ==> is_absolute_path(r@),
{
    path_clean::clean(path).to_string_lossy().into_owned()
}

/// Resolves a path that the user gave: a relative path is taken from
/// `cur_dir`, and the result is cleaned. `exists` says whether the path as
/// given exists; one that does not is refused.
///
/// The result is never empty, and it is absolute if `path` or `cur_dir` is.
pub fn parse_path(cur_dir: &str, path: &str, exists: bool) -> (r: Result<String, String>)
    ensures
        match r {
            Ok(resolved) => exists && resolved@ == cleaned(joined(cur_dir@, path@)),
            Err(message) => !exists && message@ == "Given path does not exist"@,
        },
        r matches Ok(resolved) ==> resolved@.len() > 0 && (is_absolute_path(
            joined(cur_dir@, path@),
        ) ==> is_absolute_path(resolved@)),
{
    if !exists {
        return Err(String::from_str("Given path does not exist"));
    }
    if is_absolute(path) {
        Ok(clean(path))
    } else {
        Ok(clean(join(cur_dir, path).as_str()))
    }
}

/// Whether `path` begins at the root.
pub fn is_absolute(path: &str) -> (r: bool)
    ensures
        r == is_absolute_path(path@),
{
    let p = to_chars(path);
    p.len() > 0 && p[0] == '/'
}

/// Adjoins `rel` to `base`.
pub fn join(base: &str, rel: &str) -> (r: String)
    ensures
        r@ == joined(base@, rel@),
{
    let b = to_chars(base);
    let q = to_chars(rel);
    if q.len() > 0 && q[0] == '/' {
        String::from_str(rel)
    } else {
        let mut out = String::from_str(base);
        if b.len() > 0 && b[b.len() - 1] != '/' {
            proof {
                reveal_strlit("/");
                assert("/"@ =~= seq!['/']);
            }
            out.append("/");
        }
        out.append(rel);
        out
    }
}

/// Whether `path` is `base` or lies below it.
pub fn starts_with(path: &str, base: &str) -> (r: bool)
    ensures
        r == within(path@, base@),
{
    let p = to_chars(path);
    let b = to_chars(base);
    starts_with_chars(&p, &b)
}

fn starts_with_chars(p: &Vec<char>, b: &Vec<char>) -> (r: bool)
    ensures
        r == within(p@, b@),
{
    if b.len() == 0 {
        return true;
    }
    has_prefix(p, b) && (p.len() == b.len() || b[b.len() - 1] == '/' || p[b.len()] == '/')
}

/// Takes `base` away from the front of `path`.
pub fn strip_prefix(path: &str, base: &str) -> (r: Option<String>)
    ensures
        r is Some <==> within(path@, base@),
        r matches Some(rest) ==> Some(rest@) == relative_to(path@, base@),
{
    let p = to_chars(path);
    let b = to_chars(base);
    if !starts_with_chars(&p, &b) {
        return None;
    }
    let from: usize = if b.len() == 0 || p.len() == b.len() || b[b.len() - 1] == '/' {
        b.len()
    } else {
        b.len() + 1
    };
    let rest = path.substring_char(from, p.len());
    assert(path@.subrange(from as int, p@.len() as int) =~= path@.skip(from as int));
    Some(String::from_str(rest))
}

fn last_separator_chars(p: &Vec<char>) -> (r: Option<usize>)
    ensures
        match r {
            Some(k) => k == last_separator(p@),
            None => last_separator(p@) == -1,
        },
{
    let mut found: Option<usize> = None;
    let mut i: usize = 0;
    while i < p.len()
        invariant
            i <= p.len(),
            match found {
                Some(k) => k == last_separator(p@.take(i as int)),
                None => last_separator(p@.take(i as int)) == -1,
            },
        decreases p.len() - i,
    {
        assert(p@.take(i + 1).drop_last() =~= p@.take(i as int));
        if p[i] == '/' {
            found = Some(i);
        }
        i += 1;
    }
    assert(p@.take(i as int) =~= p@);
    found
}

/// The last component of `path`.
pub fn file_name(path: &str) -> (r: String)
    ensures
        r@ == base_name(path@),
{
    let p = to_chars(path);
    proof {
        lemma_last_separator(p@);
    }
    let len: usize = p.len();
    let from: usize = match last_separator_chars(&p) {
        Some(k) => {
            assert(k < len);
            k + 1
        },
        None => 0,
    };
    let name = path.substring_char(from, len);
    assert(path@.subrange(from as int, len as int) =~= path@.skip(from as int));
    String::from_str(name)
}

/// The directory that holds `path`, if it has one.
pub fn parent(path: &str) -> (r: Option<String>)
    ensures
        match r {
            Some(dir) => Some(dir@) == parent_of(path@),
            None => parent_of(path@) is None,
        },
{
    let p = to_chars(path);
    if p.len() == 0 || (p.len() == 1 && p[0] == '/') {
        assert(p.len() == 1 && p[0] == '/' ==> p@ =~= seq!['/']);
        return None;
    }
    proof {
        lemma_last_separator(p@);
    }
    match last_separator_chars(&p) {
        None => Some(String::new()),
        Some(k) => {
            if k == 0 {
                proof {
                    reveal_strlit("/");
                    assert("/"@ =~= seq!['/']);
                }
                Some(String::from_str("/"))
            } else {
                let dir = path.substring_char(0, k);
                assert(path@.subrange(0, k as int) =~= path@.take(k as int));
                Some(String::from_str(dir))
            }
        },
    }
}

fn char_comes_before(x: char, y: char) -> (r: bool)
    ensures
        r == char_precedes(x, y),
{
    x != y && (x == '/' || (y != '/' && x < y))
}

pub(crate) fn precedes_chars(a: &Vec<char>, b: &Vec<char>) -> (r: bool)
    ensures
        r == precedes(a@, b@),
{
    let mut i: usize = 0;
    assert(a@.skip(0) =~= a@ && b@.skip(0) =~= b@);
    while i < a.len() && i < b.len()
        invariant
            i <= a.len(),
            i <= b.len(),
            precedes(a@, b@) == precedes(a@.skip(i as int), b@.skip(i as int)),
        decreases a.len() - i,
    {
        if a[i] != b[i] {
            return char_comes_before(a[i], b[i]);
        }
        assert(a@.skip(i as int).skip(1) =~= a@.skip(i + 1));
        assert(b@.skip(i as int).skip(1) =~= b@.skip(i + 1));
        i += 1;
    }
    i < b.len()
}

/// Whether the name `a` comes before the name `b`.
pub fn comes_before(a: &str, b: &str) -> (r: bool)
    ensures
        r == precedes(a@, b@),
{
    let a = to_chars(a);
    let b = to_chars(b);
    precedes_chars(&a, &b)
}

} // verus!
