//! Which paths belong in the store: markdown files outside hidden and
//! dependency directories.
use vstd::prelude::*;
use vstd::string::*;
use crate::text::{chars_of, holds_at};

verus! {

/// The directory name whose contents are never served.
pub open spec fn ignored_dir() -> Seq<char> {
    seq!['n', 'o', 'd', 'e', '_', 'm', 'o', 'd', 'u', 'l', 'e', 's']
}

/// Position `i` of `p` is the first character of a component.
pub open spec fn starts_component(p: Seq<char>, i: int) -> bool {
    i == 0 || p[i - 1] == '/'
}

/// Position `j` of `p` is just past the last character of a component.
pub open spec fn ends_component(p: Seq<char>, j: int) -> bool {
    j == p.len() || p[j] == '/'
}

/// A component starting at `i` begins with the hidden-file prefix `.`.
pub open spec fn hidden_at(p: Seq<char>, i: int) -> bool {
    0 <= i < p.len() && starts_component(p, i) && p[i] == '.'
}

/// A component starting at `i` is exactly the ignored directory name.
pub open spec fn ignored_at(p: Seq<char>, i: int) -> bool {
    0 <= i && i + 12 <= p.len() && starts_component(p, i) && p.subrange(i, i + 12)
        == ignored_dir() && ends_component(p, i + 12)
}

/// Some slash-separated component of `p` is hidden or an ignored directory.
pub open spec fn has_skipped_component(p: Seq<char>) -> bool {
    exists|i: int| hidden_at(p, i) || ignored_at(p, i)
}

/// The final component of `p` has the extension `md`: it ends in `.md`
/// with at least one character before the dot.
pub open spec fn has_md_extension(p: Seq<char>) -> bool {
    p.len() >= 4 && p[p.len() - 4] != '/' && p[p.len() - 3] == '.' && p[p.len() - 2] == 'm'
        && p[p.len() - 1] == 'd'
}

/// A path that the store may hold.
pub open spec fn in_scope(p: Seq<char>) -> bool {
    has_md_extension(p) && !has_skipped_component(p)
}

/// The path of `p` below `root`, compared component by component as text.
pub open spec fn strip_root(p: Seq<char>, root: Seq<char>) -> Option<Seq<char>> {
    if root.len() == 0 {
        Some(p)
    } else if root.last() == '/' {
        if p.len() >= root.len() && p.take(root.len() as int) == root {
            Some(p.skip(root.len() as int))
        } else {
            None
        }
    } else if p == root {
        Some(Seq::empty())
    } else if p.len() > root.len() && p.take(root.len() as int) == root && p[root.len() as int]
        == '/' {
        Some(p.skip(root.len() + 1 as int))
    } else {
        None
    }
}

fn ignored_dir_chars() -> (r: Vec<char>)
    ensures
        r@ == ignored_dir(),
{
    let r = vec!['n', 'o', 'd', 'e', '_', 'm', 'o', 'd', 'u', 'l', 'e', 's'];
    assert(r@ =~= ignored_dir());
    r
}

/// Whether the final component of `path` has the extension `md`.
pub fn is_markdown(path: &str) -> (r: bool)
    ensures
        r == has_md_extension(path@),
{
    let v = chars_of(path);
    let n = v.len();
    n >= 4 && v[n - 4] != '/' && v[n - 3] == '.' && v[n - 2] == 'm' && v[n - 1] == 'd'
}

/// Whether some component of `path` starts with `.` or is `node_modules`.
pub fn should_skip(path: &str) -> (r: bool)
    ensures
        r == has_skipped_component(path@),
{
    let v = chars_of(path);
    let name = ignored_dir_chars();
    let mut i: usize = 0;
    while i < v.len()
        invariant
            v@ == path@,
            name@ == ignored_dir(),
            i <= v.len(),
            forall|j: int| 0 <= j < i ==> !hidden_at(path@, j) && !ignored_at(path@, j),
        decreases v.len() - i,
    {
        if i == 0 || v[i - 1] == '/' {
            if v[i] == '.' {
                assert(hidden_at(path@, i as int));
                return true;
            }
            if holds_at(&v, i, &name) && (i + 12 == v.len() || v[i + 12] == '/') {
                assert(ignored_at(path@, i as int));
                return true;
            }
        }
        i += 1;
    }
    assert forall|j: int| !hidden_at(path@, j) && !ignored_at(path@, j) by {
        if 0 <= j < i {
        }
    }
    false
}

/// Whether `path` may be held by the store.
pub fn is_in_scope(path: &str) -> (r: bool)
    ensures
        r == in_scope(path@),
{
    is_markdown(path) && !should_skip(path)
}

/// `path` relative to `root`, or `None` when `path` does not lie below it.
pub fn relative_path(path: &str, root: &str) -> (r: Option<String>)
    ensures
        r matches Some(s) ==> strip_root(path@, root@) == Some(s@),
        r is None ==> strip_root(path@, root@) is None,
{
    let p = chars_of(path);
    let q = chars_of(root);
    let n = p.len();
    let m = q.len();
    if m == 0 {
        return Some(String::from_str(path));
    }
    if q[m - 1] == '/' {
        if holds_at(&p, 0, &q) {
            assert(p@.subrange(0, m as int) =~= p@.take(m as int));
            return Some(String::from_str(path.substring_char(m, n)));
        }
        proof {
            if p@.len() >= m {
                assert(p@.subrange(0, m as int) =~= p@.take(m as int));
            }
        }
        return None;
    }
    if holds_at(&p, 0, &q) {
        assert(p@.subrange(0, m as int) =~= p@.take(m as int));
        if n == m {
            assert(p@ =~= q@);
            return Some(String::new());
        }
        if p[m] == '/' {
            return Some(String::from_str(path.substring_char(m + 1, n)));
        }
        proof {
            assert(p@ != q@) by {
                assert(p@.len() != q@.len());
            }
        }
        return None;
    }
    proof {
        if p@.len() >= m {
            assert(p@.subrange(0, m as int) =~= p@.take(m as int));
        }
        if p@ == q@ {
            assert(p@.subrange(0, m as int) =~= q@);
        }
    }
    None
}

} // verus!
