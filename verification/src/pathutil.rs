//! Path reasoning over `/`-separated relative paths held as strings.
//!
//! A declared path of `"."` denotes the project root itself: it is a prefix of
//! every path and contributes zero components to specificity.

use vstd::prelude::*;

use crate::strutil::{spec_find_char_from, str_prefix_of, str_starts_with};

verus! {

/// The path `"."`, which declares the project root itself.
pub open spec fn spec_is_dot(q: Seq<char>) -> bool {
    q.len() == 1 && q[0] == '.'
}

/// `q` is a path prefix of `p` on component boundaries; `"."` prefixes everything.
pub open spec fn spec_path_has_prefix(p: Seq<char>, q: Seq<char>) -> bool {
    spec_is_dot(q) || (str_prefix_of(q, p) && (p.len() == q.len() || p[q.len() as int] == '/'))
}

/// `p` with the path prefix `q` removed, together with the separating slash.
pub open spec fn spec_strip_path_prefix(p: Seq<char>, q: Seq<char>) -> Seq<char> {
    if spec_is_dot(q) {
        p
    } else if p.len() == q.len() {
        Seq::empty()
    } else {
        p.skip(q.len() as int + 1)
    }
}

/// The number of components that `q` declares: zero for `"."`, otherwise one
/// more than the number of separating slashes.
pub open spec fn spec_path_components(q: Seq<char>) -> nat {
    if spec_is_dot(q) {
        0
    } else {
        1 + spec_count_char(q, '/')
    }
}

pub open spec fn spec_count_char(s: Seq<char>, c: char) -> nat
    decreases s.len(),
{
    if s.len() == 0 {
        0
    } else {
        spec_count_char(s.drop_last(), c) + if s.last() == c {
            1nat
        } else {
            0nat
        }
    }
}

pub fn path_has_prefix(p: &str, q: &str) -> (r: bool)
    ensures
        r == spec_path_has_prefix(p@, q@),
{
    if q.unicode_len() == 1 && q.get_char(0) == '.' {
        return true;
    }
    if !str_starts_with(p, q) {
        return false;
    }
    let plen = p.unicode_len();
    let qlen = q.unicode_len();
    plen == qlen || p.get_char(qlen) == '/'
}

pub fn strip_path_prefix<'a>(p: &'a str, q: &str) -> (r: &'a str)
    requires
        spec_path_has_prefix(p@, q@),
    ensures
        r@ == spec_strip_path_prefix(p@, q@),
{
    if q.unicode_len() == 1 && q.get_char(0) == '.' {
        return p;
    }
    let plen = p.unicode_len();
    let qlen = q.unicode_len();
    if plen == qlen {
        let r = p.substring_char(0, 0);
        proof {
            assert(r@ =~= Seq::<char>::empty());
        }
        r
    } else {
        let r = p.substring_char(qlen + 1, plen);
        proof {
            assert(r@ =~= p@.skip(q@.len() as int + 1));
        }
        r
    }
}

pub fn path_is_dot(q: &str) -> (r: bool)
    ensures
        r == spec_is_dot(q@),
{
    q.unicode_len() == 1 && q.get_char(0) == '.'
}

pub fn count_slashes(q: &str) -> (r: usize)
    ensures
        r == spec_count_char(q@, '/'),
{
    let len = q.unicode_len();
    let mut i: usize = 0;
    let mut n: usize = 0;
    while i < len
        invariant
            len == q@.len(),
            0 <= i <= len,
            n == spec_count_char(q@.take(i as int), '/'),
            n <= i,
        decreases len - i,
    {
        proof {
            let t = q@.take(i + 1);
            assert(t.drop_last() =~= q@.take(i as int));
            assert(t.last() == q@[i as int]);
        }
        if q.get_char(i) == '/' {
            n += 1;
        }
        i += 1;
    }
    proof {
        assert(q@.take(len as int) =~= q@);
    }
    n
}

/// `a` declares strictly fewer components than `b`.
pub fn components_lt(a: &str, b: &str) -> (r: bool)
    ensures
        r == (spec_path_components(a@) < spec_path_components(b@)),
{
    if path_is_dot(a) {
        !path_is_dot(b)
    } else if path_is_dot(b) {
        false
    } else {
        count_slashes(a) < count_slashes(b)
    }
}

/// `a` and `b` declare equally many components.
pub fn components_eq(a: &str, b: &str) -> (r: bool)
    ensures
        r == (spec_path_components(a@) == spec_path_components(b@)),
{
    if path_is_dot(a) {
        path_is_dot(b)
    } else if path_is_dot(b) {
        false
    } else {
        count_slashes(a) == count_slashes(b)
    }
}

/// A file at `file` lies directly in the root directory `root`: its path is
/// under `root` and the remainder names no further directory.
pub open spec fn spec_file_in_root(file: Seq<char>, root: Seq<char>) -> bool {
    spec_path_has_prefix(file, root) && spec_find_char_from(
        spec_strip_path_prefix(file, root),
        '/',
        0,
    ) is None
}

pub fn file_in_root(file: &str, root: &str) -> (r: bool)
    ensures
        r == spec_file_in_root(file@, root@),
{
    if !path_has_prefix(file, root) {
        return false;
    }
    let rest = strip_path_prefix(file, root);
    match crate::strutil::find_char(rest, '/') {
        Some(_) => false,
        None => true,
    }
}

} // verus!
