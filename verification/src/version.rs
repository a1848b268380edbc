//! Semantic package versions: the numeric triple with the optional
//! pre-release and build-metadata tags.

use vstd::prelude::*;

use crate::strutil::{
    find_char, lemma_find_char_from_props, spec_find_char_from, spec_str_le, spec_u64_dec,
    str_eq, str_le, u64_to_dec,
};

verus! {

/// A package version `major.minor.patch[-pre][+build]`.
#[derive(Debug)]
pub struct Version {
    pub major: u64,
    pub minor: u64,
    pub patch: u64,
    /// The pre-release tag, empty when the version is a release.
    pub pre: String,
    /// The build metadata, empty when none is attached; it never takes part
    /// in precedence.
    pub build: String,
}

/// The textual rendering `major.minor.patch[-pre][+build]`.
pub open spec fn spec_version_chars(v: Version) -> Seq<char> {
    spec_u64_dec(v.major as nat) + seq!['.'] + spec_u64_dec(v.minor as nat) + seq!['.']
        + spec_u64_dec(v.patch as nat) + (if v.pre@.len() > 0 {
        seq!['-'] + v.pre@
    } else {
        Seq::empty()
    }) + (if v.build@.len() > 0 {
        seq!['+'] + v.build@
    } else {
        Seq::empty()
    })
}

/// A pre-release identifier made of digits alone.
pub open spec fn spec_is_numeric(x: Seq<char>) -> bool {
    x.len() > 0 && forall|i: int|
        0 <= i < x.len() ==> ('0' as u32) <= (#[trigger] x[i] as u32) <= ('9' as u32)
}

/// Precedence of two dot-separated pre-release identifiers: numeric
/// identifiers compare as numbers (shorter first, canonical identifiers
/// carry no leading zeros), a numeric identifier sorts below an
/// alphanumeric one, and alphanumeric identifiers compare lexically.
pub open spec fn spec_ident_lt(x: Seq<char>, y: Seq<char>) -> bool {
    if spec_is_numeric(x) && spec_is_numeric(y) {
        x.len() < y.len() || (x.len() == y.len() && spec_str_le(x, y) && x != y)
    } else if spec_is_numeric(x) {
        true
    } else if spec_is_numeric(y) {
        false
    } else {
        spec_str_le(x, y) && x != y
    }
}

/// Precedence of two nonempty pre-release tags, identifier by identifier; a
/// tag that runs out of identifiers first sorts below.
pub open spec fn spec_pre_seq_lt(a: Seq<char>, b: Seq<char>) -> bool
    decreases a.len(),
    via spec_pre_seq_lt_decreases
{
    let da = spec_find_char_from(a, '.', 0);
    let db = spec_find_char_from(b, '.', 0);
    let ia = match da {
        Some(d) => a.take(d),
        None => a,
    };
    let ib = match db {
        Some(d) => b.take(d),
        None => b,
    };
    if ia != ib {
        spec_ident_lt(ia, ib)
    } else {
        match (da, db) {
            (None, None) => false,
            (None, Some(_)) => true,
            (Some(_), None) => false,
            (Some(d1), Some(d2)) => spec_pre_seq_lt(a.skip(d1 + 1), b.skip(d2 + 1)),
        }
    }
}

#[via_fn]
proof fn spec_pre_seq_lt_decreases(a: Seq<char>, b: Seq<char>) {
    lemma_find_char_from_props(a, '.', 0);
}

/// Precedence of two pre-release tags: a pre-release sorts below the plain
/// release, and two pre-releases compare identifier-wise.
pub open spec fn spec_pre_lt(a: Seq<char>, b: Seq<char>) -> bool {
    if a.len() == 0 {
        false
    } else if b.len() == 0 {
        true
    } else {
        spec_pre_seq_lt(a, b)
    }
}

/// Semver precedence: the numeric triple decides first; on an equal triple
/// the pre-release tags decide; build metadata never does.
pub open spec fn spec_version_lt(a: Version, b: Version) -> bool {
    a.major < b.major || (a.major == b.major && (a.minor < b.minor || (a.minor == b.minor && (
    a.patch < b.patch || (a.patch == b.patch && spec_pre_lt(a.pre@, b.pre@))))))
}

impl Clone for Version {
    fn clone(&self) -> (r: Version)
        ensures
            r == *self,
    {
        Version {
            major: self.major,
            minor: self.minor,
            patch: self.patch,
            pre: self.pre.clone(),
            build: self.build.clone(),
        }
    }
}

fn is_numeric_ident(x: &str) -> (r: bool)
    ensures
        r == spec_is_numeric(x@),
{
    let len = x.unicode_len();
    if len == 0 {
        return false;
    }
    let mut i: usize = 0;
    while i < len
        invariant
            len == x@.len(),
            0 <= i <= len,
            forall|j: int|
                0 <= j < i ==> ('0' as u32) <= (#[trigger] x@[j] as u32) <= ('9' as u32),
        decreases len - i,
    {
        let c = x.get_char(i);
        if (c as u32) < ('0' as u32) || (c as u32) > ('9' as u32) {
            return false;
        }
        i += 1;
    }
    true
}

fn ident_lt(x: &str, y: &str) -> (r: bool)
    ensures
        r == spec_ident_lt(x@, y@),
{
    let nx = is_numeric_ident(x);
    let ny = is_numeric_ident(y);
    if nx && ny {
        x.unicode_len() < y.unicode_len() || (x.unicode_len() == y.unicode_len() && str_le(
            x,
            y,
        ) && !str_eq(x, y))
    } else if nx {
        true
    } else if ny {
        false
    } else {
        str_le(x, y) && !str_eq(x, y)
    }
}

fn pre_seq_lt(a: &str, b: &str) -> (r: bool)
    ensures
        r == spec_pre_seq_lt(a@, b@),
    decreases a@.len(),
{
    let alen = a.unicode_len();
    let blen = b.unicode_len();
    let da = find_char(a, '.');
    let db = find_char(b, '.');
    proof {
        lemma_find_char_from_props(a@, '.', 0);
        lemma_find_char_from_props(b@, '.', 0);
    }
    let ia = match da {
        Some(d) => a.substring_char(0, d),
        None => a,
    };
    let ib = match db {
        Some(d) => b.substring_char(0, d),
        None => b,
    };
    proof {
        match da {
            Some(d) => {
                assert(ia@ =~= a@.take(d as int));
            },
            None => {},
        }
        match db {
            Some(d) => {
                assert(ib@ =~= b@.take(d as int));
            },
            None => {},
        }
    }
    if !str_eq(ia, ib) {
        ident_lt(ia, ib)
    } else {
        match (da, db) {
            (None, None) => false,
            (None, Some(_)) => true,
            (Some(_), None) => false,
            (Some(d1), Some(d2)) => {
                let ra = a.substring_char(d1 + 1, alen);
                let rb = b.substring_char(d2 + 1, blen);
                proof {
                    assert(ra@ =~= a@.skip(d1 + 1));
                    assert(rb@ =~= b@.skip(d2 + 1));
                }
                pre_seq_lt(ra, rb)
            },
        }
    }
}

impl Version {
    /// A bare release version, with no pre-release tag and no build
    /// metadata.
    pub fn new(major: u64, minor: u64, patch: u64) -> (r: Version)
        ensures
            r.major == major,
            r.minor == minor,
            r.patch == patch,
            r.pre@ == Seq::<char>::empty(),
            r.build@ == Seq::<char>::empty(),
    {
        Version { major, minor, patch, pre: String::new(), build: String::new() }
    }

    /// A version with its tags.
    pub fn new_full(major: u64, minor: u64, patch: u64, pre: String, build: String) -> (r:
        Version)
        ensures
            r == (Version { major, minor, patch, pre, build }),
    {
        Version { major, minor, patch, pre, build }
    }

    pub fn render(&self) -> (r: String)
        ensures
            r@ == spec_version_chars(*self),
    {
        let mut r = u64_to_dec(self.major);
        r.append(".");
        let minor = u64_to_dec(self.minor);
        r.append(minor.as_str());
        r.append(".");
        let patch = u64_to_dec(self.patch);
        r.append(patch.as_str());
        if self.pre.as_str().unicode_len() > 0 {
            r.append("-");
            r.append(self.pre.as_str());
        }
        if self.build.as_str().unicode_len() > 0 {
            r.append("+");
            r.append(self.build.as_str());
        }
        proof {
            reveal_strlit(".");
            reveal_strlit("-");
            reveal_strlit("+");
            assert((".")@ =~= seq!['.']);
            assert(("-")@ =~= seq!['-']);
            assert(("+")@ =~= seq!['+']);
            assert(r@ =~= spec_version_chars(*self));
        }
        r
    }

    pub fn lt(&self, other: &Version) -> (r: bool)
        ensures
            r == spec_version_lt(*self, *other),
    {
        if self.major != other.major {
            return self.major < other.major;
        }
        if self.minor != other.minor {
            return self.minor < other.minor;
        }
        if self.patch != other.patch {
            return self.patch < other.patch;
        }
        if self.pre.as_str().unicode_len() == 0 {
            return false;
        }
        if other.pre.as_str().unicode_len() == 0 {
            return true;
        }
        pre_seq_lt(self.pre.as_str(), other.pre.as_str())
    }
}

} // verus!

verus! {

/// An identifier never precedes itself, and a smaller one differs.
proof fn lemma_ident_lt_strict(x: Seq<char>, y: Seq<char>)
    requires
        spec_ident_lt(x, y),
    ensures
        x != y,
{
}

/// No pre-release tag precedes itself.
pub proof fn lemma_pre_seq_lt_irrefl(a: Seq<char>)
    ensures
        !spec_pre_seq_lt(a, a),
    decreases a.len(),
{
    lemma_find_char_from_props(a, '.', 0);
    match spec_find_char_from(a, '.', 0) {
        Some(d) => {
            lemma_pre_seq_lt_irrefl(a.skip(d + 1));
        },
        None => {},
    }
}

/// Semver precedence is irreflexive.
pub proof fn lemma_version_lt_irrefl(v: Version)
    ensures
        !spec_version_lt(v, v),
{
    if v.pre@.len() > 0 {
        lemma_pre_seq_lt_irrefl(v.pre@);
    }
}

/// Identifier precedence is transitive.
proof fn lemma_ident_lt_trans(x: Seq<char>, y: Seq<char>, z: Seq<char>)
    requires
        spec_ident_lt(x, y),
        spec_ident_lt(y, z),
    ensures
        spec_ident_lt(x, z),
{
    if spec_is_numeric(x) && spec_is_numeric(y) && spec_is_numeric(z) {
        if x.len() == y.len() && y.len() == z.len() {
            crate::strutil::lemma_str_le_trans(x, y, z);
            if x == z {
                crate::strutil::lemma_str_le_total(x, y);
            }
        }
    } else if spec_is_numeric(x) && !spec_is_numeric(z) {
    } else if !spec_is_numeric(x) {
        assert(!spec_is_numeric(y));
        assert(!spec_is_numeric(z));
        crate::strutil::lemma_str_le_trans(x, y, z);
        if x == z {
            crate::strutil::lemma_str_le_total(x, y);
        }
    } else {
        assert(spec_is_numeric(x) && spec_is_numeric(z) && !spec_is_numeric(y));
        assert(false);
    }
}

/// Pre-release tag precedence is transitive.
proof fn lemma_pre_seq_lt_trans(a: Seq<char>, b: Seq<char>, c: Seq<char>)
    requires
        spec_pre_seq_lt(a, b),
        spec_pre_seq_lt(b, c),
    ensures
        spec_pre_seq_lt(a, c),
    decreases a.len(),
{
    lemma_find_char_from_props(a, '.', 0);
    lemma_find_char_from_props(b, '.', 0);
    lemma_find_char_from_props(c, '.', 0);
    let da = spec_find_char_from(a, '.', 0);
    let db = spec_find_char_from(b, '.', 0);
    let dc = spec_find_char_from(c, '.', 0);
    let ia = match da {
        Some(d) => a.take(d),
        None => a,
    };
    let ib = match db {
        Some(d) => b.take(d),
        None => b,
    };
    let ic = match dc {
        Some(d) => c.take(d),
        None => c,
    };
    if ia == ib && ib == ic {
        match (da, db) {
            (Some(d1), Some(d2)) => {
                match dc {
                    Some(d3) => {
                        lemma_pre_seq_lt_trans(a.skip(d1 + 1), b.skip(d2 + 1), c.skip(d3 + 1));
                    },
                    None => {
                        assert(!spec_pre_seq_lt(b, c));
                    },
                }
            },
            (None, Some(_)) => {
            },
            (None, None) => {
                assert(!spec_pre_seq_lt(a, b));
            },
            (Some(_), None) => {
                assert(!spec_pre_seq_lt(a, b));
            },
        }
    } else if ia == ib {
        assert(spec_ident_lt(ib, ic));
        lemma_ident_lt_strict(ia, ic);
    } else if ib == ic {
        assert(spec_ident_lt(ia, ib));
        lemma_ident_lt_strict(ia, ic);
    } else {
        assert(spec_ident_lt(ia, ib));
        assert(spec_ident_lt(ib, ic));
        lemma_ident_lt_trans(ia, ib, ic);
        lemma_ident_lt_strict(ia, ic);
    }
}

/// Semver precedence is transitive.
pub proof fn lemma_version_lt_trans(a: Version, b: Version, c: Version)
    requires
        spec_version_lt(a, b),
        spec_version_lt(b, c),
    ensures
        spec_version_lt(a, c),
{
    if a.major == c.major && a.minor == c.minor && a.patch == c.patch {
        if a.major == b.major && a.minor == b.minor && a.patch == b.patch {
            assert(spec_pre_lt(a.pre@, b.pre@));
            assert(spec_pre_lt(b.pre@, c.pre@));
            assert(a.pre@.len() > 0);
            assert(b.pre@.len() > 0);
            if c.pre@.len() > 0 {
                lemma_pre_seq_lt_trans(a.pre@, b.pre@, c.pre@);
            }
        }
    }
}

} // verus!
