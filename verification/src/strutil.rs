//! Verified helpers over `&str` and `String`, specified against `Seq<char>` views.

use vstd::prelude::*;

verus! {

/// `p` is a prefix of `s`, character for character.
pub open spec fn str_prefix_of(p: Seq<char>, s: Seq<char>) -> bool {
    p.len() <= s.len() && forall|i: int| 0 <= i < p.len() ==> s[i] == p[i]
}

/// First index `i >= from` with `s[i] == c`, if any.
pub open spec fn spec_find_char_from(s: Seq<char>, c: char, from: int) -> Option<int>
    decreases s.len() - from,
{
    if from < 0 || from >= s.len() {
        None
    } else if s[from] == c {
        Some(from)
    } else {
        spec_find_char_from(s, c, from + 1)
    }
}

pub proof fn lemma_find_char_from_props(s: Seq<char>, c: char, from: int)
    requires
        0 <= from,
    ensures
        match spec_find_char_from(s, c, from) {
            Some(i) => from <= i < s.len() && s[i] == c && forall|j: int|
                from <= j < i ==> s[j] != c,
            None => forall|j: int| from <= j < s.len() ==> s[j] != c,
        },
    decreases s.len() - from,
{
    if from < s.len() && s[from] != c {
        lemma_find_char_from_props(s, c, from + 1);
    }
}

/// First index `i >= from` with `s[i] == '/'` and `s[i + 1] == '/'`, if any.
pub open spec fn spec_find_double_slash(s: Seq<char>, from: int) -> Option<int>
    decreases s.len() - from,
{
    if from < 0 || from + 1 >= s.len() {
        None
    } else if s[from] == '/' && s[from + 1] == '/' {
        Some(from)
    } else {
        spec_find_double_slash(s, from + 1)
    }
}

pub proof fn lemma_find_double_slash_props(s: Seq<char>, from: int)
    requires
        0 <= from,
    ensures
        match spec_find_double_slash(s, from) {
            Some(i) => from <= i && i + 1 < s.len() && s[i] == '/' && s[i + 1] == '/'
                && forall|j: int| from <= j < i ==> !(#[trigger] s[j] == '/' && s[j + 1] == '/'),
            None => forall|j: int| from <= j && j + 1 < s.len() ==> !(#[trigger] s[j] == '/'
                && s[j + 1] == '/'),
        },
    decreases s.len() - from,
{
    if from + 1 < s.len() && !(s[from] == '/' && s[from + 1] == '/') {
        lemma_find_double_slash_props(s, from + 1);
    }
}

/// Characters treated as blank by [`str_trim`].
pub open spec fn is_space(c: char) -> bool {
    c == ' ' || c == '\t' || c == '\r' || c == '\n'
}

pub fn str_eq(a: &str, b: &str) -> (r: bool)
    ensures
        r == (a@ == b@),
{
    let alen = a.unicode_len();
    let blen = b.unicode_len();
    if alen != blen {
        return false;
    }
    let mut i: usize = 0;
    while i < alen
        invariant
            alen == a@.len(),
            alen == b@.len(),
            0 <= i <= alen,
            forall|j: int| 0 <= j < i ==> a@[j] == b@[j],
        decreases alen - i,
    {
        if a.get_char(i) != b.get_char(i) {
            return false;
        }
        i += 1;
    }
    proof {
        assert(a@ =~= b@);
    }
    true
}

pub fn str_starts_with(s: &str, p: &str) -> (r: bool)
    ensures
        r == str_prefix_of(p@, s@),
{
    let plen = p.unicode_len();
    let slen = s.unicode_len();
    if plen > slen {
        return false;
    }
    let mut i: usize = 0;
    while i < plen
        invariant
            plen == p@.len(),
            slen == s@.len(),
            plen <= slen,
            0 <= i <= plen,
            forall|j: int| 0 <= j < i ==> s@[j] == p@[j],
        decreases plen - i,
    {
        if s.get_char(i) != p.get_char(i) {
            return false;
        }
        i += 1;
    }
    true
}

pub fn find_char_from(s: &str, c: char, from: usize) -> (r: Option<usize>)
    ensures
        match r {
            Some(i) => from <= i && Some(i as int) == spec_find_char_from(s@, c, from as int),
            None => spec_find_char_from(s@, c, from as int) is None,
        },
{
    let len = s.unicode_len();
    let mut i: usize = from;
    while i < len
        invariant
            len == s@.len(),
            from <= i,
            spec_find_char_from(s@, c, from as int) == spec_find_char_from(s@, c, i as int),
        decreases len - i,
    {
        if s.get_char(i) == c {
            return Some(i);
        }
        i += 1;
    }
    None
}

pub fn find_char(s: &str, c: char) -> (r: Option<usize>)
    ensures
        match r {
            Some(i) => Some(i as int) == spec_find_char_from(s@, c, 0),
            None => spec_find_char_from(s@, c, 0) is None,
        },
{
    find_char_from(s, c, 0)
}

pub fn find_double_slash(s: &str) -> (r: Option<usize>)
    ensures
        match r {
            Some(i) => Some(i as int) == spec_find_double_slash(s@, 0),
            None => spec_find_double_slash(s@, 0) is None,
        },
{
    let len = s.unicode_len();
    if len == 0 {
        return None;
    }
    let mut i: usize = 0;
    while i < len - 1
        invariant
            len == s@.len(),
            len >= 1,
            0 <= i <= len,
            spec_find_double_slash(s@, 0) == spec_find_double_slash(s@, i as int),
        decreases len - i,
    {
        if s.get_char(i) == '/' && s.get_char(i + 1) == '/' {
            return Some(i);
        }
        i += 1;
    }
    None
}

/// `s` with leading and trailing blank characters removed.
pub open spec fn spec_trim(s: Seq<char>) -> Seq<char>
    decreases s.len(),
{
    if s.len() == 0 {
        s
    } else if is_space(s[0]) {
        spec_trim(s.skip(1))
    } else if is_space(s[s.len() - 1]) {
        spec_trim(s.take(s.len() - 1))
    } else {
        s
    }
}

#[verifier::rlimit(30)]
pub fn str_trim(s: &str) -> (r: &str)
    ensures
        r@ == spec_trim(s@),
{
    let len = s.unicode_len();
    proof {
        assert(s@.skip(0) =~= s@);
    }
    let mut lo: usize = 0;
    while lo < len && is_space_exec(s.get_char(lo))
        invariant
            len == s@.len(),
            0 <= lo <= len,
            spec_trim(s@) == spec_trim(s@.skip(lo as int)),
        decreases len - lo,
    {
        proof {
            assert(s@.skip(lo as int).skip(1) =~= s@.skip(lo + 1));
        }
        lo += 1;
    }
    proof {
        assert(s@.skip(lo as int).take(len - lo) =~= s@.skip(lo as int));
    }
    let mut hi: usize = len;
    while hi > lo && is_space_exec(s.get_char(hi - 1))
        invariant
            len == s@.len(),
            0 <= lo <= hi <= len,
            lo < len ==> !is_space(s@[lo as int]),
            spec_trim(s@) == spec_trim(s@.skip(lo as int).take(hi - lo)),
        decreases hi,
    {
        proof {
            let cur = s@.skip(lo as int).take(hi - lo);
            assert(cur.len() > 0);
            assert(cur[0] == s@[lo as int]);
            assert(cur[cur.len() - 1] == s@[hi - 1]);
            assert(cur.take(cur.len() - 1) =~= s@.skip(lo as int).take(hi - 1 - lo));
        }
        hi -= 1;
    }
    let r = s.substring_char(lo, hi);
    proof {
        let cur = s@.skip(lo as int).take(hi - lo);
        assert(cur =~= s@.subrange(lo as int, hi as int));
        if lo < hi {
            assert(!is_space(cur[0]));
            assert(!is_space(cur[cur.len() - 1]));
        }
    }
    r
}

pub fn is_space_exec(c: char) -> (r: bool)
    ensures
        r == is_space(c),
{
    c == ' ' || c == '\t' || c == '\r' || c == '\n'
}

} // verus!

verus! {

/// The decimal digit character for `d`.
pub open spec fn spec_digit(d: nat) -> char {
    if d == 0 { '0' } else if d == 1 { '1' } else if d == 2 { '2' } else if d == 3 { '3' }
    else if d == 4 { '4' } else if d == 5 { '5' } else if d == 6 { '6' } else if d == 7 { '7' }
    else if d == 8 { '8' } else { '9' }
}

/// The decimal rendering of `n`, most significant digit first, no leading zeros.
pub open spec fn spec_u64_dec(n: nat) -> Seq<char>
    decreases n,
{
    if n < 10 {
        seq![spec_digit(n)]
    } else {
        spec_u64_dec(n / 10) + seq![spec_digit(n % 10)]
    }
}

fn digit_str(d: u64) -> (r: &'static str)
    requires
        d < 10,
    ensures
        r@ == seq![spec_digit(d as nat)],
{
    proof {
        reveal_strlit("0");
        reveal_strlit("1");
        reveal_strlit("2");
        reveal_strlit("3");
        reveal_strlit("4");
        reveal_strlit("5");
        reveal_strlit("6");
        reveal_strlit("7");
        reveal_strlit("8");
        reveal_strlit("9");
    }
    let r = if d == 0 { "0" } else if d == 1 { "1" } else if d == 2 { "2" } else if d == 3 {
        "3"
    } else if d == 4 { "4" } else if d == 5 { "5" } else if d == 6 { "6" } else if d == 7 {
        "7"
    } else if d == 8 { "8" } else { "9" };
    proof {
        assert(r@ =~= seq![spec_digit(d as nat)]);
    }
    r
}

pub fn u64_to_dec(n: u64) -> (r: String)
    ensures
        r@ == spec_u64_dec(n as nat),
    decreases n,
{
    if n < 10 {
        digit_str(n).to_owned()
    } else {
        let mut r = u64_to_dec(n / 10);
        r.append(digit_str(n % 10));
        r
    }
}

/// The lines of `s`, split on `'\n'`, each with a trailing `'\r'` removed;
/// a trailing newline adds no empty final line.
pub open spec fn spec_lines(s: Seq<char>) -> Seq<Seq<char>>
    decreases s.len(),
    via spec_lines_decreases
{
    if s.len() == 0 {
        Seq::empty()
    } else {
        match spec_find_char_from(s, '\n', 0) {
            Some(i) => seq![spec_strip_cr(s.take(i))] + spec_lines(s.skip(i + 1)),
            None => seq![spec_strip_cr(s)],
        }
    }
}

#[via_fn]
proof fn spec_lines_decreases(s: Seq<char>) {
    if s.len() != 0 {
        lemma_find_char_from_props(s, '\n', 0);
    }
}

/// `s` with one trailing `'\r'` removed, if present.
pub open spec fn spec_strip_cr(s: Seq<char>) -> Seq<char> {
    if s.len() > 0 && s[s.len() - 1] == '\r' {
        s.take(s.len() - 1)
    } else {
        s
    }
}

fn strip_cr(s: &str) -> (r: &str)
    ensures
        r@ == spec_strip_cr(s@),
{
    let len = s.unicode_len();
    if len > 0 && s.get_char(len - 1) == '\r' {
        let r = s.substring_char(0, len - 1);
        proof {
            assert(r@ =~= spec_strip_cr(s@));
        }
        r
    } else {
        s
    }
}

pub fn split_lines(s: &str) -> (r: Vec<String>)
    ensures
        r.deep_view() == spec_lines(s@),
{
    let mut r: Vec<String> = Vec::new();
    let len = s.unicode_len();
    let mut pos: usize = 0;
    proof {
        assert(s@.skip(0) =~= s@);
    }
    while pos < len
        invariant
            len == s@.len(),
            0 <= pos <= len,
            r.deep_view() + spec_lines(s@.skip(pos as int)) == spec_lines(s@),
        decreases len - pos,
    {
        let ghost rest = s@.skip(pos as int);
        let next = match find_char_from(s, '\n', pos) {
            Some(i) => i,
            None => len,
        };
        proof {
            lemma_find_char_from_props(s@, '\n', pos as int);
            lemma_find_from_skip(s@, '\n', pos as int);
        }
        let line = strip_cr(s.substring_char(pos, next));
        r.push(line.to_owned());
        proof {
            if next < len {
                assert(rest.take(next - pos) =~= s@.subrange(pos as int, next as int));
                assert(rest.skip(next - pos + 1) =~= s@.skip(next + 1));
            } else {
                assert(rest =~= s@.subrange(pos as int, next as int));
            }
            assert(s@.skip(len as int) =~= Seq::<char>::empty());
        }
        pos = if next < len {
            next + 1
        } else {
            len
        };
    }
    proof {
        assert(s@.skip(len as int) =~= Seq::<char>::empty());
        assert(r.deep_view() =~= spec_lines(s@));
    }
    r
}

/// Finding `c` in `s` from `from` mirrors finding it in `s.skip(from)` from 0.
pub proof fn lemma_find_from_skip(s: Seq<char>, c: char, from: int)
    requires
        0 <= from <= s.len(),
    ensures
        match spec_find_char_from(s, c, from) {
            Some(i) => spec_find_char_from(s.skip(from), c, 0) == Some(i - from),
            None => spec_find_char_from(s.skip(from), c, 0) is None,
        },
{
    lemma_find_from_skip_aux(s, c, from, from);
}

proof fn lemma_find_from_skip_aux(s: Seq<char>, c: char, base: int, from: int)
    requires
        0 <= base <= from <= s.len(),
    ensures
        match spec_find_char_from(s, c, from) {
            Some(i) => spec_find_char_from(s.skip(base), c, from - base) == Some(i - base),
            None => spec_find_char_from(s.skip(base), c, from - base) is None,
        },
    decreases s.len() - from,
{
    if from < s.len() {
        assert(s.skip(base)[from - base] == s[from]);
        if s[from] != c {
            lemma_find_from_skip_aux(s, c, base, from + 1);
        }
    }
}

/// `a` comes no later than `b` in lexicographic order by character code.
pub open spec fn spec_str_le(a: Seq<char>, b: Seq<char>) -> bool
    decreases a.len(),
{
    if a.len() == 0 {
        true
    } else if b.len() == 0 {
        false
    } else if a[0] != b[0] {
        (a[0] as u32) < (b[0] as u32)
    } else {
        spec_str_le(a.skip(1), b.skip(1))
    }
}

pub proof fn lemma_str_le_total(a: Seq<char>, b: Seq<char>)
    ensures
        spec_str_le(a, b) || spec_str_le(b, a),
        spec_str_le(a, b) && spec_str_le(b, a) ==> a == b,
    decreases a.len(),
{
    if a.len() == 0 {
        assert(spec_str_le(a, b));
        if spec_str_le(b, a) {
            assert(b.len() == 0);
            assert(a =~= b);
        }
    } else if b.len() == 0 {
        assert(spec_str_le(b, a));
        assert(!spec_str_le(a, b));
    } else if a[0] != b[0] {
        assert((a[0] as u32) != (b[0] as u32)) by {
            if (a[0] as u32) == (b[0] as u32) {
                vstd::utf8::char_u32_cast(a[0], a[0] as u32);
                vstd::utf8::char_u32_cast(b[0], b[0] as u32);
            }
        }
        assert(spec_str_le(a, b) || spec_str_le(b, a));
        assert(!(spec_str_le(a, b) && spec_str_le(b, a)));
    } else {
        lemma_str_le_total(a.skip(1), b.skip(1));
        if spec_str_le(a, b) && spec_str_le(b, a) {
            assert(a.skip(1) == b.skip(1));
            assert(a =~= seq![a[0]] + a.skip(1));
            assert(b =~= seq![b[0]] + b.skip(1));
            assert(a == b);
        }
    }
}

pub fn str_le(a: &str, b: &str) -> (r: bool)
    ensures
        r == spec_str_le(a@, b@),
{
    let alen = a.unicode_len();
    let blen = b.unicode_len();
    let mut i: usize = 0;
    proof {
        assert(a@.skip(0) =~= a@);
        assert(b@.skip(0) =~= b@);
    }
    loop
        invariant
            alen == a@.len(),
            blen == b@.len(),
            0 <= i <= alen,
            i <= blen,
            spec_str_le(a@, b@) == spec_str_le(a@.skip(i as int), b@.skip(i as int)),
        decreases alen - i,
    {
        if i >= alen {
            return true;
        }
        if i >= blen {
            return false;
        }
        let ca = a.get_char(i);
        let cb = b.get_char(i);
        if ca != cb {
            return (ca as u32) < (cb as u32);
        }
        proof {
            assert(a@.skip(i as int).skip(1) =~= a@.skip(i + 1));
            assert(b@.skip(i as int).skip(1) =~= b@.skip(i + 1));
        }
        i += 1;
    }
}

} // verus!

verus! {

pub proof fn lemma_str_le_trans(a: Seq<char>, b: Seq<char>, c: Seq<char>)
    requires
        spec_str_le(a, b),
        spec_str_le(b, c),
    ensures
        spec_str_le(a, c),
    decreases a.len(),
{
    if a.len() > 0 && b.len() > 0 && c.len() > 0 {
        if a[0] == b[0] && b[0] == c[0] {
            lemma_str_le_trans(a.skip(1), b.skip(1), c.skip(1));
        } else {
            assert((a[0] as u32) <= (b[0] as u32)) by {
                if a[0] != b[0] {
                } else {
                }
            }
            assert((b[0] as u32) <= (c[0] as u32));
            if a[0] != c[0] {
                assert((a[0] as u32) != (c[0] as u32)) by {
                    if (a[0] as u32) == (c[0] as u32) {
                        vstd::utf8::char_u32_cast(a[0], a[0] as u32);
                        vstd::utf8::char_u32_cast(c[0], c[0] as u32);
                    }
                }
            } else {
                assert((a[0] as u32) == (c[0] as u32));
                assert(a[0] == b[0] || (a[0] as u32) < (b[0] as u32));
                assert(b[0] == c[0] || (b[0] as u32) < (c[0] as u32));
                assert(false);
            }
        }
    }
}

} // verus!
