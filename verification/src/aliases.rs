//! Shared alias rules for third-party crates: one alias per crate name,
//! pointing at the newest version that any first-party package depends on.

use vstd::prelude::*;

use crate::classify::{ctx_rewrite, spec_ctx_rewrite};
use crate::model::{Assoc, BuckalContext};
use crate::rules::Alias;
use crate::strmap::{keys_contain, strset_single};
use crate::strutil::{lemma_str_le_total, lemma_str_le_trans, spec_str_le, str_le};
use crate::version::{spec_version_chars, spec_version_lt, Version};

verus! {

/// A third-party crate of this name and version is depended on by some
/// first-party package of the graph.
pub open spec fn spec_is_candidate(
    ctx: BuckalContext,
    name: Seq<char>,
    v: Version,
) -> bool {
    exists|id: Seq<char>, di: int|
        {
            &&& #[trigger] ctx.packages_map@.contains_key(id)
            &&& ctx.packages_map@[id].source is None
            &&& ctx.nodes_map@.contains_key(id)
            &&& 0 <= di < ctx.nodes_map@[id].deps@.len()
            &&& {
                let dep = #[trigger] ctx.nodes_map@[id].deps@[di];
                &&& ctx.packages_map@.contains_key(dep.pkg@)
                &&& ctx.packages_map@[dep.pkg@].source is Some
                &&& ctx.packages_map@[dep.pkg@].name@ == name
                &&& ctx.packages_map@[dep.pkg@].version == v
            }
        }
}

/// The versioned label an alias points at.
pub open spec fn spec_tp_label(name: Seq<char>, v: Version) -> Seq<char> {
    "//third-party/rust/crates/"@ + name + "/"@ + spec_version_chars(v) + ":"@ + name
}

/// One emitted alias: publicly visible, named after a crate some first-party
/// package depends on, and pointing at the rewritten versioned rule of a
/// newest such version.
pub open spec fn spec_alias_ok(a: Alias, ctx: BuckalContext, file: Seq<char>) -> bool {
    &&& a.visibility.wf()
    &&& a.visibility@ == Set::<Seq<char>>::empty().insert("PUBLIC"@)
    &&& exists|v: Version|
        {
            &&& #[trigger] spec_is_candidate(ctx, a.name@, v)
            &&& (forall|w: Version| #[trigger] spec_is_candidate(ctx, a.name@, w)
                ==> !spec_version_lt(v, w))
            &&& a.actual@ == spec_ctx_rewrite(spec_tp_label(a.name@, v), ctx, file)
        }
}

/// Collect every (name, version) dependency of first-party packages, in
/// traversal order.
fn collect_candidates(ctx: &BuckalContext) -> (r: Vec<(String, Version)>)
    requires
        ctx.wf(),
    ensures
        forall|k: int| 0 <= k < r@.len() ==> #[trigger] spec_is_candidate(
            *ctx,
            r@[k].0@,
            r@[k].1,
        ),
        forall|name: Seq<char>, v: Version| #[trigger] spec_is_candidate(*ctx, name, v)
            ==> exists|k: int| 0 <= k < r@.len() && (#[trigger] r@[k].0)@ == name && r@[k].1
            == v,
{
    let mut cands: Vec<(String, Version)> = Vec::new();
    let n = ctx.packages_map.len();
    let ghost keys = ctx.packages_map.spec_keys();
    proof {
        ctx.packages_map.lemma_view();
    }
    let mut i: usize = 0;
    while i < n
        invariant
            ctx.wf(),
            n == keys.len(),
            keys == ctx.packages_map.spec_keys(),
            0 <= i <= n,
            forall|k: Seq<char>| ctx.packages_map@.contains_key(k)
                <==> crate::strmap::keys_contain(keys, k),
            forall|k: int| 0 <= k < cands@.len() ==> #[trigger] spec_is_candidate(
                *ctx,
                cands@[k].0@,
                cands@[k].1,
            ),
            forall|pi: int, di: int|
                0 <= pi < i && spec_cand_cell(*ctx, keys, pi, di) ==> exists|k: int|
                    0 <= k < cands@.len() && (#[trigger] cands@[k].0)@ == spec_cand_name(
                        *ctx,
                        keys,
                        pi,
                        di,
                    ) && cands@[k].1 == spec_cand_version(*ctx, keys, pi, di),
        decreases n - i,
    {
        let id = ctx.packages_map.key_at(i);
        let pkg = match ctx.packages_map.get(id.as_str()) {
            Some(p) => p,
            None => {
                proof {
                    assert(false);
                }
                return cands;
            },
        };
        if pkg.source.is_none() {
            match ctx.nodes_map.get(id.as_str()) {
                None => {},
                Some(node) => {
                    let m = node.deps.len();
                    let mut j: usize = 0;
                    while j < m
                        invariant
                            ctx.wf(),
                            n == keys.len(),
                            keys == ctx.packages_map.spec_keys(),
                            0 <= i < n,
                            0 <= j <= m,
                            id@ == keys[i as int],
                            ctx.packages_map@.contains_key(id@),
                            *pkg == ctx.packages_map@[id@],
                            pkg.source is None,
                            ctx.nodes_map@.contains_key(id@),
                            *node == ctx.nodes_map@[id@],
                            m == node.deps@.len(),
                            forall|k: Seq<char>| ctx.packages_map@.contains_key(k)
                                <==> crate::strmap::keys_contain(keys, k),
                            forall|k: int| 0 <= k < cands@.len()
                                ==> #[trigger] spec_is_candidate(
                                *ctx,
                                cands@[k].0@,
                                cands@[k].1,
                            ),
                            forall|pi: int, di: int|
                                (0 <= pi < i || (pi == i && 0 <= di < j)) && spec_cand_cell(
                                    *ctx,
                                    keys,
                                    pi,
                                    di,
                                ) ==> exists|k: int|
                                    0 <= k < cands@.len() && (#[trigger] cands@[k].0)@
                                        == spec_cand_name(*ctx, keys, pi, di) && cands@[k].1
                                        == spec_cand_version(*ctx, keys, pi, di),
                        decreases m - j,
                    {
                        let ghost old_cands = cands@;
                        let dep = &node.deps[j];
                        match ctx.packages_map.get(dep.pkg.as_str()) {
                            None => {},
                            Some(dep_pkg) => {
                                if dep_pkg.source.is_some() {
                                    cands.push((dep_pkg.name.clone(), dep_pkg.version.clone()));
                                    proof {
                                        assert(spec_is_candidate(
                                            *ctx,
                                            cands@[cands@.len() - 1].0@,
                                            cands@[cands@.len() - 1].1,
                                        )) by {
                                            assert(ctx.packages_map@.contains_key(id@)
                                                && ctx.packages_map@[id@].source is None
                                                && ctx.nodes_map@.contains_key(id@) && 0 <= (
                                            j as int) < ctx.nodes_map@[id@].deps@.len() && {
                                                let d = ctx.nodes_map@[id@].deps@[j as int];
                                                ctx.packages_map@.contains_key(d.pkg@)
                                                    && ctx.packages_map@[d.pkg@].source
                                                    is Some && ctx.packages_map@[
                                                d.pkg@].name@ == cands@[cands@.len() - 1].0@
                                                    && ctx.packages_map@[d.pkg@].version
                                                    == cands@[cands@.len() - 1].1
                                            });
                                        }
                                    }
                                }
                            },
                        }
                        proof {
                            assert forall|pi: int, di: int|
                                (0 <= pi < i || (pi == i && 0 <= di < j + 1))
                                    && spec_cand_cell(*ctx, keys, pi, di) implies exists|
                                k: int,
                            |
                                    0 <= k < cands@.len() && (#[trigger] cands@[k].0)@
                                        == spec_cand_name(*ctx, keys, pi, di) && cands@[k].1
                                        == spec_cand_version(*ctx, keys, pi, di) by {
                                if pi < i || di < j {
                                    let k = choose|k: int|
                                        0 <= k < old_cands.len() && (
                                        #[trigger] old_cands[k].0)@ == spec_cand_name(
                                            *ctx,
                                            keys,
                                            pi,
                                            di,
                                        ) && old_cands[k].1 == spec_cand_version(
                                            *ctx,
                                            keys,
                                            pi,
                                            di,
                                        );
                                    assert(cands@[k] == old_cands[k]);
                                } else {
                                    assert(cands@[cands@.len() - 1].0@ == spec_cand_name(
                                        *ctx,
                                        keys,
                                        pi,
                                        di,
                                    ) && cands@[cands@.len() - 1].1 == spec_cand_version(
                                        *ctx,
                                        keys,
                                        pi,
                                        di,
                                    ));
                                }
                            }
                        }
                        j += 1;
                    }
                },
            }
        }
        i += 1;
    }
    proof {
        assert forall|name: Seq<char>, v: Version| #[trigger] spec_is_candidate(
            *ctx,
            name,
            v,
        ) implies exists|k: int|
            0 <= k < cands@.len() && (#[trigger] cands@[k].0)@ == name && cands@[k].1
                == v by {
            let (id, di) = choose|id: Seq<char>, di: int|
                {
                    &&& #[trigger] ctx.packages_map@.contains_key(id)
                    &&& ctx.packages_map@[id].source is None
                    &&& ctx.nodes_map@.contains_key(id)
                    &&& 0 <= di < ctx.nodes_map@[id].deps@.len()
                    &&& {
                        let dep = #[trigger] ctx.nodes_map@[id].deps@[di];
                        &&& ctx.packages_map@.contains_key(dep.pkg@)
                        &&& ctx.packages_map@[dep.pkg@].source is Some
                        &&& ctx.packages_map@[dep.pkg@].name@ == name
                        &&& ctx.packages_map@[dep.pkg@].version == v
                    }
                };
            assert(crate::strmap::keys_contain(keys, id));
            let pi = choose|pi: int| 0 <= pi < keys.len() && keys[pi] == id;
            assert(spec_cand_cell(*ctx, keys, pi, di));
            assert(spec_cand_name(*ctx, keys, pi, di) == name);
            assert(spec_cand_version(*ctx, keys, pi, di) == v);
        }
    }
    cands
}

/// The traversal cell (package index, edge index) names a third-party
/// dependency of a first-party package.
pub open spec fn spec_cand_cell(
    ctx: BuckalContext,
    keys: Seq<Seq<char>>,
    pi: int,
    di: int,
) -> bool {
    &&& 0 <= pi < keys.len()
    &&& ctx.packages_map@.contains_key(keys[pi])
    &&& ctx.packages_map@[keys[pi]].source is None
    &&& ctx.nodes_map@.contains_key(keys[pi])
    &&& 0 <= di < ctx.nodes_map@[keys[pi]].deps@.len()
    &&& ctx.packages_map@.contains_key(ctx.nodes_map@[keys[pi]].deps@[di].pkg@)
    &&& ctx.packages_map@[ctx.nodes_map@[keys[pi]].deps@[di].pkg@].source is Some
}

pub open spec fn spec_cand_name(
    ctx: BuckalContext,
    keys: Seq<Seq<char>>,
    pi: int,
    di: int,
) -> Seq<char> {
    ctx.packages_map@[ctx.nodes_map@[keys[pi]].deps@[di].pkg@].name@
}

pub open spec fn spec_cand_version(
    ctx: BuckalContext,
    keys: Seq<Seq<char>>,
    pi: int,
    di: int,
) -> Version {
    ctx.packages_map@[ctx.nodes_map@[keys[pi]].deps@[di].pkg@].version
}

/// Names in strictly increasing lexicographic order.
pub open spec fn spec_sorted_names(s: Seq<Seq<char>>) -> bool {
    forall|i: int, j: int|
        0 <= i < j < s.len() ==> spec_str_le(#[trigger] s[i], #[trigger] s[j]) && s[i] != s[j]
}

/// Insert a fresh name at its place in a strictly sorted list.
fn insert_sorted(names: &mut Vec<String>, name: String)
    requires
        spec_sorted_names(old(names).deep_view()),
        !keys_contain(old(names).deep_view(), name@),
    ensures
        spec_sorted_names(final(names).deep_view()),
        final(names)@.len() == old(names)@.len() + 1,
        forall|q: Seq<char>| #[trigger] keys_contain(final(names).deep_view(), q) <==> (
        keys_contain(old(names).deep_view(), q) || q == name@),
{
    let ghost olds = names.deep_view();
    let n = names.len();
    proof {
        assert(olds.len() == names@.len());
    }
    let mut pos: usize = 0;
    while pos < n && !str_le(name.as_str(), names[pos].as_str())
        invariant
            n == names@.len(),
            olds == names.deep_view(),
            olds.len() == n,
            0 <= pos <= n,
            forall|j: int| 0 <= j < pos ==> !spec_str_le(name@, #[trigger] olds[j]),
        decreases n - pos,
    {
        proof {
            assert(olds[pos as int] == names@[pos as int]@);
        }
        pos += 1;
    }
    proof {
        if pos < n {
            assert(olds[pos as int] == names@[pos as int]@);
        }
    }
    names.insert(pos, name);
    proof {
        let news = names.deep_view();
        assert(news =~= olds.insert(pos as int, name@));
        assert(forall|x: int| 0 <= x < olds.len() ==> olds[x] != name@) by {
            assert(!keys_contain(olds, name@));
        }
        assert forall|i: int, j: int| 0 <= i < j < news.len() implies spec_str_le(
            #[trigger] news[i],
            #[trigger] news[j],
        ) && news[i] != news[j] by {
            if i < pos && j < pos {
            } else if i < pos && j == pos {
                assert(news[i] == olds[i]);
                assert(news[j] == name@);
                lemma_str_le_total(name@, olds[i]);
            } else if i < pos && j > pos {
                assert(news[i] == olds[i]);
                assert(news[j] == olds[j - 1]);
            } else if i == pos && j > pos {
                assert(news[i] == name@);
                assert(news[j] == olds[j - 1]);
                assert(pos < n);
                assert(spec_str_le(name@, olds[pos as int]));
                if j - 1 > pos {
                    assert(spec_str_le(olds[pos as int], olds[j - 1]));
                    lemma_str_le_trans(name@, olds[pos as int], olds[j - 1]);
                }
            } else {
                assert(news[i] == olds[i - 1]);
                assert(news[j] == olds[j - 1]);
            }
        }
        assert forall|q: Seq<char>| true implies (#[trigger] keys_contain(news, q) == (
        keys_contain(olds, q) || q == name@)) by {
            if keys_contain(news, q) {
                let a = choose|a: int| 0 <= a < news.len() && news[a] == q;
                if a < pos {
                    assert(olds[a] == q);
                    assert(keys_contain(olds, q));
                } else if a == pos {
                    assert(q == name@);
                } else {
                    assert(olds[a - 1] == q);
                    assert(keys_contain(olds, q));
                }
            }
            if q == name@ {
                assert(news[pos as int] == q);
                assert(keys_contain(news, q));
            }
            if keys_contain(olds, q) {
                let a = choose|a: int| 0 <= a < olds.len() && olds[a] == q;
                if a < pos {
                    assert(news[a] == q);
                } else {
                    assert(news[a + 1] == q);
                }
                assert(keys_contain(news, q));
            }
        }
    }
}

/// The names a version table holds, in strictly increasing order.
fn sorted_names(best: &Assoc<Version>) -> (r: Vec<String>)
    requires
        best.wf(),
    ensures
        spec_sorted_names(r.deep_view()),
        r@.len() == best.spec_keys().len(),
        forall|q: Seq<char>| #[trigger] keys_contain(r.deep_view(), q) <==> best@.contains_key(
            q,
        ),
{
    proof {
        best.lemma_view();
        best.lemma_keys_unique_assoc();
    }
    let ghost bkeys = best.spec_keys();
    let mut names: Vec<String> = Vec::new();
    let bn = best.len();
    proof {
        assert(names.deep_view() =~= Seq::<Seq<char>>::empty());
        assert(bkeys.take(0) =~= Seq::<Seq<char>>::empty());
    }
    let mut bi: usize = 0;
    while bi < bn
        invariant
            best.wf(),
            bkeys == best.spec_keys(),
            bn == bkeys.len(),
            0 <= bi <= bn,
            forall|a: int, b: int| 0 <= a < b < bkeys.len() ==> bkeys[a] != bkeys[b],
            forall|k: Seq<char>| best@.contains_key(k) <==> keys_contain(bkeys, k),
            spec_sorted_names(names.deep_view()),
            names@.len() == bi,
            forall|q: Seq<char>| #[trigger] keys_contain(names.deep_view(), q)
                <==> keys_contain(bkeys.take(bi as int), q),
        decreases bn - bi,
    {
        let name = best.key_at(bi).clone();
        proof {
            assert(!keys_contain(names.deep_view(), name@)) by {
                if keys_contain(names.deep_view(), name@) {
                    assert(keys_contain(bkeys.take(bi as int), name@));
                    let a = choose|a: int|
                        0 <= a < bkeys.take(bi as int).len() && bkeys.take(bi as int)[a]
                            == name@;
                    assert(bkeys[a] == name@);
                    assert(bkeys[bi as int] == name@);
                    assert(false);
                }
            }
        }
        let ghost pre = names.deep_view();
        insert_sorted(&mut names, name);
        proof {
            assert forall|q: Seq<char>| true implies (#[trigger] keys_contain(
                names.deep_view(),
                q,
            ) == keys_contain(bkeys.take(bi + 1), q)) by {
                assert(keys_contain(names.deep_view(), q) == (keys_contain(pre, q) || q
                    == bkeys[bi as int]));
                if keys_contain(bkeys.take(bi + 1), q) {
                    let a = choose|a: int|
                        0 <= a < bkeys.take(bi + 1).len() && #[trigger] bkeys.take(
                            bi + 1,
                        )[a] == q;
                    if a < bi {
                        assert(bkeys.take(bi as int)[a] == q);
                        assert(keys_contain(bkeys.take(bi as int), q));
                    } else {
                        assert(q == bkeys[bi as int]);
                    }
                }
                if keys_contain(bkeys.take(bi as int), q) {
                    let a = choose|a: int|
                        0 <= a < bkeys.take(bi as int).len() && #[trigger] bkeys.take(
                            bi as int,
                        )[a] == q;
                    assert(bkeys.take(bi + 1)[a] == q);
                    assert(keys_contain(bkeys.take(bi + 1), q));
                }
                if q == bkeys[bi as int] {
                    assert(bkeys.take(bi + 1)[bi as int] == q);
                    assert(keys_contain(bkeys.take(bi + 1), q));
                }
            }
        }
        bi += 1;
    }
    proof {
        assert(bkeys.take(bn as int) =~= bkeys);
    }
    names
}

/// Generate the shared alias rules: one per third-party crate name that any
/// first-party package depends on, each pointing at a newest depended-on
/// version, with the label rewritten for the file at `buck_file`. Names come
/// out sorted, once each, so serialization order is deterministic.
pub fn generate_third_party_aliases(ctx: &BuckalContext, buck_file: &str) -> (r: Vec<Alias>)
    requires
        ctx.wf(),
    ensures
        forall|i: int| 0 <= i < r@.len() ==> spec_alias_ok(#[trigger] r@[i], *ctx, buck_file@),
        forall|name: Seq<char>, v: Version| #[trigger] spec_is_candidate(*ctx, name, v)
            ==> exists|i: int| 0 <= i < r@.len() && (#[trigger] r@[i]).name@ == name,
        forall|i: int, j: int| 0 <= i < j < r@.len() ==> (#[trigger] r@[i]).name@ != (
        #[trigger] r@[j]).name@,
        forall|i: int, j: int| 0 <= i < j < r@.len() ==> spec_str_le(
            (#[trigger] r@[i]).name@,
            (#[trigger] r@[j]).name@,
        ),
{
    let cands = collect_candidates(ctx);
    let mut best: Assoc<Version> = Assoc::new();
    let n = cands.len();
    let mut i: usize = 0;
    while i < n
        invariant
            ctx.wf(),
            n == cands@.len(),
            0 <= i <= n,
            best.wf(),
            forall|k: int| 0 <= k < cands@.len() ==> #[trigger] spec_is_candidate(
                *ctx,
                cands@[k].0@,
                cands@[k].1,
            ),
            forall|name: Seq<char>| #[trigger] best@.contains_key(name) <==> exists|k: int|
                0 <= k < i && (#[trigger] cands@[k].0)@ == name,
            forall|name: Seq<char>| #[trigger] best@.contains_key(name) ==> ((exists|k: int|
                0 <= k < i && (#[trigger] cands@[k].0)@ == name && cands@[k].1 == best@[name])
                && (forall|k: int|
                0 <= k < i && (#[trigger] cands@[k].0)@ == name ==> !spec_version_lt(
                    best@[name],
                    cands@[k].1,
                ))),
        decreases n - i,
    {
        let ghost old_best = best@;
        let name = &cands[i].0;
        let v = cands[i].1.clone();
        let replace = match best.get(name.as_str()) {
            Some(existing) => existing.lt(&v),
            None => true,
        };
        if replace {
            best.insert(name.clone(), v);
        }
        proof {
            assert forall|nm: Seq<char>| #[trigger] best@.contains_key(nm) implies ((exists|
            k: int,
            |
                0 <= k < i + 1 && (#[trigger] cands@[k].0)@ == nm && cands@[k].1 == best@[nm])
                && (forall|k: int|
                0 <= k < i + 1 && (#[trigger] cands@[k].0)@ == nm ==> !spec_version_lt(
                    best@[nm],
                    cands@[k].1,
                ))) by {
                if nm == cands@[i as int].0@ {
                    if replace {
                        assert(cands@[i as int].0@ == nm && cands@[i as int].1 == best@[nm]);
                    } else {
                        assert(old_best.contains_key(nm));
                        assert(best@[nm] == old_best[nm]);
                    }
                    assert forall|k: int|
                        0 <= k < i + 1 && (#[trigger] cands@[k].0)@ == nm
                            implies !spec_version_lt(best@[nm], cands@[k].1) by {
                        if k < i {
                            assert(old_best.contains_key(nm));
                            assert(!spec_version_lt(old_best[nm], cands@[k].1));
                            if replace {
                                assert(spec_version_lt(old_best[nm], v));
                                if spec_version_lt(v, cands@[k].1) {
                                    crate::version::lemma_version_lt_trans(
                                        old_best[nm],
                                        v,
                                        cands@[k].1,
                                    );
                                }
                            }
                        } else {
                            if replace {
                                crate::version::lemma_version_lt_irrefl(v);
                            }
                        }
                    }
                } else {
                    assert(old_best.contains_key(nm));
                    assert(best@[nm] == old_best[nm]);
                }
            }
            assert forall|nm: Seq<char>| #[trigger] best@.contains_key(nm) implies (exists|
            k: int,
            | 0 <= k < i + 1 && (#[trigger] cands@[k].0)@ == nm) by {
                if nm != cands@[i as int].0@ {
                    assert(old_best.contains_key(nm));
                }
            }
            assert forall|nm: Seq<char>|
                (exists|k: int| 0 <= k < i + 1 && (#[trigger] cands@[k].0)@ == nm)
                    implies #[trigger] best@.contains_key(nm) by {
                let k = choose|k: int| 0 <= k < i + 1 && (#[trigger] cands@[k].0)@ == nm;
                if k < i {
                    assert(old_best.contains_key(nm));
                }
            }
        }
        i += 1;
    }
    proof {
        best.lemma_view();
    }
    let names = sorted_names(&best);
    let ghost nview = names.deep_view();
    let mut out: Vec<Alias> = Vec::new();
    let on = names.len();
    proof {
        assert(nview.len() == names@.len());
    }
    let mut oi: usize = 0;
    while oi < on
        invariant
            ctx.wf(),
            best.wf(),
            on == names@.len(),
            nview == names.deep_view(),
            nview.len() == on,
            0 <= oi <= on,
            spec_sorted_names(nview),
            forall|q: Seq<char>| #[trigger] keys_contain(nview, q) <==> best@.contains_key(q),
            forall|name: Seq<char>| #[trigger] best@.contains_key(name) ==> (
            spec_is_candidate(*ctx, name, best@[name]) && (forall|w: Version|
                #[trigger] spec_is_candidate(*ctx, name, w) ==> !spec_version_lt(
                    best@[name],
                    w,
                ))),
            forall|name: Seq<char>, v: Version| #[trigger] spec_is_candidate(*ctx, name, v)
                ==> best@.contains_key(name),
            out@.len() == oi,
            forall|k: int| 0 <= k < oi ==> (#[trigger] out@[k]).name@ == nview[k],
            forall|k: int| 0 <= k < oi ==> spec_alias_ok(#[trigger] out@[k], *ctx,
                buck_file@),
        decreases on - oi,
    {
        let name = names[oi].clone();
        proof {
            assert(nview[oi as int] == names@[oi as int]@);
            assert(keys_contain(nview, nview[oi as int]));
            assert(best@.contains_key(name@));
        }
        let v = match best.get(name.as_str()) {
            Some(v) => v.clone(),
            None => {
                proof {
                    assert(false);
                }
                return out;
            },
        };
        let ver = v.render();
        let mut label = String::from_str("//third-party/rust/crates/");
        label.append(name.as_str());
        label.append("/");
        label.append(ver.as_str());
        label.append(":");
        label.append(name.as_str());
        let actual = ctx_rewrite(label.as_str(), ctx, buck_file);
        let a = Alias { name, actual, visibility: strset_single("PUBLIC".to_owned()) };
        out.push(a);
        proof {
            assert(spec_alias_ok(out@[out@.len() - 1], *ctx, buck_file@)) by {
                assert(out@[out@.len() - 1].name@ == nview[oi as int]);
                let bv = best@[out@[out@.len() - 1].name@];
                assert(spec_is_candidate(*ctx, out@[out@.len() - 1].name@, bv));
                assert(out@[out@.len() - 1].actual@ == spec_ctx_rewrite(
                    spec_tp_label(out@[out@.len() - 1].name@, bv),
                    *ctx,
                    buck_file@,
                ));
            }
        }
        oi += 1;
    }
    proof {
        assert forall|name: Seq<char>, v: Version| #[trigger] spec_is_candidate(
            *ctx,
            name,
            v,
        ) implies exists|i2: int|
            0 <= i2 < out@.len() && (#[trigger] out@[i2]).name@ == name by {
            assert(best@.contains_key(name));
            assert(keys_contain(nview, name));
            let a = choose|a: int| 0 <= a < nview.len() && nview[a] == name;
            assert(out@[a].name@ == name);
        }
    }
    out
}

} // verus!
