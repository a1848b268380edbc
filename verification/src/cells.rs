//! Cell-aware label rewriting: canonicalizing cell names through the alias
//! table and re-prefixing build-rule labels with the owning cell.

use vstd::prelude::*;

use crate::config::{spec_best_cell, spec_is_best_cell, spec_section_kv, BuckConfig};
use crate::pathutil::{
    path_has_prefix, spec_file_in_root, spec_path_has_prefix, spec_strip_path_prefix,
    file_in_root, strip_path_prefix,
};
use crate::strmap::{keys_contain, StrMap};
use crate::strutil::{
    find_char, find_double_slash, lemma_find_char_from_props, lemma_find_double_slash_props,
    spec_find_char_from, spec_find_double_slash, str_eq,
};

verus! {

/// The canonical-name table that a cell and alias map yield: every declared
/// cell names itself, and every alias whose target is a declared cell names
/// that cell. An alias shadows a cell of the same name.
pub open spec fn spec_alias_map(
    cells: Map<Seq<char>, Seq<char>>,
    aliases: Map<Seq<char>, Seq<char>>,
) -> Map<Seq<char>, Seq<char>> {
    Map::new(
        |k: Seq<char>| cells.contains_key(k) || (aliases.contains_key(k) && cells.contains_key(
            aliases[k],
        )),
        |k: Seq<char>| if aliases.contains_key(k) && cells.contains_key(aliases[k]) {
            aliases[k]
        } else {
            k
        },
    )
}

/// Build the canonical-name table for a configuration: cell names map to
/// themselves, and aliases whose target cell exists map to that cell.
/// An alias naming a missing cell is dropped.
pub fn load_cell_aliases(buckconfig: &BuckConfig) -> (r: StrMap)
    requires
        buckconfig.wf(),
    ensures
        r.wf(),
        r@ == spec_alias_map(
            spec_section_kv(buckconfig@, "cells"@),
            spec_section_kv(buckconfig@, "cell_aliases"@),
        ),
{
    let cells = buckconfig.parse_cells();
    let aliases = buckconfig.parse_cell_aliases();
    proof {
        cells.lemma_view();
        aliases.lemma_view();
    }
    let mut out = StrMap::new();
    let ghost ckeys = cells.spec_keys();
    let n = cells.len();
    let mut i: usize = 0;
    while i < n
        invariant
            cells.wf(),
            aliases.wf(),
            out.wf(),
            ckeys == cells.spec_keys(),
            n == ckeys.len(),
            0 <= i <= n,
            forall|k: Seq<char>| cells@.contains_key(k) <==> keys_contain(ckeys, k),
            out@ == Map::new(
                |k: Seq<char>| keys_contain(ckeys.take(i as int), k),
                |k: Seq<char>| k,
            ),
        decreases n - i,
    {
        let key = cells.key_at(i);
        out.insert(key.clone(), key.clone());
        proof {
            let pre = ckeys.take(i as int);
            let cur = ckeys.take(i + 1);
            assert forall|k: Seq<char>| true implies #[trigger] keys_contain(cur, k)
                == (keys_contain(pre, k) || k == ckeys[i as int]) by {
                if keys_contain(cur, k) {
                    let a = choose|a: int| 0 <= a < cur.len() && cur[a] == k;
                    if a < i {
                        assert(pre[a] == k);
                        assert(keys_contain(pre, k));
                    } else {
                        assert(k == ckeys[i as int]);
                    }
                }
                if k == ckeys[i as int] {
                    assert(cur[i as int] == k);
                    assert(keys_contain(cur, k));
                }
                if keys_contain(pre, k) {
                    let a = choose|a: int| 0 <= a < pre.len() && pre[a] == k;
                    assert(cur[a] == k);
                    assert(keys_contain(cur, k));
                }
            }
            assert(out@ =~= Map::new(
                |k: Seq<char>| keys_contain(cur, k),
                |k: Seq<char>| k,
            ));
        }
        i += 1;
    }
    proof {
        assert(ckeys.take(n as int) =~= ckeys);
    }
    let ghost akeys = aliases.spec_keys();
    let ghost cellsv = cells@;
    let ghost aliasesv = aliases@;
    proof {
        aliases.lemma_keys_unique();
    }
    let m = aliases.len();
    let mut j: usize = 0;
    while j < m
        invariant
            cells.wf(),
            aliases.wf(),
            out.wf(),
            akeys == aliases.spec_keys(),
            m == akeys.len(),
            0 <= j <= m,
            cellsv == cells@,
            aliasesv == aliases@,
            forall|k: Seq<char>| aliasesv.contains_key(k) <==> keys_contain(akeys, k),
            forall|a: int, b: int| 0 <= a < b < akeys.len() ==> akeys[a] != akeys[b],
            out@ == Map::new(
                |k: Seq<char>| cellsv.contains_key(k) || (exists|a: int|
                    0 <= a < j && #[trigger] akeys[a] == k && cellsv.contains_key(aliasesv[k])),
                |k: Seq<char>| if (exists|a: int|
                    0 <= a < j && #[trigger] akeys[a] == k) && aliasesv.contains_key(k)
                    && cellsv.contains_key(aliasesv[k]) {
                    aliasesv[k]
                } else {
                    k
                },
            ),
        decreases m - j,
    {
        let alias = aliases.key_at(j);
        let cell_name = aliases.val_at(j);
        let ghost pre = out@;
        if cells.contains_key(cell_name.as_str()) {
            out.insert(alias.clone(), cell_name.clone());
        }
        proof {
            assert(aliasesv.contains_key(akeys[j as int]));
            assert(aliasesv[akeys[j as int]] == cell_name@);
            assert(out@ =~= Map::new(
                |k: Seq<char>| cellsv.contains_key(k) || (exists|a: int|
                    0 <= a < j + 1 && #[trigger] akeys[a] == k && cellsv.contains_key(
                        aliasesv[k],
                    )),
                |k: Seq<char>| if (exists|a: int|
                    0 <= a < j + 1 && #[trigger] akeys[a] == k) && aliasesv.contains_key(k)
                    && cellsv.contains_key(aliasesv[k]) {
                    aliasesv[k]
                } else {
                    k
                },
            )) by {
                assert forall|k: Seq<char>| #![trigger aliasesv.contains_key(k)] true implies ((
                exists|a: int|
                    0 <= a < j + 1 && #[trigger] akeys[a] == k) == ((exists|a: int|
                    0 <= a < j && #[trigger] akeys[a] == k) || k == akeys[j as int])) by {
                    if exists|a: int| 0 <= a < j + 1 && #[trigger] akeys[a] == k {
                        let a = choose|a: int| 0 <= a < j + 1 && #[trigger] akeys[a] == k;
                        if a < j {
                            assert(exists|b: int| 0 <= b < j && #[trigger] akeys[b] == k);
                        } else {
                            assert(k == akeys[j as int]);
                        }
                    }
                    if k == akeys[j as int] {
                        assert(akeys[j as int] == k);
                        assert(exists|a: int| 0 <= a < j + 1 && #[trigger] akeys[a] == k);
                    }
                    if exists|a: int| 0 <= a < j && #[trigger] akeys[a] == k {
                        let a = choose|a: int| 0 <= a < j && #[trigger] akeys[a] == k;
                        assert(exists|b: int| 0 <= b < j + 1 && #[trigger] akeys[b] == k);
                    }
                }
            }
        }
        j += 1;
    }
    proof {
        assert forall|k: Seq<char>| #![trigger aliasesv.contains_key(k)] true implies ((exists|
        a: int,
        |
            0 <= a < m && #[trigger] akeys[a] == k) == aliasesv.contains_key(k)) by {
            assert(keys_contain(akeys, k) == aliasesv.contains_key(k));
        }
        assert(out@ =~= spec_alias_map(cellsv, aliasesv));
    }
    out
}

} // verus!

verus! {

/// `root` and a relative path joined with a separating slash.
pub open spec fn spec_join_path(root: Seq<char>, p: Seq<char>) -> Seq<char> {
    if p.len() == 0 {
        root
    } else {
        root + seq!['/'] + p
    }
}

/// A freshly built label body gains an `@` prefix when the declaring file is
/// not at the project root.
pub open spec fn spec_label_result(body: Seq<char>, in_root: bool) -> Seq<char> {
    if !in_root && !(body.len() > 0 && body[0] == '@') {
        seq!['@'] + body
    } else {
        body
    }
}

/// A label left as it stands: away from the root it still gains an `@` when
/// it is cell-qualified and lacks one.
pub open spec fn spec_passthrough(target: Seq<char>, in_root: bool) -> Seq<char> {
    if !in_root && !(target.len() > 0 && target[0] == '@') && spec_find_double_slash(target, 0)
        is Some && !(target.len() >= 2 && target[0] == '/' && target[1] == '/') {
        seq!['@'] + target
    } else {
        target
    }
}

/// The `path:name` tail of a label.
pub open spec fn spec_path_colon(path: Seq<char>, name: Seq<char>) -> Seq<char> {
    if path.len() == 0 {
        seq![':'] + name
    } else {
        path + seq![':'] + name
    }
}

/// The canonical rewriting of one label.
///
/// A bare label `//path:name` is resolved to its owning cell and re-emitted
/// cell-qualified with the cell's declared path stripped. A cell-qualified
/// label has its cell name canonicalized through the alias table and the
/// declared path stripped when still present. Anything else passes through.
/// Away from the project root every cell-qualified result carries an `@`.
pub open spec fn spec_rewrite(
    target: Seq<char>,
    cells: Map<Seq<char>, Seq<char>>,
    aliases: Map<Seq<char>, Seq<char>>,
    root: Seq<char>,
    in_root: bool,
) -> Seq<char> {
    if target.len() == 0 {
        target
    } else {
        match spec_find_double_slash(target, 0) {
            None => spec_passthrough(target, in_root),
            Some(sep) => {
                let before = target.take(sep);
                let after = target.skip(sep + 2);
                if before.len() == 0 {
                    spec_rewrite_bare(target, after, cells, root, in_root)
                } else {
                    spec_rewrite_qualified(target, before, after, cells, aliases, in_root)
                }
            },
        }
    }
}

pub open spec fn spec_rewrite_bare(
    target: Seq<char>,
    after: Seq<char>,
    cells: Map<Seq<char>, Seq<char>>,
    root: Seq<char>,
    in_root: bool,
) -> Seq<char> {
    match spec_find_char_from(after, ':', 0) {
        Some(colon) => {
            let path_part = after.take(colon);
            let name_part = after.skip(colon + 1);
            let rel = spec_strip_path_prefix(spec_join_path(root, path_part), root);
            match spec_best_cell(cells, rel) {
                Some(cell) => {
                    let cell_path = cells[cell];
                    let new_path = if spec_path_has_prefix(path_part, cell_path) {
                        spec_strip_path_prefix(path_part, cell_path)
                    } else {
                        path_part
                    };
                    spec_label_result(
                        cell + seq!['/', '/'] + spec_path_colon(new_path, name_part),
                        in_root,
                    )
                },
                None => spec_passthrough(target, in_root),
            }
        },
        None => spec_passthrough(target, in_root),
    }
}

pub open spec fn spec_rewrite_qualified(
    target: Seq<char>,
    before: Seq<char>,
    after: Seq<char>,
    cells: Map<Seq<char>, Seq<char>>,
    aliases: Map<Seq<char>, Seq<char>>,
    in_root: bool,
) -> Seq<char> {
    let canonical = if aliases.contains_key(before) {
        aliases[before]
    } else {
        before
    };
    if cells.contains_key(canonical) {
        match spec_find_char_from(after, ':', 0) {
            Some(colon) => {
                let path_part = after.take(colon);
                let name_part = after.skip(colon + 1);
                let cell_path = cells[canonical];
                let new_path = if spec_path_has_prefix(path_part, cell_path) {
                    spec_strip_path_prefix(path_part, cell_path)
                } else {
                    path_part
                };
                if canonical != before || new_path != path_part {
                    spec_label_result(
                        canonical + seq!['/', '/'] + spec_path_colon(new_path, name_part),
                        in_root,
                    )
                } else {
                    spec_passthrough(target, in_root)
                }
            },
            None => spec_passthrough(target, in_root),
        }
    } else if aliases.contains_key(before) {
        if canonical != before {
            spec_label_result(canonical + seq!['/', '/'] + after, in_root)
        } else {
            spec_passthrough(target, in_root)
        }
    } else {
        spec_passthrough(target, in_root)
    }
}

fn finish_label(body: String, in_root: bool) -> (r: String)
    ensures
        r@ == spec_label_result(body@, in_root),
{
    if !in_root && !(body.as_str().unicode_len() > 0 && body.as_str().get_char(0) == '@') {
        let mut r = String::from_str("@");
        r.append(body.as_str());
        proof {
            reveal_strlit("@");
            assert(("@")@ =~= seq!['@']);
        }
        r
    } else {
        body
    }
}

fn passthrough_label(target: &str, in_root: bool) -> (r: String)
    ensures
        r@ == spec_passthrough(target@, in_root),
{
    let len = target.unicode_len();
    let has_at = len > 0 && target.get_char(0) == '@';
    let has_sep = find_double_slash(target).is_some();
    let starts_sep = len >= 2 && target.get_char(0) == '/' && target.get_char(1) == '/';
    if !in_root && !has_at && has_sep && !starts_sep {
        let mut r = String::from_str("@");
        r.append(target);
        proof {
            reveal_strlit("@");
            assert(("@")@ =~= seq!['@']);
        }
        r
    } else {
        target.to_owned()
    }
}

/// Rebuild a label body `cell//path:name`.
fn build_label(cell: &str, path: &str, name: &str) -> (r: String)
    ensures
        r@ == cell@ + seq!['/', '/'] + spec_path_colon(path@, name@),
{
    let mut body = String::from_str(cell);
    body.append("//");
    if path.unicode_len() != 0 {
        body.append(path);
    }
    body.append(":");
    body.append(name);
    proof {
        reveal_strlit("//");
        reveal_strlit(":");
        assert(("//")@ =~= seq!['/', '/']);
        assert((":")@ =~= seq![':']);
        assert(body@ =~= cell@ + seq!['/', '/'] + spec_path_colon(path@, name@));
    }
    body
}

/// Rewrite one build-rule label against the configuration's cell layout.
///
/// `cell_aliases` is the canonical-name table of [`load_cell_aliases`];
/// `current_file_path` is the file the label will stand in, which decides
/// whether the result carries an `@` prefix.
pub fn rewrite_target_with_cell(
    target: &str,
    cell_aliases: &StrMap,
    buck2_root: &str,
    buckconfig: &BuckConfig,
    current_file_path: &str,
) -> (r: String)
    requires
        cell_aliases.wf(),
        buckconfig.wf(),
    ensures
        r@ == spec_rewrite(
            target@,
            spec_section_kv(buckconfig@, "cells"@),
            cell_aliases@,
            buck2_root@,
            spec_file_in_root(current_file_path@, buck2_root@),
        ),
{
    let in_root = file_in_root(current_file_path, buck2_root);
    let tlen = target.unicode_len();
    if tlen == 0 {
        return target.to_owned();
    }
    let cells = buckconfig.parse_cells();
    let sep = match find_double_slash(target) {
        Some(sep) => sep,
        None => {
            return passthrough_label(target, in_root);
        },
    };
    proof {
        lemma_find_double_slash_props(target@, 0);
    }
    let before = target.substring_char(0, sep);
    let after = target.substring_char(sep + 2, tlen);
    proof {
        assert(before@ =~= target@.take(sep as int));
        assert(after@ =~= target@.skip(sep + 2));
    }
    let alen = after.unicode_len();
    if before.unicode_len() == 0 {
        let colon = match find_char(after, ':') {
            Some(colon) => colon,
            None => {
                return passthrough_label(target, in_root);
            },
        };
        proof {
            lemma_find_char_from_props(after@, ':', 0);
        }
        let path_part = after.substring_char(0, colon);
        let name_part = after.substring_char(colon + 1, alen);
        proof {
            assert(path_part@ =~= after@.take(colon as int));
            assert(name_part@ =~= after@.skip(colon + 1));
        }
        let mut full = String::from_str(buck2_root);
        if path_part.unicode_len() != 0 {
            full.append("/");
            full.append(path_part);
        }
        proof {
            reveal_strlit("/");
            assert(("/")@ =~= seq!['/']);
            assert(full@ =~= spec_join_path(buck2_root@, path_part@));
            assert(spec_path_has_prefix(full@, buck2_root@)) by {
                if !crate::pathutil::spec_is_dot(buck2_root@) {
                    if path_part@.len() == 0 {
                    } else {
                        assert(forall|i: int| 0 <= i < buck2_root@.len() ==> full@[i]
                            == buck2_root@[i]);
                        assert(full@[buck2_root@.len() as int] == '/');
                    }
                }
            }
        }
        match buckconfig.find_cell_for_path(full.as_str(), buck2_root) {
            Some(cell) => {
                proof {
                    let cellsm = spec_section_kv(buckconfig@, "cells"@);
                    let rel = spec_strip_path_prefix(full@, buck2_root@);
                    assert(spec_best_cell(cellsm, rel) == Some(cell@));
                    assert(exists|c: Seq<char>| spec_is_best_cell(cellsm, rel, c));
                    let c0 = choose|c: Seq<char>| spec_is_best_cell(cellsm, rel, c);
                    assert(spec_is_best_cell(cellsm, rel, c0));
                    assert(c0 == cell@);
                    assert(cellsm.contains_key(cell@));
                }
                let cell_path = match cells.get(cell.as_str()) {
                    Some(p) => p,
                    None => {
                        proof {
                            assert(false);
                        }
                        return target.to_owned();
                    },
                };
                let new_path = if path_has_prefix(path_part, cell_path.as_str()) {
                    strip_path_prefix(path_part, cell_path.as_str())
                } else {
                    path_part
                };
                let body = build_label(cell.as_str(), new_path, name_part);
                finish_label(body, in_root)
            },
            None => passthrough_label(target, in_root),
        }
    } else {
        let canonical = match cell_aliases.get(before) {
            Some(c) => c.clone(),
            None => before.to_owned(),
        };
        match cells.get(canonical.as_str()) {
            Some(cell_path) => {
                let colon = match find_char(after, ':') {
                    Some(colon) => colon,
                    None => {
                        return passthrough_label(target, in_root);
                    },
                };
                proof {
                    lemma_find_char_from_props(after@, ':', 0);
                }
                let path_part = after.substring_char(0, colon);
                let name_part = after.substring_char(colon + 1, alen);
                proof {
                    assert(path_part@ =~= after@.take(colon as int));
                    assert(name_part@ =~= after@.skip(colon + 1));
                }
                let stripped = path_has_prefix(path_part, cell_path.as_str());
                let new_path = if stripped {
                    strip_path_prefix(path_part, cell_path.as_str())
                } else {
                    path_part
                };
                if !str_eq(canonical.as_str(), before) || !str_eq(new_path, path_part) {
                    let body = build_label(canonical.as_str(), new_path, name_part);
                    finish_label(body, in_root)
                } else {
                    passthrough_label(target, in_root)
                }
            },
            None => {
                match cell_aliases.get(before) {
                    Some(mapped) => {
                        if !str_eq(mapped.as_str(), before) {
                            let mut body = String::from_str(mapped.as_str());
                            body.append("//");
                            body.append(after);
                            proof {
                                reveal_strlit("//");
                                assert(("//")@ =~= seq!['/', '/']);
                            }
                            finish_label(body, in_root)
                        } else {
                            passthrough_label(target, in_root)
                        }
                    },
                    None => passthrough_label(target, in_root),
                }
            },
        }
    }
}

/// Rewrite a label only when cell alignment is on and a configuration was
/// found; otherwise hand the label back unchanged.
pub fn rewrite_target_if_needed(
    target: &str,
    buck2_root: &str,
    align_cells: bool,
    buckconfig: &Option<BuckConfig>,
    current_file_path: &str,
) -> (r: String)
    requires
        match buckconfig {
            Some(c) => c.wf(),
            None => true,
        },
    ensures
        r@ == match buckconfig {
            Some(c) => {
                if align_cells {
                    spec_rewrite(
                        target@,
                        spec_section_kv(c@, "cells"@),
                        spec_alias_map(
                            spec_section_kv(c@, "cells"@),
                            spec_section_kv(c@, "cell_aliases"@),
                        ),
                        buck2_root@,
                        spec_file_in_root(current_file_path@, buck2_root@),
                    )
                } else {
                    target@
                }
            },
            None => target@,
        },
{
    if !align_cells {
        return target.to_owned();
    }
    match buckconfig {
        Some(config) => {
            let aliases = load_cell_aliases(config);
            rewrite_target_with_cell(target, &aliases, buck2_root, config, current_file_path)
        },
        None => target.to_owned(),
    }
}

} // verus!

verus! {

/// A usable cell or alias name: nonempty, not `@`-prefixed, and free of the
/// label metacharacters `/` and `:`.
pub open spec fn spec_name_ok(c: Seq<char>) -> bool {
    c.len() > 0 && c[0] != '@' && (forall|i: int| 0 <= i < c.len() ==> c[i] != '/') && (forall|
        i: int,
    | 0 <= i < c.len() ==> c[i] != ':')
}

/// A sane pair of cell and canonical-name tables: every table entry points at
/// a declared cell, every declared cell is its own canonical name, and all
/// names are usable.
pub open spec fn spec_maps_wf(
    cells: Map<Seq<char>, Seq<char>>,
    aliases: Map<Seq<char>, Seq<char>>,
) -> bool {
    (forall|k: Seq<char>| aliases.contains_key(k) ==> cells.contains_key(#[trigger] aliases[k]))
        && (forall|k: Seq<char>| #[trigger] cells.contains_key(k) ==> aliases.contains_key(k)
        && aliases[k] == k) && (forall|k: Seq<char>| #[trigger] aliases.contains_key(k)
        ==> spec_name_ok(k)) && (forall|k: Seq<char>| #[trigger] cells.contains_key(k)
        ==> spec_name_ok(k))
}

/// A `//` at `i`, with none earlier, is where the label splits.
proof fn lemma_find2_first(s: Seq<char>, i: int)
    requires
        0 <= i,
        i + 1 < s.len(),
        s[i] == '/',
        s[i + 1] == '/',
        forall|j: int| 0 <= j < i ==> !(#[trigger] s[j] == '/' && s[j + 1] == '/'),
    ensures
        spec_find_double_slash(s, 0) == Some(i),
{
    lemma_find_double_slash_props(s, 0);
    match spec_find_double_slash(s, 0) {
        Some(k) => {
            if k < i {
                assert(!(s[k] == '/' && s[k + 1] == '/'));
                assert(false);
            }
            if k > i {
                assert(!(s[i] == '/' && s[i + 1] == '/'));
                assert(false);
            }
        },
        None => {
            assert(!(s[i] == '/' && s[i + 1] == '/'));
            assert(false);
        },
    }
}

/// An `@`-prefixed cell-qualified label is already canonical: rewriting it
/// away from the project root hands it back unchanged.
proof fn lemma_at_label_stable(
    r: Seq<char>,
    cut: int,
    cells: Map<Seq<char>, Seq<char>>,
    aliases: Map<Seq<char>, Seq<char>>,
    root: Seq<char>,
)
    requires
        spec_maps_wf(cells, aliases),
        r.len() > 0,
        r[0] == '@',
        0 < cut,
        cut + 1 < r.len(),
        spec_find_double_slash(r, 0) == Some(cut),
    ensures
        spec_rewrite(r, cells, aliases, root, false) == r,
{
    let before = r.take(cut);
    assert(before.len() > 0);
    assert(before[0] == '@');
    if aliases.contains_key(before) {
        assert(spec_name_ok(before));
        assert(false);
    }
    if cells.contains_key(before) {
        assert(spec_name_ok(before));
        assert(false);
    }
    assert(spec_rewrite_qualified(r, before, r.skip(cut + 2), cells, aliases, false)
        == spec_passthrough(r, false));
    assert(spec_passthrough(r, false) == r);
}

/// Rewriting a freshly built cell-qualified label, away from the project
/// root, hands it back unchanged.
proof fn lemma_label_result_stable(
    cell: Seq<char>,
    tail: Seq<char>,
    cells: Map<Seq<char>, Seq<char>>,
    aliases: Map<Seq<char>, Seq<char>>,
    root: Seq<char>,
)
    requires
        spec_maps_wf(cells, aliases),
        cells.contains_key(cell),
    ensures
        spec_rewrite(
            spec_label_result(cell + seq!['/', '/'] + tail, false),
            cells,
            aliases,
            root,
            false,
        ) == spec_label_result(cell + seq!['/', '/'] + tail, false),
{
    let body = cell + seq!['/', '/'] + tail;
    assert(spec_name_ok(cell));
    assert(body[0] == cell[0]);
    assert(body[0] != '@');
    let r = spec_label_result(body, false);
    assert(r == seq!['@'] + body);
    let cut = 1 + cell.len() as int;
    assert(r[0] == '@');
    assert(r.len() == 3 + cell.len() + tail.len());
    assert(r[cut] == '/');
    assert(r[cut + 1] == '/');
    assert forall|j: int| 0 <= j < cut implies !(#[trigger] r[j] == '/' && r[j + 1] == '/') by {
        if j == 0 {
            assert(r[0] == '@');
        } else {
            assert(r[j] == cell[j - 1]);
        }
    }
    lemma_find2_first(r, cut);
    lemma_at_label_stable(r, cut, cells, aliases, root);
}

/// A label passed through, away from the project root, is handed back
/// unchanged by a second rewrite.
proof fn lemma_passthrough_stable(
    target: Seq<char>,
    sep: int,
    cells: Map<Seq<char>, Seq<char>>,
    aliases: Map<Seq<char>, Seq<char>>,
    root: Seq<char>,
)
    requires
        spec_maps_wf(cells, aliases),
        target.len() > 0,
        0 < sep,
        spec_find_double_slash(target, 0) == Some(sep),
    ensures
        spec_rewrite(spec_passthrough(target, false), cells, aliases, root, false)
            == spec_passthrough(target, false),
{
    lemma_find_double_slash_props(target, 0);
    let r = spec_passthrough(target, false);
    if target[0] == '@' {
        assert(r == target);
        lemma_at_label_stable(r, sep, cells, aliases, root);
    } else {
        assert(!(target.len() >= 2 && target[0] == '/' && target[1] == '/')) by {
            if sep == 0 {
            } else {
                if target.len() >= 2 && target[0] == '/' && target[1] == '/' {
                    assert(!(target[0] == '/' && target[1] == '/'));
                }
            }
        }
        assert(r == seq!['@'] + target);
        let cut = sep + 1;
        assert(r[0] == '@');
        assert(r[cut] == target[sep]);
        assert(r[cut + 1] == target[sep + 1]);
        assert forall|j: int| 0 <= j < cut implies !(#[trigger] r[j] == '/' && r[j + 1]
            == '/') by {
            if j == 0 {
                assert(r[0] == '@');
            } else {
                assert(r[j] == target[j - 1]);
                assert(r[j + 1] == target[j]);
                assert(!(target[j - 1] == '/' && target[j] == '/'));
            }
        }
        lemma_find2_first(r, cut);
        lemma_at_label_stable(r, cut, cells, aliases, root);
    }
}

/// Idempotence of the rewriter for labels declared away from the project
/// root: rewriting an already rewritten label changes nothing, for every
/// label, whenever the cell table and the canonical-name table are sane
/// ([`spec_maps_wf`]).
pub proof fn lemma_rewrite_idempotent(
    target: Seq<char>,
    cells: Map<Seq<char>, Seq<char>>,
    aliases: Map<Seq<char>, Seq<char>>,
    root: Seq<char>,
)
    requires
        spec_maps_wf(cells, aliases),
    ensures
        spec_rewrite(
            spec_rewrite(target, cells, aliases, root, false),
            cells,
            aliases,
            root,
            false,
        ) == spec_rewrite(target, cells, aliases, root, false),
{
    let r1 = spec_rewrite(target, cells, aliases, root, false);
    if target.len() == 0 {
    } else {
        match spec_find_double_slash(target, 0) {
            None => {
                assert(r1 == target);
            },
            Some(sep) => {
                lemma_find_double_slash_props(target, 0);
                let before = target.take(sep);
                let after = target.skip(sep + 2);
                if before.len() == 0 {
                    assert(sep == 0);
                    match spec_find_char_from(after, ':', 0) {
                        Some(colon) => {
                            let path_part = after.take(colon);
                            let name_part = after.skip(colon + 1);
                            let rel = spec_strip_path_prefix(
                                spec_join_path(root, path_part),
                                root,
                            );
                            match spec_best_cell(cells, rel) {
                                Some(cell) => {
                                    assert(exists|c: Seq<char>|
                                        spec_is_best_cell(cells, rel, c));
                                    let c0 = choose|c: Seq<char>|
                                        spec_is_best_cell(cells, rel, c);
                                    assert(spec_is_best_cell(cells, rel, c0));
                                    assert(c0 == cell);
                                    assert(cells.contains_key(cell));
                                    let cell_path = cells[cell];
                                    let new_path = if spec_path_has_prefix(
                                        path_part,
                                        cell_path,
                                    ) {
                                        spec_strip_path_prefix(path_part, cell_path)
                                    } else {
                                        path_part
                                    };
                                    lemma_label_result_stable(
                                        cell,
                                        spec_path_colon(new_path, name_part),
                                        cells,
                                        aliases,
                                        root,
                                    );
                                },
                                None => {
                                    assert(r1 == target);
                                },
                            }
                        },
                        None => {
                            assert(r1 == target);
                        },
                    }
                } else {
                    assert(sep > 0);
                    let canonical = if aliases.contains_key(before) {
                        aliases[before]
                    } else {
                        before
                    };
                    if cells.contains_key(canonical) {
                        match spec_find_char_from(after, ':', 0) {
                            Some(colon) => {
                                let path_part = after.take(colon);
                                let name_part = after.skip(colon + 1);
                                let cell_path = cells[canonical];
                                let new_path = if spec_path_has_prefix(
                                    path_part,
                                    cell_path,
                                ) {
                                    spec_strip_path_prefix(path_part, cell_path)
                                } else {
                                    path_part
                                };
                                if canonical != before || new_path != path_part {
                                    lemma_label_result_stable(
                                        canonical,
                                        spec_path_colon(new_path, name_part),
                                        cells,
                                        aliases,
                                        root,
                                    );
                                } else {
                                    lemma_passthrough_stable(
                                        target,
                                        sep,
                                        cells,
                                        aliases,
                                        root,
                                    );
                                }
                            },
                            None => {
                                lemma_passthrough_stable(target, sep, cells, aliases, root);
                            },
                        }
                    } else {
                        if aliases.contains_key(before) {
                            assert(cells.contains_key(aliases[before]));
                            assert(false);
                        }
                        lemma_passthrough_stable(target, sep, cells, aliases, root);
                    }
                }
            },
        }
    }
}

} // verus!

verus! {

/// The canonical-name table that [`load_cell_aliases`] builds is sane in the
/// sense of [`spec_maps_wf`], whenever the configured names are usable and no
/// alias shadows a declared cell name.
pub proof fn lemma_alias_map_wf(
    cells: Map<Seq<char>, Seq<char>>,
    aliases: Map<Seq<char>, Seq<char>>,
)
    requires
        forall|k: Seq<char>| #[trigger] cells.contains_key(k) ==> spec_name_ok(k),
        forall|k: Seq<char>| #[trigger] aliases.contains_key(k) ==> spec_name_ok(k),
        forall|k: Seq<char>| #[trigger] aliases.contains_key(k) ==> !cells.contains_key(k),
    ensures
        spec_maps_wf(cells, spec_alias_map(cells, aliases)),
{
    let am = spec_alias_map(cells, aliases);
    assert forall|k: Seq<char>| am.contains_key(k) implies cells.contains_key(
        #[trigger] am[k],
    ) by {
        if aliases.contains_key(k) && cells.contains_key(aliases[k]) {
            assert(am[k] == aliases[k]);
        } else {
            assert(cells.contains_key(k));
            assert(am[k] == k);
        }
    }
    assert forall|k: Seq<char>| #[trigger] cells.contains_key(k) implies am.contains_key(k)
        && am[k] == k by {
        assert(!aliases.contains_key(k));
    }
    assert forall|k: Seq<char>| #[trigger] am.contains_key(k) implies spec_name_ok(k) by {
        if cells.contains_key(k) {
        } else {
            assert(aliases.contains_key(k));
        }
    }
}

} // verus!

verus! {

/// A `:` at `i`, with none earlier, is where the label's name starts.
proof fn lemma_find_colon_first(s: Seq<char>, i: int)
    requires
        0 <= i < s.len(),
        s[i] == ':',
        forall|j: int| 0 <= j < i ==> s[j] != ':',
    ensures
        spec_find_char_from(s, ':', 0) == Some(i),
{
    crate::strutil::lemma_find_char_from_props(s, ':', 0);
    match spec_find_char_from(s, ':', 0) {
        Some(k) => {
            if k < i {
                assert(s[k] != ':');
                assert(false);
            }
            if k > i {
                assert(s[i] != ':');
                assert(false);
            }
        },
        None => {
            assert(s[i] != ':');
            assert(false);
        },
    }
}

/// The rewritten label would strip its cell's path a second time: the one
/// shape on which rewriting at the project root is not idempotent.
pub open spec fn spec_rewrite_restrips(
    target: Seq<char>,
    cells: Map<Seq<char>, Seq<char>>,
    aliases: Map<Seq<char>, Seq<char>>,
    root: Seq<char>,
) -> bool {
    target.len() > 0 && match spec_find_double_slash(target, 0) {
        None => false,
        Some(sep) => {
            let before = target.take(sep);
            let after = target.skip(sep + 2);
            if before.len() == 0 {
                match spec_find_char_from(after, ':', 0) {
                    Some(colon) => {
                        let path_part = after.take(colon);
                        let rel = spec_strip_path_prefix(
                            spec_join_path(root, path_part),
                            root,
                        );
                        match spec_best_cell(cells, rel) {
                            Some(cell) => spec_cell_restrips(cells, cell, path_part),
                            None => false,
                        }
                    },
                    None => false,
                }
            } else {
                let canonical = if aliases.contains_key(before) {
                    aliases[before]
                } else {
                    before
                };
                if cells.contains_key(canonical) {
                    match spec_find_char_from(after, ':', 0) {
                        Some(colon) => {
                            let path_part = after.take(colon);
                            let cp = cells[canonical];
                            let new_path = if spec_path_has_prefix(path_part, cp) {
                                spec_strip_path_prefix(path_part, cp)
                            } else {
                                path_part
                            };
                            (canonical != before || new_path != path_part)
                                && spec_cell_restrips(cells, canonical, path_part)
                        },
                        None => false,
                    }
                } else {
                    false
                }
            }
        },
    }
}

/// After one strip of `cell`'s path, the remaining path still starts with
/// that path.
pub open spec fn spec_cell_restrips(
    cells: Map<Seq<char>, Seq<char>>,
    cell: Seq<char>,
    path_part: Seq<char>,
) -> bool {
    let cp = cells[cell];
    let np = if spec_path_has_prefix(path_part, cp) {
        spec_strip_path_prefix(path_part, cp)
    } else {
        path_part
    };
    spec_path_has_prefix(np, cp) && !crate::pathutil::spec_is_dot(cp)
}

/// A freshly built cell-qualified label whose path does not re-match its
/// cell's declared path is handed back unchanged by a rewrite at the
/// project root.
proof fn lemma_label_result_stable_at_root(
    cell: Seq<char>,
    np: Seq<char>,
    name: Seq<char>,
    cells: Map<Seq<char>, Seq<char>>,
    aliases: Map<Seq<char>, Seq<char>>,
    root: Seq<char>,
)
    requires
        spec_maps_wf(cells, aliases),
        forall|k: Seq<char>| cells.contains_key(k) ==> (#[trigger] cells[k]).len() > 0,
        cells.contains_key(cell),
        forall|i: int| 0 <= i < np.len() ==> np[i] != ':',
        !(spec_path_has_prefix(np, cells[cell]) && !crate::pathutil::spec_is_dot(
            cells[cell],
        )),
    ensures
        spec_rewrite(
            cell + seq!['/', '/'] + spec_path_colon(np, name),
            cells,
            aliases,
            root,
            true,
        ) == cell + seq!['/', '/'] + spec_path_colon(np, name),
{
    let body = cell + seq!['/', '/'] + spec_path_colon(np, name);
    assert(spec_name_ok(cell));
    assert(body.len() > 0);
    let cut = cell.len() as int;
    assert(body[cut] == '/');
    assert(body[cut + 1] == '/');
    assert forall|j: int| 0 <= j < cut implies !(#[trigger] body[j] == '/' && body[j + 1]
        == '/') by {
        assert(body[j] == cell[j]);
    }
    lemma_find2_first(body, cut);
    let before = body.take(cut);
    assert(before =~= cell);
    let after = body.skip(cut + 2);
    assert(after =~= spec_path_colon(np, name));
    assert(aliases.contains_key(cell) && aliases[cell] == cell);
    let colon = np.len() as int;
    assert(after[colon] == ':');
    assert forall|j: int| 0 <= j < colon implies after[j] != ':' by {
        assert(after[j] == np[j]);
    }
    lemma_find_colon_first(after, colon);
    let path_part = after.take(colon);
    assert(path_part =~= np);
    let cp = cells[cell];
    if spec_path_has_prefix(np, cp) {
        assert(crate::pathutil::spec_is_dot(cp));
        assert(spec_strip_path_prefix(np, cp) == np);
    }
    assert(spec_rewrite_qualified(body, before, after, cells, aliases, true)
        == spec_passthrough(body, true));
    assert(spec_passthrough(body, true) == body);
}

/// Idempotence of the rewriter for labels declared at the project root:
/// rewriting an already rewritten label changes nothing whenever the cell
/// table and canonical-name table are sane, every declared cell path is
/// nonempty, and the label is not of the one re-stripping shape
/// ([`spec_rewrite_restrips`]) on which a second strip genuinely differs.
pub proof fn lemma_rewrite_idempotent_at_root(
    target: Seq<char>,
    cells: Map<Seq<char>, Seq<char>>,
    aliases: Map<Seq<char>, Seq<char>>,
    root: Seq<char>,
)
    requires
        spec_maps_wf(cells, aliases),
        forall|k: Seq<char>| cells.contains_key(k) ==> (#[trigger] cells[k]).len() > 0,
        !spec_rewrite_restrips(target, cells, aliases, root),
    ensures
        spec_rewrite(
            spec_rewrite(target, cells, aliases, root, true),
            cells,
            aliases,
            root,
            true,
        ) == spec_rewrite(target, cells, aliases, root, true),
{
    let r1 = spec_rewrite(target, cells, aliases, root, true);
    if target.len() == 0 {
    } else {
        match spec_find_double_slash(target, 0) {
            None => {
                assert(r1 == target);
            },
            Some(sep) => {
                lemma_find_double_slash_props(target, 0);
                let before = target.take(sep);
                let after = target.skip(sep + 2);
                match spec_find_char_from(after, ':', 0) {
                    Some(colon) => {
                        crate::strutil::lemma_find_char_from_props(after, ':', 0);
                        let path_part = after.take(colon);
                        let name_part = after.skip(colon + 1);
                        assert(forall|i: int|
                            0 <= i < path_part.len() ==> path_part[i] != ':');
                        if before.len() == 0 {
                            let rel = spec_strip_path_prefix(
                                spec_join_path(root, path_part),
                                root,
                            );
                            match spec_best_cell(cells, rel) {
                                Some(cell) => {
                                    assert(exists|c: Seq<char>|
                                        spec_is_best_cell(cells, rel, c));
                                    let c0 = choose|c: Seq<char>|
                                        spec_is_best_cell(cells, rel, c);
                                    assert(c0 == cell);
                                    assert(cells.contains_key(cell));
                                    let cp = cells[cell];
                                    let np = if spec_path_has_prefix(path_part, cp) {
                                        spec_strip_path_prefix(path_part, cp)
                                    } else {
                                        path_part
                                    };
                                    assert(forall|i: int| 0 <= i < np.len() ==> np[i]
                                        != ':') by {
                                        if spec_path_has_prefix(path_part, cp)
                                            && !crate::pathutil::spec_is_dot(cp)
                                            && path_part.len() != cp.len() {
                                            assert(forall|i: int|
                                                0 <= i < np.len() ==> np[i] == path_part[
                                                i + cp.len() + 1]);
                                        }
                                    }
                                    assert(!(spec_path_has_prefix(np, cp)
                                        && !crate::pathutil::spec_is_dot(cp)));
                                    assert(r1 == cell + seq!['/', '/'] + spec_path_colon(
                                        np,
                                        name_part,
                                    ));
                                    lemma_label_result_stable_at_root(
                                        cell,
                                        np,
                                        name_part,
                                        cells,
                                        aliases,
                                        root,
                                    );
                                },
                                None => {
                                    assert(r1 == target);
                                },
                            }
                        } else {
                            let canonical = if aliases.contains_key(before) {
                                aliases[before]
                            } else {
                                before
                            };
                            if cells.contains_key(canonical) {
                                let cp = cells[canonical];
                                let np = if spec_path_has_prefix(path_part, cp) {
                                    spec_strip_path_prefix(path_part, cp)
                                } else {
                                    path_part
                                };
                                if canonical != before || np != path_part {
                                    assert(forall|i: int| 0 <= i < np.len() ==> np[i]
                                        != ':') by {
                                        if spec_path_has_prefix(path_part, cp)
                                            && !crate::pathutil::spec_is_dot(cp)
                                            && path_part.len() != cp.len() {
                                            assert(forall|i: int|
                                                0 <= i < np.len() ==> np[i] == path_part[
                                                i + cp.len() + 1]);
                                        }
                                    }
                                    assert(!(spec_path_has_prefix(np, cp)
                                        && !crate::pathutil::spec_is_dot(cp)));
                                    assert(r1 == canonical + seq!['/', '/']
                                        + spec_path_colon(np, name_part));
                                    lemma_label_result_stable_at_root(
                                        canonical,
                                        np,
                                        name_part,
                                        cells,
                                        aliases,
                                        root,
                                    );
                                } else {
                                    assert(r1 == target);
                                }
                            } else {
                                if aliases.contains_key(before) {
                                    assert(cells.contains_key(aliases[before]));
                                    assert(false);
                                }
                                assert(r1 == target);
                            }
                        }
                    },
                    None => {
                        assert(r1 == target);
                    },
                }
            },
        }
    }
}

} // verus!
