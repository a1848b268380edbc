//! The dependency classifier: which edges apply to a compilation-unit kind,
//! and how a selected edge turns into a rule reference.

use vstd::prelude::*;

use crate::cells::{rewrite_target_if_needed, spec_alias_map, spec_rewrite};
use crate::config::spec_section_kv;
use crate::model::{BuckalContext, BuckalTarget, DepKind, DepKindInfo, Package};
use crate::pathutil::spec_file_in_root;
use crate::strutil::str_eq;

verus! {

/// The kind of compilation unit dependencies are being classified for.
#[derive(Clone, Copy, Debug, PartialEq, Eq, Structural)]
pub enum CargoTargetKind {
    Lib,
    Bin,
    Test,
    CustomBuild,
}

/// What the platform library decides for a predicate against a target triple
/// and configuration flags.
pub uninterp spec fn platform_match(
    pred: Seq<char>,
    target: Seq<char>,
    cfgs: Seq<Seq<char>>,
) -> bool;

/// Relies on `cargo_platform::Platform`: `from_str` parses the predicate and
/// `matches` decides it against the target triple and the parsed
/// configuration flags; both are pure functions of their arguments, so the
/// outcome is a function of the three strings alone. An unparsable predicate
/// matches nothing, and unparsable flag lines are left out.
#[verifier::external_body]
fn platform_matches(pred: &str, target: &str, cfgs: &Vec<String>) -> (r: bool)
    ensures
        r == platform_match(pred@, target@, cfgs.deep_view()),
{
    match <cargo_platform::Platform as core::str::FromStr>::from_str(pred) {
        Ok(p) => {
            let parsed: Vec<cargo_platform::Cfg> = cfgs.iter().filter_map(
                |c: &String| <cargo_platform::Cfg as core::str::FromStr>::from_str(c).ok(),
            ).collect();
            p.matches(target, &parsed)
        },
        Err(_) => false,
    }
}

/// A (kind, platform) pair applies on the current platform: either it names
/// no predicate, or its predicate matches the triple and flags.
pub open spec fn spec_dep_target_matches(
    dk: DepKindInfo,
    target: Seq<char>,
    cfgs: Seq<Seq<char>>,
) -> bool {
    match dk.target {
        None => true,
        Some(p) => platform_match(p@, target, cfgs),
    }
}

/// Decide a pair's platform predicate against the probed environment.
pub fn check_dep_target(dk: &DepKindInfo, target: &str, cfgs: &Vec<String>) -> (r: bool)
    ensures
        r == spec_dep_target_matches(*dk, target@, cfgs.deep_view()),
{
    match &dk.target {
        None => true,
        Some(p) => platform_matches(p.as_str(), target, cfgs),
    }
}

/// Which edge kinds reach which unit kinds: Normal edges reach every unit but
/// build scripts, Build edges reach only build scripts, Development edges
/// additionally reach tests.
pub open spec fn spec_kind_applies(k: DepKind, unit: CargoTargetKind) -> bool {
    (unit != CargoTargetKind::CustomBuild && k == DepKind::Normal) || (unit
        == CargoTargetKind::CustomBuild && k == DepKind::Build) || (unit
        == CargoTargetKind::Test && k == DepKind::Development)
}

/// An edge is selected for a unit kind when one of its (kind, platform)
/// pairs applies to that kind on the current platform.
pub open spec fn spec_edge_selected(
    dep_kinds: Seq<DepKindInfo>,
    unit: CargoTargetKind,
    target: Seq<char>,
    cfgs: Seq<Seq<char>>,
) -> bool {
    exists|i: int|
        0 <= i < dep_kinds.len() && spec_kind_applies(#[trigger] dep_kinds[i].kind, unit)
            && spec_dep_target_matches(dep_kinds[i], target, cfgs)
}

/// Decide whether an edge applies to a unit kind on the current platform.
pub fn edge_selected(
    dep_kinds: &Vec<DepKindInfo>,
    unit: CargoTargetKind,
    target: &str,
    cfgs: &Vec<String>,
) -> (r: bool)
    ensures
        r == spec_edge_selected(dep_kinds@, unit, target@, cfgs.deep_view()),
{
    let n = dep_kinds.len();
    let mut i: usize = 0;
    while i < n
        invariant
            n == dep_kinds@.len(),
            0 <= i <= n,
            forall|j: int|
                0 <= j < i ==> !(spec_kind_applies(#[trigger] dep_kinds@[j].kind, unit)
                    && spec_dep_target_matches(dep_kinds@[j], target@, cfgs.deep_view())),
        decreases n - i,
    {
        let dk = &dep_kinds[i];
        let applies = match (dk.kind, unit) {
            (DepKind::Normal, CargoTargetKind::CustomBuild) => false,
            (DepKind::Normal, _) => true,
            (DepKind::Build, CargoTargetKind::CustomBuild) => true,
            (DepKind::Build, _) => false,
            (DepKind::Development, CargoTargetKind::Test) => true,
            (DepKind::Development, _) => false,
        };
        if applies && check_dep_target(dk, target, cfgs) {
            return true;
        }
        i += 1;
    }
    false
}

/// A Development-kind-only edge is never selected for a unit that is not a
/// test, and a Build-kind-only edge is never selected outside a build
/// script, whatever the platform says.
pub proof fn lemma_classifier_correct(
    dep_kinds: Seq<DepKindInfo>,
    unit: CargoTargetKind,
    target: Seq<char>,
    cfgs: Seq<Seq<char>>,
)
    ensures
        (forall|i: int| 0 <= i < dep_kinds.len() ==> #[trigger] dep_kinds[i].kind
            == DepKind::Development) && unit != CargoTargetKind::Test ==> !spec_edge_selected(
            dep_kinds,
            unit,
            target,
            cfgs,
        ),
        (forall|i: int| 0 <= i < dep_kinds.len() ==> #[trigger] dep_kinds[i].kind
            == DepKind::Build) && unit != CargoTargetKind::CustomBuild ==> !spec_edge_selected(
            dep_kinds,
            unit,
            target,
            cfgs,
        ),
{
}

} // verus!

verus! {

/// `s` with every hyphen folded to an underscore, the unit-name convention.
pub open spec fn spec_underscore(s: Seq<char>) -> Seq<char> {
    Seq::new(
        s.len(),
        |i: int| if s[i] == '-' {
            '_'
        } else {
            s[i]
        },
    )
}

pub fn underscore(s: &str) -> (r: String)
    ensures
        r@ == spec_underscore(s@),
{
    let len = s.unicode_len();
    let mut out = String::new();
    proof {
        assert(out@ =~= spec_underscore(s@.take(0)));
    }
    let mut i: usize = 0;
    while i < len
        invariant
            len == s@.len(),
            0 <= i <= len,
            out@ == spec_underscore(s@.take(i as int)),
        decreases len - i,
    {
        if s.get_char(i) == '-' {
            out.append("_");
            proof {
                reveal_strlit("_");
                assert(("_")@ =~= seq!['_']);
                assert(out@ =~= spec_underscore(s@.take(i + 1)));
            }
        } else {
            let piece = s.substring_char(i, i + 1);
            out.append(piece);
            proof {
                assert(piece@ =~= seq![s@[i as int]]);
                assert(out@ =~= spec_underscore(s@.take(i + 1)));
            }
        }
        i += 1;
    }
    proof {
        assert(s@.take(len as int) =~= s@);
    }
    out
}

/// The build-script unit's short name: a trailing `-build` is dropped.
pub open spec fn spec_build_name(s: Seq<char>) -> Seq<char> {
    if s.len() >= 6 && s.skip(s.len() - 6) == "-build"@ {
        s.take(s.len() - 6)
    } else {
        s
    }
}

pub fn get_build_name(s: &str) -> (r: String)
    ensures
        r@ == spec_build_name(s@),
{
    let len = s.unicode_len();
    if len >= 6 {
        let tail = s.substring_char(len - 6, len);
        if str_eq(tail, "-build") {
            proof {
                assert(tail@ =~= s@.skip(s@.len() - 6));
            }
            let r = s.substring_char(0, len - 6).to_owned();
            proof {
                assert(r@ =~= s@.take(s@.len() - 6));
            }
            return r;
        }
        proof {
            assert(tail@ =~= s@.skip(s@.len() - 6));
        }
    }
    s.to_owned()
}

/// The label of a package's vendored source group.
pub fn get_vendor_target(package: &Package) -> (r: String)
    ensures
        r@ == ":"@ + package.name@ + "-vendor"@,
{
    let mut r = String::from_str(":");
    r.append(package.name.as_str());
    r.append("-vendor");
    r
}

/// The library family: the unit kinds that make a package usable as a
/// library dependency.
pub open spec fn spec_kind_is_lib_family(k: crate::model::TargetKind) -> bool {
    k == crate::model::TargetKind::Lib || k == crate::model::TargetKind::CDyLib || k
        == crate::model::TargetKind::DyLib || k == crate::model::TargetKind::RLib || k
        == crate::model::TargetKind::StaticLib || k == crate::model::TargetKind::ProcMacro
}

/// A unit that belongs to the library family.
pub open spec fn spec_is_lib_target(t: BuckalTarget) -> bool {
    exists|i: int| 0 <= i < t.kind@.len() && spec_kind_is_lib_family(#[trigger] t.kind@[i])
}

pub open spec fn spec_target_has_kind(t: BuckalTarget, k: crate::model::TargetKind) -> bool {
    exists|i: int| 0 <= i < t.kind@.len() && #[trigger] t.kind@[i] == k
}

pub fn target_has_kind(t: &BuckalTarget, k: crate::model::TargetKind) -> (r: bool)
    ensures
        r == spec_target_has_kind(*t, k),
{
    let n = t.kind.len();
    let mut i: usize = 0;
    while i < n
        invariant
            n == t.kind@.len(),
            0 <= i <= n,
            forall|j: int| 0 <= j < i ==> #[trigger] t.kind@[j] != k,
        decreases n - i,
    {
        if t.kind[i] == k {
            return true;
        }
        i += 1;
    }
    false
}

pub fn is_lib_target(t: &BuckalTarget) -> (r: bool)
    ensures
        r == spec_is_lib_target(*t),
{
    let n = t.kind.len();
    let mut i: usize = 0;
    while i < n
        invariant
            n == t.kind@.len(),
            0 <= i <= n,
            forall|j: int| 0 <= j < i ==> !spec_kind_is_lib_family(#[trigger] t.kind@[j]),
        decreases n - i,
    {
        let k = t.kind[i];
        if matches!(
            k,
            crate::model::TargetKind::Lib | crate::model::TargetKind::CDyLib
                | crate::model::TargetKind::DyLib | crate::model::TargetKind::RLib
                | crate::model::TargetKind::StaticLib | crate::model::TargetKind::ProcMacro
        ) {
            return true;
        }
        i += 1;
    }
    false
}

/// How many library-family units a package declares.
pub open spec fn spec_lib_count(ts: Seq<BuckalTarget>) -> nat
    decreases ts.len(),
{
    if ts.len() == 0 {
        0
    } else {
        spec_lib_count(ts.drop_last()) + if spec_is_lib_target(ts.last()) {
            1nat
        } else {
            0nat
        }
    }
}

pub fn count_lib_targets(package: &Package) -> (r: usize)
    ensures
        r == spec_lib_count(package.targets@),
{
    let n = package.targets.len();
    let mut i: usize = 0;
    let mut c: usize = 0;
    while i < n
        invariant
            n == package.targets@.len(),
            0 <= i <= n,
            c == spec_lib_count(package.targets@.take(i as int)),
            c <= i,
        decreases n - i,
    {
        proof {
            let t = package.targets@.take(i + 1);
            assert(t.drop_last() =~= package.targets@.take(i as int));
            assert(t.last() == package.targets@[i as int]);
        }
        if is_lib_target(&package.targets[i]) {
            c += 1;
        }
        i += 1;
    }
    proof {
        assert(package.targets@.take(n as int) =~= package.targets@);
    }
    c
}

/// The first library-family unit, if any.
pub open spec fn spec_first_lib(ts: Seq<BuckalTarget>) -> Option<int>
    decreases ts.len(),
{
    if ts.len() == 0 {
        None
    } else if spec_is_lib_target(ts[0]) {
        Some(0)
    } else {
        match spec_first_lib(ts.skip(1)) {
            Some(i) => Some(i + 1),
            None => None,
        }
    }
}

pub proof fn lemma_first_lib(ts: Seq<BuckalTarget>)
    ensures
        match spec_first_lib(ts) {
            Some(i) => 0 <= i < ts.len() && spec_is_lib_target(ts[i]) && forall|j: int|
                0 <= j < i ==> !spec_is_lib_target(ts[j]),
            None => forall|j: int| 0 <= j < ts.len() ==> !spec_is_lib_target(ts[j]),
        },
    decreases ts.len(),
{
    if ts.len() > 0 && !spec_is_lib_target(ts[0]) {
        lemma_first_lib(ts.skip(1));
        assert(forall|j: int| 1 <= j < ts.len() ==> ts[j] == ts.skip(1)[j - 1]);
    }
}

pub fn first_lib_target<'a>(package: &'a Package) -> (r: Option<&'a BuckalTarget>)
    ensures
        match r {
            Some(t) => spec_first_lib(package.targets@) is Some && *t == package.targets@[
                spec_first_lib(package.targets@)->Some_0],
            None => spec_first_lib(package.targets@) is None,
        },
{
    let ghost ts = package.targets@;
    let n = package.targets.len();
    let mut i: usize = 0;
    while i < n
        invariant
            n == ts.len(),
            ts == package.targets@,
            0 <= i <= n,
            forall|j: int| 0 <= j < i ==> !spec_is_lib_target(ts[j]),
        decreases n - i,
    {
        if is_lib_target(&package.targets[i]) {
            proof {
                lemma_first_lib(ts);
                match spec_first_lib(ts) {
                    Some(f) => {
                        assert(!(f < i) && !(f > i));
                    },
                    None => {
                        assert(spec_is_lib_target(ts[i as int]));
                    },
                }
            }
            return Some(&package.targets[i]);
        }
        i += 1;
    }
    proof {
        lemma_first_lib(ts);
        if spec_first_lib(ts) is Some {
            let f = spec_first_lib(ts)->Some_0;
            assert(!spec_is_lib_target(ts[f]));
        }
    }
    None
}

/// A unit of the given kind with the given name exists.
pub open spec fn spec_has_kind_named(
    ts: Seq<BuckalTarget>,
    k: crate::model::TargetKind,
    name: Seq<char>,
) -> bool {
    exists|i: int|
        0 <= i < ts.len() && spec_target_has_kind(#[trigger] ts[i], k) && ts[i].name@ == name
}

pub fn has_kind_named(
    package: &Package,
    k: crate::model::TargetKind,
    name: &str,
) -> (r: bool)
    ensures
        r == spec_has_kind_named(package.targets@, k, name@),
{
    let ghost ts = package.targets@;
    let n = package.targets.len();
    let mut i: usize = 0;
    while i < n
        invariant
            n == ts.len(),
            ts == package.targets@,
            0 <= i <= n,
            forall|j: int|
                0 <= j < i ==> !(spec_target_has_kind(#[trigger] ts[j], k) && ts[j].name@
                    == name@),
        decreases n - i,
    {
        let t = &package.targets[i];
        if target_has_kind(t, k) && str_eq(t.name.as_str(), name) {
            return true;
        }
        i += 1;
    }
    false
}

/// A library-family unit with the given name exists.
pub open spec fn spec_has_lib_named(ts: Seq<BuckalTarget>, name: Seq<char>) -> bool {
    exists|i: int| 0 <= i < ts.len() && spec_is_lib_target(#[trigger] ts[i]) && ts[i].name@
        == name
}

pub fn has_lib_named(package: &Package, name: &str) -> (r: bool)
    ensures
        r == spec_has_lib_named(package.targets@, name@),
{
    let ghost ts = package.targets@;
    let n = package.targets.len();
    let mut i: usize = 0;
    while i < n
        invariant
            n == ts.len(),
            ts == package.targets@,
            0 <= i <= n,
            forall|j: int|
                0 <= j < i ==> !(spec_is_lib_target(#[trigger] ts[j]) && ts[j].name@ == name@),
        decreases n - i,
    {
        let t = &package.targets[i];
        if is_lib_target(t) && str_eq(t.name.as_str(), name) {
            return true;
        }
        i += 1;
    }
    false
}

/// The rule name of a library unit: prefixed with `lib` when a binary unit
/// of the same name forces disambiguation.
pub open spec fn spec_buckal_lib_name(lib_name: Seq<char>, collides: bool) -> Seq<char> {
    if collides {
        "lib"@ + lib_name
    } else {
        lib_name
    }
}

pub fn buckal_lib_name(lib_name: &str, collides: bool) -> (r: String)
    ensures
        r@ == spec_buckal_lib_name(lib_name@, collides),
{
    if collides {
        let mut r = String::from_str("lib");
        r.append(lib_name);
        r
    } else {
        lib_name.to_owned()
    }
}

/// Rewrite a label against the context's cell configuration.
pub open spec fn spec_ctx_rewrite(
    label: Seq<char>,
    ctx: BuckalContext,
    file: Seq<char>,
) -> Seq<char> {
    match ctx.buckconfig {
        Some(c) => {
            if ctx.repo_config.align_cells {
                spec_rewrite(
                    label,
                    spec_section_kv(c@, "cells"@),
                    spec_alias_map(
                        spec_section_kv(c@, "cells"@),
                        spec_section_kv(c@, "cell_aliases"@),
                    ),
                    ctx.buck2_root@,
                    spec_file_in_root(file, ctx.buck2_root@),
                )
            } else {
                label
            }
        },
        None => label,
    }
}

pub fn ctx_rewrite(label: &str, ctx: &BuckalContext, file: &str) -> (r: String)
    requires
        ctx.wf(),
    ensures
        r@ == spec_ctx_rewrite(label@, *ctx, file@),
{
    rewrite_target_if_needed(
        label,
        ctx.buck2_root.as_str(),
        ctx.repo_config.align_cells,
        &ctx.buckconfig,
        file,
    )
}

} // verus!

verus! {

use crate::model::{err_matches, BuckalError, Node, NodeDep, SpecErr, TargetKind};
use crate::pathutil::{path_has_prefix, spec_path_has_prefix, spec_strip_path_prefix,
    strip_path_prefix};
use crate::rules::RustRuleData;
use crate::version::spec_version_chars;

/// The two reference collections a compile rule gathers.
pub struct DepsOut {
    pub deps: Set<Seq<char>>,
    pub named: Map<Seq<char>, Seq<char>>,
}

/// Record one resolved reference: under the in-source name when the
/// dependency is renamed, positionally otherwise.
pub open spec fn spec_insert_ref(
    st: DepsOut,
    dep_name: Seq<char>,
    pkg_name: Seq<char>,
    label: Seq<char>,
) -> DepsOut {
    if dep_name != spec_underscore(pkg_name) {
        DepsOut { deps: st.deps, named: st.named.insert(dep_name, label) }
    } else {
        DepsOut { deps: st.deps.insert(label), named: st.named }
    }
}

/// How one edge contributes to a unit's references. An unknown package or an
/// unselected edge contributes nothing. A selected first-party dependency
/// resolves to its single library-family unit's rule under the project-
/// relative path; a selected third-party dependency resolves to the shared
/// alias rule for direct workspace-root edges under dependency inheritance,
/// and to its own versioned rule otherwise. Every resolved label runs
/// through the cell rewriter.
pub open spec fn spec_add_dep(
    st: DepsOut,
    dep: NodeDep,
    node_id: Seq<char>,
    ctx: BuckalContext,
    kind: CargoTargetKind,
    file: Seq<char>,
) -> Result<DepsOut, SpecErr> {
    if !ctx.packages_map@.contains_key(dep.pkg@) {
        Ok(st)
    } else {
        let p = ctx.packages_map@[dep.pkg@];
        if !spec_edge_selected(dep.dep_kinds@, kind, ctx.target_triple@, ctx.cfgs.deep_view()) {
            Ok(st)
        } else if p.source is None {
            if !spec_path_has_prefix(p.manifest_dir@, ctx.buck2_root@) {
                Err(SpecErr::OutsideProjectRoot { package: p.name@ })
            } else if spec_lib_count(p.targets@) != 1 {
                Err(
                    SpecErr::MissingLibraryTarget {
                        package: p.name@,
                        found: spec_lib_count(p.targets@) as int,
                    },
                )
            } else {
                let rel = spec_strip_path_prefix(p.manifest_dir@, ctx.buck2_root@);
                let lib = p.targets@[spec_first_lib(p.targets@)->Some_0];
                let collides = spec_has_kind_named(p.targets@, TargetKind::Bin, lib.name@);
                let bname = spec_buckal_lib_name(lib.name@, collides);
                let label = rel + ":"@ + bname;
                Ok(spec_insert_ref(st, dep.name@, p.name@, spec_ctx_rewrite(label, ctx, file)))
            }
        } else {
            let use_alias = ctx.repo_config.inherit_workspace_deps && node_id == ctx.root_id@;
            let label = if use_alias {
                "//third-party/rust:"@ + p.name@
            } else {
                "//third-party/rust/crates/"@ + p.name@ + "/"@ + spec_version_chars(p.version)
                    + ":"@ + p.name@
            };
            Ok(spec_insert_ref(st, dep.name@, p.name@, spec_ctx_rewrite(label, ctx, file)))
        }
    }
}

/// The references gathered from a prefix of a node's edges, in order.
pub open spec fn spec_set_deps(
    st: DepsOut,
    deps: Seq<NodeDep>,
    node_id: Seq<char>,
    ctx: BuckalContext,
    kind: CargoTargetKind,
    file: Seq<char>,
) -> Result<DepsOut, SpecErr>
    decreases deps.len(),
{
    if deps.len() == 0 {
        Ok(st)
    } else {
        match spec_set_deps(st, deps.drop_last(), node_id, ctx, kind, file) {
            Ok(cur) => spec_add_dep(cur, deps.last(), node_id, ctx, kind, file),
            Err(e) => Err(e),
        }
    }
}

/// An error in a prefix of the fold is the whole fold's error.
proof fn lemma_set_deps_err(
    st: DepsOut,
    deps: Seq<NodeDep>,
    node_id: Seq<char>,
    ctx: BuckalContext,
    kind: CargoTargetKind,
    file: Seq<char>,
    i: int,
)
    requires
        0 <= i <= deps.len(),
        spec_set_deps(st, deps.take(i), node_id, ctx, kind, file) is Err,
    ensures
        spec_set_deps(st, deps, node_id, ctx, kind, file) == spec_set_deps(
            st,
            deps.take(i),
            node_id,
            ctx,
            kind,
            file,
        ),
    decreases deps.len() - i,
{
    if i < deps.len() {
        assert(deps.take(i + 1).drop_last() =~= deps.take(i));
        assert(deps.take(i + 1).last() == deps[i]);
        lemma_set_deps_err(st, deps, node_id, ctx, kind, file, i + 1);
    } else {
        assert(deps.take(i) =~= deps);
    }
}

/// Some library-family unit exists exactly when the library count is
/// positive.
proof fn lemma_lib_count_pos(ts: Seq<BuckalTarget>)
    ensures
        (spec_lib_count(ts) > 0) <==> (exists|i: int|
            0 <= i < ts.len() && spec_is_lib_target(#[trigger] ts[i])),
    decreases ts.len(),
{
    if ts.len() > 0 {
        lemma_lib_count_pos(ts.drop_last());
        if spec_lib_count(ts) > 0 {
            if spec_is_lib_target(ts.last()) {
                assert(spec_is_lib_target(ts[ts.len() - 1]));
            } else {
                let i = choose|i: int|
                    0 <= i < ts.drop_last().len() && spec_is_lib_target(
                        #[trigger] ts.drop_last()[i],
                    );
                assert(ts[i] == ts.drop_last()[i]);
            }
        }
        if exists|i: int| 0 <= i < ts.len() && spec_is_lib_target(#[trigger] ts[i]) {
            let i = choose|i: int| 0 <= i < ts.len() && spec_is_lib_target(#[trigger] ts[i]);
            if i < ts.len() - 1 {
                assert(ts.drop_last()[i] == ts[i]);
                assert(spec_lib_count(ts.drop_last()) > 0);
            } else {
                assert(spec_is_lib_target(ts.last()));
            }
        }
    }
}

/// Every field of a compile rule except its gathered references is kept.
pub open spec fn spec_same_except_deps(a: RustRuleData, b: RustRuleData) -> bool {
    &&& a.name == b.name
    &&& a.crate_name == b.crate_name
    &&& a.crate_root == b.crate_root
    &&& a.edition == b.edition
    &&& a.srcs == b.srcs
    &&& a.features == b.features
    &&& a.rustc_flags == b.rustc_flags
    &&& a.env == b.env
    &&& a.compatible_with == b.compatible_with
    &&& a.visibility == b.visibility
    &&& a.proc_macro == b.proc_macro
}

fn insert_ref(rule: &mut RustRuleData, dep_name: &String, pkg_name: &str, label: String)
    requires
        old(rule).wf(),
    ensures
        final(rule).wf(),
        spec_same_except_deps(*final(rule), *old(rule)),
        ({
            let out = spec_insert_ref(
                DepsOut { deps: old(rule).deps@, named: old(rule).named_deps@ },
                dep_name@,
                pkg_name@,
                label@,
            );
            final(rule).deps@ == out.deps && final(rule).named_deps@ == out.named
        }),
{
    let folded = underscore(pkg_name);
    if !str_eq(dep_name.as_str(), folded.as_str()) {
        rule.named_deps.insert(dep_name.clone(), label);
    } else {
        rule.deps.insert(label);
    }
}

/// Gather the dependency references of one compile rule from a node's edges,
/// in edge order; only the `deps` and `named_deps` collections change. The
/// result is exactly the fold [`spec_set_deps`] over the node's edges, and
/// an error is that fold's error: a selected first-party dependency whose
/// manifest is outside the project root or that does not expose exactly one
/// library-family unit.
pub fn set_deps(
    rule: &mut RustRuleData,
    node: &Node,
    ctx: &BuckalContext,
    kind: CargoTargetKind,
    buck_file: &str,
) -> (r: Result<(), BuckalError>)
    requires
        ctx.wf(),
        old(rule).wf(),
    ensures
        ({
            let init = DepsOut { deps: old(rule).deps@, named: old(rule).named_deps@ };
            let folded = spec_set_deps(init, node.deps@, node.id@, *ctx, kind, buck_file@);
            match r {
                Ok(_) => final(rule).wf() && spec_same_except_deps(*final(rule), *old(rule))
                    && folded == Ok::<DepsOut, SpecErr>(
                    DepsOut { deps: final(rule).deps@, named: final(rule).named_deps@ },
                ),
                Err(e) => match folded {
                    Ok(_) => false,
                    Err(se) => err_matches(e, se),
                },
            }
        }),
{
    let ghost init = DepsOut { deps: old(rule).deps@, named: old(rule).named_deps@ };
    let n = node.deps.len();
    proof {
        assert(node.deps@.take(0) =~= Seq::<NodeDep>::empty());
    }
    let mut i: usize = 0;
    while i < n
        invariant
            ctx.wf(),
            rule.wf(),
            n == node.deps@.len(),
            0 <= i <= n,
            spec_same_except_deps(*rule, *old(rule)),
            init == (DepsOut { deps: old(rule).deps@, named: old(rule).named_deps@ }),
            spec_set_deps(init, node.deps@.take(i as int), node.id@, *ctx, kind, buck_file@)
                == Ok::<DepsOut, SpecErr>(
                DepsOut { deps: rule.deps@, named: rule.named_deps@ },
            ),
        decreases n - i,
    {
        let ghost cur = DepsOut { deps: rule.deps@, named: rule.named_deps@ };
        proof {
            assert(node.deps@.take(i + 1).drop_last() =~= node.deps@.take(i as int));
            assert(node.deps@.take(i + 1).last() == node.deps@[i as int]);
        }
        let dep = &node.deps[i];
        match ctx.packages_map.get(dep.pkg.as_str()) {
            None => {},
            Some(p) => {
                if edge_selected(&dep.dep_kinds, kind, ctx.target_triple.as_str(), &ctx.cfgs) {
                    if p.source.is_none() {
                        if !path_has_prefix(p.manifest_dir.as_str(), ctx.buck2_root.as_str()) {
                            proof {
                                lemma_set_deps_err(
                                    init,
                                    node.deps@,
                                    node.id@,
                                    *ctx,
                                    kind,
                                    buck_file@,
                                    i + 1,
                                );
                            }
                            return Err(
                                BuckalError::OutsideProjectRoot { package: p.name.clone() },
                            );
                        }
                        let libcount = count_lib_targets(p);
                        if libcount != 1 {
                            proof {
                                lemma_set_deps_err(
                                    init,
                                    node.deps@,
                                    node.id@,
                                    *ctx,
                                    kind,
                                    buck_file@,
                                    i + 1,
                                );
                            }
                            return Err(
                                BuckalError::MissingLibraryTarget {
                                    package: p.name.clone(),
                                    found: libcount,
                                },
                            );
                        }
                        proof {
                            lemma_lib_count_pos(p.targets@);
                            lemma_first_lib(p.targets@);
                        }
                        let lib = match first_lib_target(p) {
                            Some(lib) => lib,
                            None => {
                                proof {
                                    assert(false);
                                }
                                return Ok(());
                            },
                        };
                        let rel = strip_path_prefix(
                            p.manifest_dir.as_str(),
                            ctx.buck2_root.as_str(),
                        );
                        let collides = has_kind_named(p, TargetKind::Bin, lib.name.as_str());
                        let bname = buckal_lib_name(lib.name.as_str(), collides);
                        let mut label = rel.to_owned();
                        label.append(":");
                        label.append(bname.as_str());
                        let rewritten = ctx_rewrite(label.as_str(), ctx, buck_file);
                        insert_ref(rule, &dep.name, p.name.as_str(), rewritten);
                    } else {
                        let use_alias = ctx.repo_config.inherit_workspace_deps && str_eq(
                            node.id.as_str(),
                            ctx.root_id.as_str(),
                        );
                        let mut label = String::new();
                        if use_alias {
                            label.append("//third-party/rust:");
                            label.append(p.name.as_str());
                        } else {
                            label.append("//third-party/rust/crates/");
                            label.append(p.name.as_str());
                            label.append("/");
                            let ver = p.version.render();
                            label.append(ver.as_str());
                            label.append(":");
                            label.append(p.name.as_str());
                        }
                        let rewritten = ctx_rewrite(label.as_str(), ctx, buck_file);
                        insert_ref(rule, &dep.name, p.name.as_str(), rewritten);
                    }
                }
            },
        }
        i += 1;
    }
    proof {
        assert(node.deps@.take(n as int) =~= node.deps@);
    }
    Ok(())
}

} // verus!

verus! {

/// Fatal invariant of the classifier: when any selected edge points at a
/// first-party package that does not expose exactly one library-family unit
/// (two, say), gathering references aborts with an error instead of silently
/// picking one.
pub proof fn lemma_fatal_on_ambiguous_library(
    st: DepsOut,
    deps: Seq<NodeDep>,
    node_id: Seq<char>,
    ctx: BuckalContext,
    kind: CargoTargetKind,
    file: Seq<char>,
)
    requires
        exists|j: int|
            {
                &&& 0 <= j < deps.len()
                &&& ctx.packages_map@.contains_key(#[trigger] deps[j].pkg@)
                &&& spec_edge_selected(
                    deps[j].dep_kinds@,
                    kind,
                    ctx.target_triple@,
                    ctx.cfgs.deep_view(),
                )
                &&& ctx.packages_map@[deps[j].pkg@].source is None
                &&& spec_lib_count(ctx.packages_map@[deps[j].pkg@].targets@) != 1
            },
    ensures
        spec_set_deps(st, deps, node_id, ctx, kind, file) is Err,
    decreases deps.len(),
{
    let j = choose|j: int|
        {
            &&& 0 <= j < deps.len()
            &&& ctx.packages_map@.contains_key(#[trigger] deps[j].pkg@)
            &&& spec_edge_selected(
                deps[j].dep_kinds@,
                kind,
                ctx.target_triple@,
                ctx.cfgs.deep_view(),
            )
            &&& ctx.packages_map@[deps[j].pkg@].source is None
            &&& spec_lib_count(ctx.packages_map@[deps[j].pkg@].targets@) != 1
        };
    if j == deps.len() - 1 {
        match spec_set_deps(st, deps.drop_last(), node_id, ctx, kind, file) {
            Ok(cur) => {
                assert(spec_add_dep(cur, deps.last(), node_id, ctx, kind, file) is Err);
            },
            Err(_) => {},
        }
    } else {
        assert(deps.drop_last()[j] == deps[j]);
        assert(exists|i: int|
            {
                &&& 0 <= i < deps.drop_last().len()
                &&& ctx.packages_map@.contains_key(#[trigger] deps.drop_last()[i].pkg@)
                &&& spec_edge_selected(
                    deps.drop_last()[i].dep_kinds@,
                    kind,
                    ctx.target_triple@,
                    ctx.cfgs.deep_view(),
                )
                &&& ctx.packages_map@[deps.drop_last()[i].pkg@].source is None
                &&& spec_lib_count(ctx.packages_map@[deps.drop_last()[i].pkg@].targets@) != 1
            });
        lemma_fatal_on_ambiguous_library(st, deps.drop_last(), node_id, ctx, kind, file);
    }
}

} // verus!
