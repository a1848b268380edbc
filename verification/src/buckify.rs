//! The rule-graph translator: per-package emission of vendor, manifest,
//! compile and build-script rules.

use vstd::prelude::*;

use crate::classify::{
    buckal_lib_name, check_dep_target, ctx_rewrite, first_lib_target, get_build_name,
    get_vendor_target, has_kind_named, is_lib_target, set_deps, spec_buckal_lib_name,
    spec_build_name, spec_ctx_rewrite, spec_dep_target_matches, spec_first_lib,
    spec_has_kind_named, spec_is_lib_target, spec_set_deps, spec_target_has_kind,
    spec_underscore, target_has_kind, underscore, CargoTargetKind, DepsOut,
};
use crate::model::{
    err_matches, BuckalContext, BuckalError, BuckalTarget, DepKind, Node, NodeDep, Package,
    SpecErr, TargetKind,
};
use crate::pathutil::{path_has_prefix, spec_path_has_prefix, spec_strip_path_prefix,
    strip_path_prefix};
use crate::rules::{BuildscriptRun, CargoManifest, FileGroup, Glob, HttpArchive, Load, Rule,
    RustRuleData};
use crate::strmap::{spec_str_set, strset_from_vec, strset_single, StrMap, StrSet};
use crate::version::spec_version_chars;

verus! {

/// The checksum-table key of a package, `name-version`.
pub open spec fn spec_checksum_key(p: Package) -> Seq<char> {
    p.name@ + "-"@ + spec_version_chars(p.version)
}

/// The registry URL a vendor-fetch rule downloads.
pub open spec fn spec_crate_url(p: Package) -> Seq<char> {
    "https://static.crates.io/crates/"@ + p.name@ + "/"@ + p.name@ + "-"@ + spec_version_chars(
        p.version,
    ) + ".crate"@
}

/// The vendor-fetch rule of a third-party package.
pub open spec fn spec_http_archive_ok(h: HttpArchive, p: Package, ctx: BuckalContext) -> bool {
    &&& h.name@ == p.name@ + "-vendor"@
    &&& h.urls.wf()
    &&& h.urls@ == Set::<Seq<char>>::empty().insert(spec_crate_url(p))
    &&& ctx.checksums_map@.contains_key(spec_checksum_key(p))
    &&& h.sha256@ == ctx.checksums_map@[spec_checksum_key(p)]
    &&& h.archive_type@ == "tar.gz"@
    &&& h.strip_prefix@ == p.name@ + "-"@ + spec_version_chars(p.version)
    &&& match h.out {
        Some(o) => o@ == "vendor"@,
        None => false,
    }
}

/// Emit the vendor-fetch rule: the registry archive keyed by name and
/// version, with the checksum looked up from the table; a missing checksum
/// is fatal.
pub fn emit_http_archive(package: &Package, ctx: &BuckalContext) -> (r: Result<
    HttpArchive,
    BuckalError,
>)
    requires
        ctx.wf(),
    ensures
        match r {
            Ok(h) => spec_http_archive_ok(h, *package, *ctx),
            Err(e) => !ctx.checksums_map@.contains_key(spec_checksum_key(*package))
                && err_matches(e, SpecErr::MissingChecksum { package: spec_checksum_key(*package) }),
        },
{
    let ver = package.version.render();
    let mut key = package.name.clone();
    key.append("-");
    key.append(ver.as_str());
    let checksum = match ctx.checksums_map.get(key.as_str()) {
        Some(c) => c.clone(),
        None => {
            return Err(BuckalError::MissingChecksum { package: key });
        },
    };
    let mut vendor_name = package.name.clone();
    vendor_name.append("-vendor");
    let mut url = String::from_str("https://static.crates.io/crates/");
    url.append(package.name.as_str());
    url.append("/");
    url.append(package.name.as_str());
    url.append("-");
    url.append(ver.as_str());
    url.append(".crate");
    let mut strip = package.name.clone();
    strip.append("-");
    strip.append(ver.as_str());
    Ok(
        HttpArchive {
            name: vendor_name,
            urls: strset_single(url),
            sha256: checksum,
            archive_type: "tar.gz".to_owned(),
            strip_prefix: strip,
            out: Some("vendor".to_owned()),
        },
    )
}

/// The first-party source group of a package.
pub open spec fn spec_filegroup_ok(f: FileGroup, p: Package) -> bool {
    &&& f.name@ == p.name@ + "-vendor"@
    &&& f.srcs.taken.wf()
    &&& f.srcs.taken@ == Set::<Seq<char>>::empty().insert("**/**"@)
    &&& f.srcs.left_out@ == Set::<Seq<char>>::empty()
    &&& match f.out {
        Some(o) => o@ == "vendor"@,
        None => false,
    }
}

/// Emit the source group covering a first-party package's tree.
pub fn emit_filegroup(package: &Package) -> (r: FileGroup)
    ensures
        spec_filegroup_ok(r, *package),
{
    let mut vendor_name = package.name.clone();
    vendor_name.append("-vendor");
    FileGroup {
        name: vendor_name,
        srcs: Glob { taken: strset_single("**/**".to_owned()), left_out: StrSet::new() },
        out: Some("vendor".to_owned()),
    }
}

/// The manifest-asset rule of a package.
pub open spec fn spec_manifest_ok(m: CargoManifest, p: Package) -> bool {
    &&& m.name@ == p.name@ + "-manifest"@
    &&& m.vendor@ == ":"@ + p.name@ + "-vendor"@
}

/// Emit the manifest-asset rule of a package.
pub fn emit_cargo_manifest(package: &Package) -> (r: CargoManifest)
    ensures
        spec_manifest_ok(r, *package),
{
    let mut name = package.name.clone();
    name.append("-manifest");
    CargoManifest { name, vendor: get_vendor_target(package) }
}

/// The fields of one compile rule, before any build-script patching.
/// `public_vis` grants public visibility, `set_proc_macro` lets a proc-macro
/// unit mark the rule, and `set_platform` applies the package's
/// platform-compatibility constraint.
pub open spec fn spec_compile_rule_ok(
    rule: RustRuleData,
    p: Package,
    node: Node,
    t: BuckalTarget,
    name: Seq<char>,
    ctx: BuckalContext,
    kind: CargoTargetKind,
    file: Seq<char>,
    public_vis: bool,
    set_proc_macro: bool,
    set_platform: bool,
) -> bool {
    &&& rule.wf()
    &&& rule.name@ == name
    &&& rule.crate_name@ == spec_underscore(t.name@)
    &&& spec_path_has_prefix(t.src_path@, p.manifest_dir@)
    &&& rule.crate_root@ == "vendor/"@ + spec_strip_path_prefix(t.src_path@, p.manifest_dir@)
    &&& rule.edition@ == p.edition@
    &&& rule.srcs@ == Set::<Seq<char>>::empty().insert(":"@ + p.name@ + "-vendor"@)
    &&& rule.features@ == spec_str_set(node.features.deep_view())
    &&& rule.rustc_flags@ == Set::<Seq<char>>::empty().insert(
        "@$(location :"@ + p.name@ + "-manifest[env_flags])"@,
    )
    &&& rule.visibility@ == if public_vis {
        Set::<Seq<char>>::empty().insert("PUBLIC"@)
    } else {
        Set::<Seq<char>>::empty()
    }
    &&& rule.proc_macro == (set_proc_macro && spec_target_has_kind(t, TargetKind::ProcMacro))
    &&& rule.compatible_with@ == if set_platform && ctx.platforms_map@.contains_key(p.name@) {
        spec_str_set(ctx.platforms_map@[p.name@].deep_view())
    } else {
        Set::<Seq<char>>::empty()
    }
    &&& rule.env@ == Map::<Seq<char>, Seq<char>>::empty()
    &&& match spec_set_deps(
        DepsOut { deps: Set::empty(), named: Map::empty() },
        node.deps@,
        node.id@,
        ctx,
        kind,
        file,
    ) {
        Ok(o) => rule.deps@ == o.deps && rule.named_deps@ == o.named,
        Err(_) => false,
    }
}

/// What can abort emitting one compile rule: the unit's source root escaping
/// the manifest directory, then a classifier error.
pub open spec fn spec_unit_err(
    p: Package,
    node: Node,
    t: BuckalTarget,
    ctx: BuckalContext,
    kind: CargoTargetKind,
    file: Seq<char>,
) -> Option<SpecErr> {
    if !spec_path_has_prefix(t.src_path@, p.manifest_dir@) {
        Some(SpecErr::SourceRootOutsideManifest { package: p.name@ })
    } else {
        match spec_set_deps(
            DepsOut { deps: Set::empty(), named: Map::empty() },
            node.deps@,
            node.id@,
            ctx,
            kind,
            file,
        ) {
            Ok(_) => None,
            Err(e) => Some(e),
        }
    }
}

/// Emit one compile rule for a unit.
pub fn emit_compile_rule(
    package: &Package,
    node: &Node,
    target: &BuckalTarget,
    buckal_name: String,
    ctx: &BuckalContext,
    kind: CargoTargetKind,
    buck_file: &str,
    public_vis: bool,
    set_proc_macro: bool,
    set_platform: bool,
) -> (r: Result<RustRuleData, BuckalError>)
    requires
        ctx.wf(),
    ensures
        match r {
            Ok(rule) => spec_unit_err(*package, *node, *target, *ctx, kind, buck_file@)
                is None && spec_compile_rule_ok(
                rule,
                *package,
                *node,
                *target,
                buckal_name@,
                *ctx,
                kind,
                buck_file@,
                public_vis,
                set_proc_macro,
                set_platform,
            ),
            Err(e) => match spec_unit_err(*package, *node, *target, *ctx, kind, buck_file@) {
                Some(se) => err_matches(e, se),
                None => false,
            },
        },
{
    if !path_has_prefix(target.src_path.as_str(), package.manifest_dir.as_str()) {
        return Err(BuckalError::SourceRootOutsideManifest { package: package.name.clone() });
    }
    let mut crate_root = String::from_str("vendor/");
    crate_root.append(
        strip_path_prefix(target.src_path.as_str(), package.manifest_dir.as_str()),
    );
    let mut flags = String::from_str("@$(location :");
    flags.append(package.name.as_str());
    flags.append("-manifest[env_flags])");
    let compatible_with = if set_platform {
        match ctx.platforms_map.get(package.name.as_str()) {
            Some(v) => strset_from_vec(v),
            None => StrSet::new(),
        }
    } else {
        StrSet::new()
    };
    let mut rule = RustRuleData {
        name: buckal_name,
        crate_name: underscore(target.name.as_str()),
        crate_root,
        edition: package.edition.clone(),
        srcs: strset_single(get_vendor_target(package)),
        features: strset_from_vec(&node.features),
        rustc_flags: strset_single(flags),
        deps: StrSet::new(),
        named_deps: StrMap::new(),
        env: StrMap::new(),
        compatible_with,
        visibility: if public_vis {
            strset_single("PUBLIC".to_owned())
        } else {
            StrSet::new()
        },
        proc_macro: set_proc_macro && target_has_kind(target, TargetKind::ProcMacro),
    };
    match set_deps(&mut rule, node, ctx, kind, buck_file) {
        Ok(_) => Ok(rule),
        Err(e) => Err(e),
    }
}

} // verus!

verus! {

/// The first unit of a given kind, if any.
pub open spec fn spec_first_with_kind(ts: Seq<BuckalTarget>, k: TargetKind) -> Option<int>
    decreases ts.len(),
{
    if ts.len() == 0 {
        None
    } else if spec_target_has_kind(ts[0], k) {
        Some(0)
    } else {
        match spec_first_with_kind(ts.skip(1), k) {
            Some(i) => Some(i + 1),
            None => None,
        }
    }
}

pub proof fn lemma_first_with_kind(ts: Seq<BuckalTarget>, k: TargetKind)
    ensures
        match spec_first_with_kind(ts, k) {
            Some(i) => 0 <= i < ts.len() && spec_target_has_kind(ts[i], k) && forall|j: int|
                0 <= j < i ==> !spec_target_has_kind(ts[j], k),
            None => forall|j: int| 0 <= j < ts.len() ==> !spec_target_has_kind(ts[j], k),
        },
    decreases ts.len(),
{
    if ts.len() > 0 && !spec_target_has_kind(ts[0], k) {
        lemma_first_with_kind(ts.skip(1), k);
        assert(forall|j: int| 1 <= j < ts.len() ==> ts[j] == ts.skip(1)[j - 1]);
    }
}

pub fn first_target_with_kind<'a>(package: &'a Package, k: TargetKind) -> (r: Option<
    &'a BuckalTarget,
>)
    ensures
        match r {
            Some(t) => spec_first_with_kind(package.targets@, k) is Some && *t
                == package.targets@[spec_first_with_kind(package.targets@, k)->Some_0],
            None => spec_first_with_kind(package.targets@, k) is None,
        },
{
    let ghost ts = package.targets@;
    let n = package.targets.len();
    let mut i: usize = 0;
    while i < n
        invariant
            n == ts.len(),
            ts == package.targets@,
            0 <= i <= n,
            forall|j: int| 0 <= j < i ==> !spec_target_has_kind(ts[j], k),
        decreases n - i,
    {
        if target_has_kind(&package.targets[i], k) {
            proof {
                lemma_first_with_kind(ts, k);
                match spec_first_with_kind(ts, k) {
                    Some(f) => {
                        assert(!(f < i) && !(f > i));
                    },
                    None => {
                        assert(spec_target_has_kind(ts[i as int], k));
                    },
                }
            }
            return Some(&package.targets[i]);
        }
        i += 1;
    }
    proof {
        lemma_first_with_kind(ts, k);
        if spec_first_with_kind(ts, k) is Some {
            let f = spec_first_with_kind(ts, k)->Some_0;
            assert(!spec_target_has_kind(ts[f], k));
        }
    }
    None
}

/// An edge carries a Normal-kind pair that matches the current platform.
pub open spec fn spec_links_selected(
    dep_kinds: Seq<crate::model::DepKindInfo>,
    target: Seq<char>,
    cfgs: Seq<Seq<char>>,
) -> bool {
    exists|i: int|
        0 <= i < dep_kinds.len() && (#[trigger] dep_kinds[i].kind) == DepKind::Normal
            && spec_dep_target_matches(dep_kinds[i], target, cfgs)
}

fn links_selected(
    dep_kinds: &Vec<crate::model::DepKindInfo>,
    target: &str,
    cfgs: &Vec<String>,
) -> (r: bool)
    ensures
        r == spec_links_selected(dep_kinds@, target@, cfgs.deep_view()),
{
    let n = dep_kinds.len();
    let mut i: usize = 0;
    while i < n
        invariant
            n == dep_kinds@.len(),
            0 <= i <= n,
            forall|j: int|
                0 <= j < i ==> !((#[trigger] dep_kinds@[j].kind) == DepKind::Normal
                    && spec_dep_target_matches(dep_kinds@[j], target@, cfgs.deep_view())),
        decreases n - i,
    {
        let dk = &dep_kinds[i];
        if matches!(dk.kind, DepKind::Normal) && check_dep_target(dk, target, cfgs) {
            return true;
        }
        i += 1;
    }
    false
}

/// How one edge contributes to a build-script run's environment sources: a
/// platform-matching Normal edge onto a `links`-marked package adds that
/// package's own build-script-run metadata artifact, and such a package
/// without a build-script unit is fatal.
pub open spec fn spec_add_links(
    st: Set<Seq<char>>,
    dep: NodeDep,
    ctx: BuckalContext,
    file: Seq<char>,
) -> Result<Set<Seq<char>>, SpecErr> {
    if !ctx.packages_map@.contains_key(dep.pkg@) {
        Ok(st)
    } else {
        let p = ctx.packages_map@[dep.pkg@];
        if p.links is None || !spec_links_selected(
            dep.dep_kinds@,
            ctx.target_triple@,
            ctx.cfgs.deep_view(),
        ) {
            Ok(st)
        } else {
            match spec_first_with_kind(p.targets@, TargetKind::CustomBuild) {
                None => Err(SpecErr::LinksWithoutBuildScript { package: p.name@ }),
                Some(bi) => {
                    let bn = spec_build_name(p.targets@[bi].name@);
                    let label = "//third-party/rust/crates/"@ + p.name@ + "/"@
                        + spec_version_chars(p.version) + ":"@ + p.name@ + "-"@ + bn
                        + "-run[metadata]"@;
                    Ok(st.insert(spec_ctx_rewrite(label, ctx, file)))
                },
            }
        }
    }
}

pub open spec fn spec_links_env(
    st: Set<Seq<char>>,
    deps: Seq<NodeDep>,
    ctx: BuckalContext,
    file: Seq<char>,
) -> Result<Set<Seq<char>>, SpecErr>
    decreases deps.len(),
{
    if deps.len() == 0 {
        Ok(st)
    } else {
        match spec_links_env(st, deps.drop_last(), ctx, file) {
            Ok(cur) => spec_add_links(cur, deps.last(), ctx, file),
            Err(e) => Err(e),
        }
    }
}

proof fn lemma_links_env_err(
    st: Set<Seq<char>>,
    deps: Seq<NodeDep>,
    ctx: BuckalContext,
    file: Seq<char>,
    i: int,
)
    requires
        0 <= i <= deps.len(),
        spec_links_env(st, deps.take(i), ctx, file) is Err,
    ensures
        spec_links_env(st, deps, ctx, file) == spec_links_env(st, deps.take(i), ctx, file),
    decreases deps.len() - i,
{
    if i < deps.len() {
        assert(deps.take(i + 1).drop_last() =~= deps.take(i));
        assert(deps.take(i + 1).last() == deps[i]);
        lemma_links_env_err(st, deps, ctx, file, i + 1);
    } else {
        assert(deps.take(i) =~= deps);
    }
}

/// The build-script-run rule of a package with a build script.
pub open spec fn spec_bs_run_ok(
    r: BuildscriptRun,
    p: Package,
    node: Node,
    bt: BuckalTarget,
    ctx: BuckalContext,
    file: Seq<char>,
) -> bool {
    let bn = spec_build_name(bt.name@);
    &&& r.wf()
    &&& r.name@ == p.name@ + "-"@ + bn + "-run"@
    &&& r.package_name@ == p.name@
    &&& r.buildscript_rule@ == ":"@ + p.name@ + "-"@ + bt.name@
    &&& r.version@ == spec_version_chars(p.version)
    &&& r.manifest_dir@ == ":"@ + p.name@ + "-vendor"@
    &&& r.features@ == spec_str_set(node.features.deep_view())
    &&& r.visibility@ == Set::<Seq<char>>::empty().insert("PUBLIC"@)
    &&& match spec_links_env(
        Set::<Seq<char>>::empty().insert(":"@ + p.name@ + "-manifest[env_dict]"@),
        node.deps@,
        ctx,
        file,
    ) {
        Ok(s) => r.env_srcs@ == s,
        Err(_) => false,
    }
}

/// Emit the build-script-run rule, collecting the metadata artifacts of
/// `links`-marked platform-matching Normal dependencies.
pub fn emit_buildscript_run(
    package: &Package,
    node: &Node,
    build_target: &BuckalTarget,
    ctx: &BuckalContext,
    buck_file: &str,
) -> (r: Result<BuildscriptRun, BuckalError>)
    requires
        ctx.wf(),
    ensures
        ({
            let folded = spec_links_env(
                Set::<Seq<char>>::empty().insert(":"@ + package.name@ + "-manifest[env_dict]"@),
                node.deps@,
                *ctx,
                buck_file@,
            );
            match r {
                Ok(br) => folded is Ok && spec_bs_run_ok(
                    br,
                    *package,
                    *node,
                    *build_target,
                    *ctx,
                    buck_file@,
                ),
                Err(e) => match folded {
                    Ok(_) => false,
                    Err(se) => err_matches(e, se),
                },
            }
        }),
{
    let build_name = get_build_name(build_target.name.as_str());
    let mut name = package.name.clone();
    name.append("-");
    name.append(build_name.as_str());
    name.append("-run");
    let mut bs_rule = String::from_str(":");
    bs_rule.append(package.name.as_str());
    bs_rule.append("-");
    bs_rule.append(build_target.name.as_str());
    let mut env_dict = String::from_str(":");
    env_dict.append(package.name.as_str());
    env_dict.append("-manifest[env_dict]");
    let mut env_srcs = strset_single(env_dict);
    let ghost init = env_srcs@;
    let n = node.deps.len();
    proof {
        assert(node.deps@.take(0) =~= Seq::<NodeDep>::empty());
    }
    let mut i: usize = 0;
    while i < n
        invariant
            ctx.wf(),
            n == node.deps@.len(),
            0 <= i <= n,
            env_srcs.wf(),
            init == Set::<Seq<char>>::empty().insert(":"@ + package.name@
                + "-manifest[env_dict]"@),
            spec_links_env(init, node.deps@.take(i as int), *ctx, buck_file@) == Ok::<
                Set<Seq<char>>,
                SpecErr,
            >(env_srcs@),
        decreases n - i,
    {
        proof {
            assert(node.deps@.take(i + 1).drop_last() =~= node.deps@.take(i as int));
            assert(node.deps@.take(i + 1).last() == node.deps@[i as int]);
        }
        let dep = &node.deps[i];
        match ctx.packages_map.get(dep.pkg.as_str()) {
            None => {},
            Some(p) => {
                if p.links.is_some() && links_selected(
                    &dep.dep_kinds,
                    ctx.target_triple.as_str(),
                    &ctx.cfgs,
                ) {
                    match first_target_with_kind(p, TargetKind::CustomBuild) {
                        None => {
                            proof {
                                lemma_links_env_err(
                                    init,
                                    node.deps@,
                                    *ctx,
                                    buck_file@,
                                    i + 1,
                                );
                            }
                            return Err(
                                BuckalError::LinksWithoutBuildScript {
                                    package: p.name.clone(),
                                },
                            );
                        },
                        Some(bt_dep) => {
                            let bn_dep = get_build_name(bt_dep.name.as_str());
                            let mut label = String::from_str("//third-party/rust/crates/");
                            label.append(p.name.as_str());
                            label.append("/");
                            let ver = p.version.render();
                            label.append(ver.as_str());
                            label.append(":");
                            label.append(p.name.as_str());
                            label.append("-");
                            label.append(bn_dep.as_str());
                            label.append("-run[metadata]");
                            let rewritten = ctx_rewrite(label.as_str(), ctx, buck_file);
                            env_srcs.insert(rewritten);
                        },
                    }
                }
            },
        }
        i += 1;
    }
    proof {
        assert(node.deps@.take(n as int) =~= node.deps@);
    }
    Ok(
        BuildscriptRun {
            name,
            package_name: package.name.clone(),
            buildscript_rule: bs_rule,
            version: package.version.render(),
            manifest_dir: get_vendor_target(package),
            env_srcs,
            features: strset_from_vec(&node.features),
            visibility: strset_single("PUBLIC".to_owned()),
        },
    )
}

/// A compile rule patched for a build script: `OUT_DIR` and the extra
/// compiler flags come from the build-script run's declared outputs.
pub open spec fn spec_patched(
    rule: RustRuleData,
    before: RustRuleData,
    p: Package,
    bt: BuckalTarget,
) -> bool {
    let bn = spec_build_name(bt.name@);
    &&& rule.name == before.name
    &&& rule.crate_name == before.crate_name
    &&& rule.crate_root == before.crate_root
    &&& rule.edition == before.edition
    &&& rule.srcs == before.srcs
    &&& rule.features == before.features
    &&& rule.deps == before.deps
    &&& rule.named_deps == before.named_deps
    &&& rule.compatible_with == before.compatible_with
    &&& rule.visibility == before.visibility
    &&& rule.proc_macro == before.proc_macro
    &&& rule.env@ == before.env@.insert(
        "OUT_DIR"@,
        "$(location :"@ + p.name@ + "-"@ + bn + "-run[out_dir])"@,
    )
    &&& rule.rustc_flags@ == before.rustc_flags@.insert(
        "@$(location :"@ + p.name@ + "-"@ + bn + "-run[rustc_flags])"@,
    )
}

/// Patch a compile rule to read `OUT_DIR` and extra flags from its package's
/// build-script run.
pub fn patch_with_buildscript(
    rule: &mut RustRuleData,
    build_target: &BuckalTarget,
    package: &Package,
)
    requires
        old(rule).wf(),
    ensures
        final(rule).wf(),
        spec_patched(*final(rule), *old(rule), *package, *build_target),
{
    let build_name = get_build_name(build_target.name.as_str());
    let mut out_dir = String::from_str("$(location :");
    out_dir.append(package.name.as_str());
    out_dir.append("-");
    out_dir.append(build_name.as_str());
    out_dir.append("-run[out_dir])");
    rule.env.insert("OUT_DIR".to_owned(), out_dir);
    let mut flag = String::from_str("@$(location :");
    flag.append(package.name.as_str());
    flag.append("-");
    flag.append(build_name.as_str());
    flag.append("-run[rustc_flags])");
    rule.rustc_flags.insert(flag);
}

} // verus!

verus! {

/// A compile rule after build-script patching: all the base fields, with
/// `OUT_DIR` and the extra-flags entry added.
pub open spec fn spec_patched_rule_ok(
    rule: RustRuleData,
    p: Package,
    node: Node,
    t: BuckalTarget,
    name: Seq<char>,
    ctx: BuckalContext,
    kind: CargoTargetKind,
    file: Seq<char>,
    public_vis: bool,
    set_proc_macro: bool,
    set_platform: bool,
    bt: BuckalTarget,
) -> bool {
    exists|base: RustRuleData|
        #[trigger] spec_compile_rule_ok(
            base,
            p,
            node,
            t,
            name,
            ctx,
            kind,
            file,
            public_vis,
            set_proc_macro,
            set_platform,
        ) && spec_patched(rule, base, p, bt)
}

/// What aborts translating one dependency package, in the order the
/// translator hits it: an unknown package, a package with no library-family
/// unit, a missing checksum, the library rule's own failures, then the
/// build-script rules' failures.
pub open spec fn spec_buckify_dep_err(
    node: Node,
    ctx: BuckalContext,
    file: Seq<char>,
) -> Option<SpecErr> {
    if !ctx.packages_map@.contains_key(node.id@) {
        Some(SpecErr::MissingPackage { id: node.id@ })
    } else {
        let p = ctx.packages_map@[node.id@];
        match spec_first_lib(p.targets@) {
            None => Some(SpecErr::MissingLibraryTarget { package: p.name@, found: 0 }),
            Some(li) => {
                if !ctx.checksums_map@.contains_key(spec_checksum_key(p)) {
                    Some(SpecErr::MissingChecksum { package: spec_checksum_key(p) })
                } else {
                    match spec_unit_err(p, node, p.targets@[li], ctx, CargoTargetKind::Lib,
                        file) {
                        Some(e) => Some(e),
                        None => match spec_first_with_kind(
                            p.targets@,
                            TargetKind::CustomBuild,
                        ) {
                            None => None,
                            Some(bi) => {
                                let bt = p.targets@[bi];
                                match spec_unit_err(
                                    p,
                                    node,
                                    bt,
                                    ctx,
                                    CargoTargetKind::CustomBuild,
                                    file,
                                ) {
                                    Some(e) => Some(e),
                                    None => match spec_links_env(
                                        Set::<Seq<char>>::empty().insert(
                                            ":"@ + p.name@ + "-manifest[env_dict]"@,
                                        ),
                                        node.deps@,
                                        ctx,
                                        file,
                                    ) {
                                        Ok(_) => None,
                                        Err(e) => Some(e),
                                    },
                                }
                            },
                        },
                    }
                }
            },
        }
    }
}

/// The rules of one dependency package: the vendor fetch, the manifest
/// asset, one library compile rule, and, for a package with a build script,
/// the patched library rule followed by the build-script compile and run
/// rules.
pub open spec fn spec_buckify_dep_ok(
    rules: Seq<Rule>,
    node: Node,
    ctx: BuckalContext,
    file: Seq<char>,
) -> bool {
    let p = ctx.packages_map@[node.id@];
    let li = spec_first_lib(p.targets@)->Some_0;
    let lib = p.targets@[li];
    let bs = spec_first_with_kind(p.targets@, TargetKind::CustomBuild);
    &&& ctx.packages_map@.contains_key(node.id@)
    &&& spec_first_lib(p.targets@) is Some
    &&& rules.len() == (if bs is Some {
        5int
    } else {
        3int
    })
    &&& (rules[0] matches Rule::HttpArchive(h) && spec_http_archive_ok(h, p, ctx))
    &&& (rules[1] matches Rule::CargoManifest(m) && spec_manifest_ok(m, p))
    &&& match bs {
        None => rules[2] matches Rule::RustLibrary(l) && spec_compile_rule_ok(
            l,
            p,
            node,
            lib,
            p.name@,
            ctx,
            CargoTargetKind::Lib,
            file,
            true,
            true,
            true,
        ),
        Some(bi) => {
            let bt = p.targets@[bi];
            &&& (rules[2] matches Rule::RustLibrary(l) && spec_patched_rule_ok(
                l,
                p,
                node,
                lib,
                p.name@,
                ctx,
                CargoTargetKind::Lib,
                file,
                true,
                true,
                true,
                bt,
            ))
            &&& (rules[3] matches Rule::RustBinary(b) && spec_compile_rule_ok(
                b,
                p,
                node,
                bt,
                p.name@ + "-"@ + bt.name@,
                ctx,
                CargoTargetKind::CustomBuild,
                file,
                false,
                false,
                false,
            ))
            &&& (rules[4] matches Rule::BuildscriptRun(br) && spec_bs_run_ok(
                br,
                p,
                node,
                bt,
                ctx,
                file,
            ))
        },
    }
}

/// Translate one dependency package into its rules, written to the file at
/// `buck_file`.
pub fn buckify_dep_node(node: &Node, ctx: &BuckalContext, buck_file: &str) -> (r: Result<
    Vec<Rule>,
    BuckalError,
>)
    requires
        ctx.wf(),
    ensures
        match r {
            Ok(rules) => spec_buckify_dep_err(*node, *ctx, buck_file@) is None
                && spec_buckify_dep_ok(rules@, *node, *ctx, buck_file@),
            Err(e) => match spec_buckify_dep_err(*node, *ctx, buck_file@) {
                Some(se) => err_matches(e, se),
                None => false,
            },
        },
{
    let package = match ctx.packages_map.get(node.id.as_str()) {
        Some(p) => p,
        None => {
            return Err(BuckalError::MissingPackage { id: node.id.clone() });
        },
    };
    let lib_target = match first_lib_target(package) {
        Some(t) => t,
        None => {
            return Err(
                BuckalError::MissingLibraryTarget { package: package.name.clone(), found: 0 },
            );
        },
    };
    let http = match emit_http_archive(package, ctx) {
        Ok(h) => h,
        Err(e) => {
            return Err(e);
        },
    };
    let mut lib_rule = match emit_compile_rule(
        package,
        node,
        lib_target,
        package.name.clone(),
        ctx,
        CargoTargetKind::Lib,
        buck_file,
        true,
        true,
        true,
    ) {
        Ok(rule) => rule,
        Err(e) => {
            return Err(e);
        },
    };
    let mut rules: Vec<Rule> = Vec::new();
    rules.push(Rule::HttpArchive(http));
    rules.push(Rule::CargoManifest(emit_cargo_manifest(package)));
    match first_target_with_kind(package, TargetKind::CustomBuild) {
        None => {
            rules.push(Rule::RustLibrary(lib_rule));
            Ok(rules)
        },
        Some(build_target) => {
            let ghost base = lib_rule;
            patch_with_buildscript(&mut lib_rule, build_target, package);
            rules.push(Rule::RustLibrary(lib_rule));
            let mut bs_name = package.name.clone();
            bs_name.append("-");
            bs_name.append(build_target.name.as_str());
            let bs_build = match emit_compile_rule(
                package,
                node,
                build_target,
                bs_name,
                ctx,
                CargoTargetKind::CustomBuild,
                buck_file,
                false,
                false,
                false,
            ) {
                Ok(rule) => rule,
                Err(e) => {
                    return Err(e);
                },
            };
            rules.push(Rule::RustBinary(bs_build));
            let bs_run = match emit_buildscript_run(
                package,
                node,
                build_target,
                ctx,
                buck_file,
            ) {
                Ok(rule) => rule,
                Err(e) => {
                    return Err(e);
                },
            };
            rules.push(Rule::BuildscriptRun(bs_run));
            Ok(rules)
        },
    }
}

} // verus!

verus! {

/// One emission pass over a package's units.
pub enum Pass {
    Bins,
    Libs { ignore_tests: bool },
    Tests,
}

/// What one unit can contribute to a pass's failure.
pub open spec fn spec_pass_unit_err(
    p: Package,
    node: Node,
    t: BuckalTarget,
    ctx: BuckalContext,
    file: Seq<char>,
    pass: Pass,
) -> Option<SpecErr> {
    match pass {
        Pass::Bins => {
            if spec_target_has_kind(t, TargetKind::Bin) {
                spec_unit_err(p, node, t, ctx, CargoTargetKind::Bin, file)
            } else {
                None
            }
        },
        Pass::Libs { ignore_tests } => {
            if spec_is_lib_target(t) {
                match spec_unit_err(p, node, t, ctx, CargoTargetKind::Lib, file) {
                    Some(e) => Some(e),
                    None => {
                        if !ignore_tests && t.test {
                            spec_unit_err(p, node, t, ctx, CargoTargetKind::Test, file)
                        } else {
                            None
                        }
                    },
                }
            } else {
                None
            }
        },
        Pass::Tests => {
            if spec_target_has_kind(t, TargetKind::Test) {
                spec_unit_err(p, node, t, ctx, CargoTargetKind::Test, file)
            } else {
                None
            }
        },
    }
}

/// The first failure of a pass over a prefix of the unit list.
pub open spec fn spec_pass_err(
    p: Package,
    node: Node,
    ts: Seq<BuckalTarget>,
    ctx: BuckalContext,
    file: Seq<char>,
    pass: Pass,
) -> Option<SpecErr>
    decreases ts.len(),
{
    if ts.len() == 0 {
        None
    } else {
        match spec_pass_err(p, node, ts.drop_last(), ctx, file, pass) {
            Some(e) => Some(e),
            None => spec_pass_unit_err(p, node, ts.last(), ctx, file, pass),
        }
    }
}

proof fn lemma_pass_err_none(
    p: Package,
    node: Node,
    ts: Seq<BuckalTarget>,
    ctx: BuckalContext,
    file: Seq<char>,
    pass: Pass,
)
    requires
        forall|j: int| 0 <= j < ts.len() ==> spec_pass_unit_err(p, node, ts[j], ctx, file, pass)
            is None,
    ensures
        spec_pass_err(p, node, ts, ctx, file, pass) is None,
    decreases ts.len(),
{
    if ts.len() > 0 {
        assert(forall|j: int| 0 <= j < ts.drop_last().len() ==> ts.drop_last()[j] == ts[j]);
        lemma_pass_err_none(p, node, ts.drop_last(), ctx, file, pass);
    }
}

proof fn lemma_pass_err_at(
    p: Package,
    node: Node,
    ts: Seq<BuckalTarget>,
    ctx: BuckalContext,
    file: Seq<char>,
    pass: Pass,
    k: int,
)
    requires
        0 <= k < ts.len(),
        spec_pass_unit_err(p, node, ts[k], ctx, file, pass) is Some,
        forall|j: int| 0 <= j < k ==> spec_pass_unit_err(p, node, ts[j], ctx, file, pass)
            is None,
    ensures
        spec_pass_err(p, node, ts, ctx, file, pass) == spec_pass_unit_err(
            p,
            node,
            ts[k],
            ctx,
            file,
            pass,
        ),
    decreases ts.len(),
{
    assert(forall|j: int| 0 <= j < ts.drop_last().len() ==> ts.drop_last()[j] == ts[j]);
    if k == ts.len() - 1 {
        lemma_pass_err_none(p, node, ts.drop_last(), ctx, file, pass);
    } else {
        lemma_pass_err_at(p, node, ts.drop_last(), ctx, file, pass, k);
    }
}

/// What aborts translating the workspace-root package, in the order the
/// translator hits it: an unknown package, then binary, library (with
/// inline-test companions), and integration-test rule failures in unit
/// order, then the build-script rules' failures.
pub open spec fn spec_buckify_root_err(
    node: Node,
    ctx: BuckalContext,
    file: Seq<char>,
) -> Option<SpecErr> {
    if !ctx.packages_map@.contains_key(node.id@) {
        Some(SpecErr::MissingPackage { id: node.id@ })
    } else {
        let p = ctx.packages_map@[node.id@];
        let ts = p.targets@;
        let ig = ctx.repo_config.ignore_tests;
        match spec_pass_err(p, node, ts, ctx, file, Pass::Bins) {
            Some(e) => Some(e),
            None => match spec_pass_err(
                p,
                node,
                ts,
                ctx,
                file,
                Pass::Libs { ignore_tests: ig },
            ) {
                Some(e) => Some(e),
                None => {
                    let test_err = if !ig {
                        spec_pass_err(p, node, ts, ctx, file, Pass::Tests)
                    } else {
                        None
                    };
                    match test_err {
                        Some(e) => Some(e),
                        None => match spec_first_with_kind(ts, TargetKind::CustomBuild) {
                            None => None,
                            Some(bi) => {
                                let bt = ts[bi];
                                match spec_unit_err(
                                    p,
                                    node,
                                    bt,
                                    ctx,
                                    CargoTargetKind::CustomBuild,
                                    file,
                                ) {
                                    Some(e) => Some(e),
                                    None => match spec_links_env(
                                        Set::<Seq<char>>::empty().insert(
                                            ":"@ + p.name@ + "-manifest[env_dict]"@,
                                        ),
                                        node.deps@,
                                        ctx,
                                        file,
                                    ) {
                                        Ok(_) => None,
                                        Err(e) => Some(e),
                                    },
                                }
                            },
                        },
                    }
                },
            },
        }
    }
}

/// One workspace-root compile rule, directly by its fields: the base
/// emission, one optional extra positional reference, one optional extra
/// environment entry, and build-script patching when the package has a
/// build script.
pub open spec fn spec_root_rule_ok(
    b: RustRuleData,
    p: Package,
    node: Node,
    t: BuckalTarget,
    name: Seq<char>,
    ctx: BuckalContext,
    kind: CargoTargetKind,
    file: Seq<char>,
    public_vis: bool,
    set_proc_macro: bool,
    set_platform: bool,
    extra_dep: Option<Seq<char>>,
    extra_env: Option<(Seq<char>, Seq<char>)>,
    bs: Option<BuckalTarget>,
) -> bool {
    let flags0 = Set::<Seq<char>>::empty().insert(
        "@$(location :"@ + p.name@ + "-manifest[env_flags])"@,
    );
    let env0 = Map::<Seq<char>, Seq<char>>::empty();
    let env1 = match extra_env {
        Some(kv) => env0.insert(kv.0, kv.1),
        None => env0,
    };
    &&& b.wf()
    &&& b.name@ == name
    &&& b.crate_name@ == spec_underscore(t.name@)
    &&& spec_path_has_prefix(t.src_path@, p.manifest_dir@)
    &&& b.crate_root@ == "vendor/"@ + spec_strip_path_prefix(t.src_path@, p.manifest_dir@)
    &&& b.edition@ == p.edition@
    &&& b.srcs@ == Set::<Seq<char>>::empty().insert(":"@ + p.name@ + "-vendor"@)
    &&& b.features@ == spec_str_set(node.features.deep_view())
    &&& b.rustc_flags@ == match bs {
        Some(bt) => flags0.insert(
            "@$(location :"@ + p.name@ + "-"@ + spec_build_name(bt.name@)
                + "-run[rustc_flags])"@,
        ),
        None => flags0,
    }
    &&& b.visibility@ == if public_vis {
        Set::<Seq<char>>::empty().insert("PUBLIC"@)
    } else {
        Set::<Seq<char>>::empty()
    }
    &&& b.proc_macro == (set_proc_macro && spec_target_has_kind(t, TargetKind::ProcMacro))
    &&& b.compatible_with@ == if set_platform && ctx.platforms_map@.contains_key(p.name@) {
        spec_str_set(ctx.platforms_map@[p.name@].deep_view())
    } else {
        Set::<Seq<char>>::empty()
    }
    &&& b.env@ == match bs {
        Some(bt) => env1.insert(
            "OUT_DIR"@,
            "$(location :"@ + p.name@ + "-"@ + spec_build_name(bt.name@) + "-run[out_dir])"@,
        ),
        None => env1,
    }
    &&& match spec_set_deps(
        DepsOut { deps: Set::empty(), named: Map::empty() },
        node.deps@,
        node.id@,
        ctx,
        kind,
        file,
    ) {
        Ok(o) => b.named_deps@ == o.named && b.deps@ == match extra_dep {
            Some(d) => o.deps.insert(d),
            None => o.deps,
        },
        Err(_) => false,
    }
}

/// The workspace-root rule of one binary unit: the compile rule, an implicit
/// dependency on the package's own library rule when a library unit shares
/// the binary's name, and build-script patching.
pub open spec fn spec_root_bin_ok(
    rule: Rule,
    p: Package,
    node: Node,
    t: BuckalTarget,
    ctx: BuckalContext,
    file: Seq<char>,
    bs: Option<BuckalTarget>,
) -> bool {
    let optdep = if crate::classify::spec_has_lib_named(p.targets@, t.name@) {
        Some(":lib"@ + t.name@)
    } else {
        None
    };
    rule matches Rule::RustBinary(b) && spec_root_rule_ok(
        b,
        p,
        node,
        t,
        t.name@,
        ctx,
        CargoTargetKind::Bin,
        file,
        true,
        false,
        false,
        optdep,
        None,
        bs,
    )
}

/// The workspace-root rule of one library unit, under its disambiguated
/// name.
pub open spec fn spec_root_lib_ok(
    rule: Rule,
    p: Package,
    node: Node,
    t: BuckalTarget,
    ctx: BuckalContext,
    file: Seq<char>,
    bs: Option<BuckalTarget>,
) -> bool {
    let name = spec_buckal_lib_name(
        t.name@,
        spec_has_kind_named(p.targets@, TargetKind::Bin, t.name@),
    );
    rule matches Rule::RustLibrary(l) && spec_root_rule_ok(
        l,
        p,
        node,
        t,
        name,
        ctx,
        CargoTargetKind::Lib,
        file,
        true,
        true,
        true,
        None,
        None,
        bs,
    )
}

/// The inline-test companion of a library unit, named `<unit>-unittest`.
pub open spec fn spec_root_unittest_ok(
    rule: Rule,
    p: Package,
    node: Node,
    t: BuckalTarget,
    ctx: BuckalContext,
    file: Seq<char>,
    bs: Option<BuckalTarget>,
) -> bool {
    rule matches Rule::RustTest(l) && spec_root_rule_ok(
        l,
        p,
        node,
        t,
        t.name@ + "-unittest"@,
        ctx,
        CargoTargetKind::Test,
        file,
        true,
        false,
        false,
        None,
        None,
        bs,
    )
}

/// The rule of one integration-test unit, with the implicit fixtures: the
/// binary's runtime location in the environment when a binary carries the
/// package's normalized name, and a dependency on the package's library rule
/// when a library does.
pub open spec fn spec_root_test_ok(
    rule: Rule,
    p: Package,
    node: Node,
    t: BuckalTarget,
    ctx: BuckalContext,
    file: Seq<char>,
    bs: Option<BuckalTarget>,
) -> bool {
    let pkg_us = spec_underscore(p.name@);
    let bin_fixture = spec_has_kind_named(p.targets@, TargetKind::Bin, pkg_us);
    let optenv = if bin_fixture {
        Some(
            (
                "CARGO_BIN_EXE_"@ + pkg_us,
                "$(location :"@ + pkg_us + ")"@,
            ),
        )
    } else {
        None
    };
    let optdep = if crate::classify::spec_has_lib_named(p.targets@, pkg_us) {
        if bin_fixture {
            Some(":lib"@ + pkg_us)
        } else {
            Some(":"@ + pkg_us)
        }
    } else {
        None
    };
    rule matches Rule::RustTest(l) && spec_root_rule_ok(
        l,
        p,
        node,
        t,
        t.name@,
        ctx,
        CargoTargetKind::Test,
        file,
        true,
        false,
        false,
        optdep,
        optenv,
        bs,
    )
}

} // verus!

verus! {

/// How many binary units stand among the first `k` units.
pub open spec fn spec_nbins(ts: Seq<BuckalTarget>, k: int) -> int
    decreases k,
{
    if k <= 0 {
        0
    } else {
        spec_nbins(ts, k - 1) + if spec_target_has_kind(ts[k - 1], TargetKind::Bin) {
            1int
        } else {
            0int
        }
    }
}

/// How many compile rules the library units among the first `k` units
/// contribute: one each, plus an inline-test companion when tests are on.
pub open spec fn spec_nlib_rules(ts: Seq<BuckalTarget>, k: int, ig: bool) -> int
    decreases k,
{
    if k <= 0 {
        0
    } else {
        spec_nlib_rules(ts, k - 1, ig) + if spec_is_lib_target(ts[k - 1]) {
            if !ig && ts[k - 1].test {
                2int
            } else {
                1int
            }
        } else {
            0int
        }
    }
}

/// How many integration-test units stand among the first `k` units.
pub open spec fn spec_ntests(ts: Seq<BuckalTarget>, k: int) -> int
    decreases k,
{
    if k <= 0 {
        0
    } else {
        spec_ntests(ts, k - 1) + if spec_target_has_kind(ts[k - 1], TargetKind::Test) {
            1int
        } else {
            0int
        }
    }
}

/// Where the compile rule of the binary unit at `k` stands in the rule list.
pub open spec fn spec_bin_pos(ts: Seq<BuckalTarget>, k: int) -> int {
    2 + spec_nbins(ts, k)
}

/// Where the compile rule of the library unit at `k` stands; its inline-test
/// companion, when emitted, stands right after it.
pub open spec fn spec_lib_pos(ts: Seq<BuckalTarget>, k: int, ig: bool) -> int {
    2 + spec_nbins(ts, ts.len() as int) + spec_nlib_rules(ts, k, ig)
}

/// Where the rule of the integration-test unit at `k` stands (tests on).
pub open spec fn spec_test_pos(ts: Seq<BuckalTarget>, k: int, ig: bool) -> int {
    spec_lib_pos(ts, ts.len() as int, ig) + spec_ntests(ts, k)
}

/// Exactly how many rules the workspace-root translation emits: the source
/// group and manifest, one rule per binary, one (or, with tests on and
/// inline tests declared, two) per library unit, one per integration-test
/// unit when tests are on, and the two build-script rules when the package
/// has a build script.
pub open spec fn spec_root_rule_count(ts: Seq<BuckalTarget>, ig: bool, has_bs: bool) -> int {
    spec_lib_pos(ts, ts.len() as int, ig) + (if ig {
        0int
    } else {
        spec_ntests(ts, ts.len() as int)
    }) + (if has_bs {
        2int
    } else {
        0int
    })
}

/// One unit's contribution to each positional count.
pub proof fn lemma_nbins_step(ts: Seq<BuckalTarget>, k: int)
    requires
        0 <= k,
    ensures
        spec_nbins(ts, k + 1) == spec_nbins(ts, k) + (if spec_target_has_kind(
            ts[k],
            TargetKind::Bin,
        ) {
            1int
        } else {
            0int
        }),
{
    reveal_with_fuel(spec_nbins, 2);
}

pub proof fn lemma_nlib_step(ts: Seq<BuckalTarget>, k: int, ig: bool)
    requires
        0 <= k,
    ensures
        spec_nlib_rules(ts, k + 1, ig) == spec_nlib_rules(ts, k, ig) + (if spec_is_lib_target(
            ts[k],
        ) {
            if !ig && ts[k].test {
                2int
            } else {
                1int
            }
        } else {
            0int
        }),
{
    reveal_with_fuel(spec_nlib_rules, 2);
}

pub proof fn lemma_ntests_step(ts: Seq<BuckalTarget>, k: int)
    requires
        0 <= k,
    ensures
        spec_ntests(ts, k + 1) == spec_ntests(ts, k) + (if spec_target_has_kind(
            ts[k],
            TargetKind::Test,
        ) {
            1int
        } else {
            0int
        }),
{
    reveal_with_fuel(spec_ntests, 2);
}

/// The positional counts never shrink along the unit list.
pub proof fn lemma_root_counts_mono(ts: Seq<BuckalTarget>, k: int, m: int, ig: bool)
    requires
        k <= m,
    ensures
        spec_nbins(ts, k) <= spec_nbins(ts, m),
        spec_nlib_rules(ts, k, ig) <= spec_nlib_rules(ts, m, ig),
        spec_ntests(ts, k) <= spec_ntests(ts, m),
    decreases m - k,
{
    if k < m {
        lemma_root_counts_mono(ts, k, m - 1, ig);
    }
}

/// The rules of the workspace-root package, relative to a given package
/// value, build-script unit and test switch, pinned index by index: the
/// source group at 0 and the manifest asset at 1; the compile rule of every
/// binary unit at its position among the binaries; every library unit's
/// rule next, at its position among the library blocks, followed directly
/// by its inline-test companion when tests are on and the unit declares
/// inline tests; every integration-test unit's rule next when tests are on;
/// the build-script compile and run rules last when the package has a build
/// script; and nothing else — the list's length is exactly
/// [`spec_root_rule_count`].
pub open spec fn spec_root_rules_ok(
    rules: Seq<Rule>,
    p: Package,
    node: Node,
    ctx: BuckalContext,
    file: Seq<char>,
    bs_t: Option<BuckalTarget>,
    ig: bool,
) -> bool {
    &&& rules.len() == spec_root_rule_count(p.targets@, ig, bs_t is Some)
    &&& rules.len() >= 2
    &&& (rules[0] matches Rule::FileGroup(f) && spec_filegroup_ok(f, p))
    &&& (rules[1] matches Rule::CargoManifest(m) && spec_manifest_ok(m, p))
    &&& forall|k: int|
        0 <= k < p.targets@.len() && spec_target_has_kind(
            #[trigger] p.targets@[k],
            TargetKind::Bin,
        ) ==> spec_root_bin_ok(
            rules[spec_bin_pos(p.targets@, k)],
            p,
            node,
            p.targets@[k],
            ctx,
            file,
            bs_t,
        )
    &&& forall|k: int|
        0 <= k < p.targets@.len() && spec_is_lib_target(#[trigger] p.targets@[k])
            ==> spec_root_lib_ok(
            rules[spec_lib_pos(p.targets@, k, ig)],
            p,
            node,
            p.targets@[k],
            ctx,
            file,
            bs_t,
        )
    &&& forall|k: int|
        0 <= k < p.targets@.len() && spec_is_lib_target(#[trigger] p.targets@[k]) && !ig
            && p.targets@[k].test ==> spec_root_unittest_ok(
            rules[spec_lib_pos(p.targets@, k, ig) + 1],
            p,
            node,
            p.targets@[k],
            ctx,
            file,
            bs_t,
        )
    &&& forall|k: int|
        0 <= k < p.targets@.len() && spec_target_has_kind(
            #[trigger] p.targets@[k],
            TargetKind::Test,
        ) && !ig ==> spec_root_test_ok(
            rules[spec_test_pos(p.targets@, k, ig)],
            p,
            node,
            p.targets@[k],
            ctx,
            file,
            bs_t,
        )
    &&& match bs_t {
        None => true,
        Some(bt) => {
            &&& rules.len() >= 4
            &&& (rules[rules.len() - 2] matches Rule::RustBinary(b) && spec_compile_rule_ok(
                b,
                p,
                node,
                bt,
                p.name@ + "-"@ + bt.name@,
                ctx,
                CargoTargetKind::CustomBuild,
                file,
                false,
                false,
                false,
            ))
            &&& (rules[rules.len() - 1] matches Rule::BuildscriptRun(br) && spec_bs_run_ok(
                br,
                p,
                node,
                bt,
                ctx,
                file,
            ))
        },
    }
}

/// The workspace-root translation's result, stated against the graph: the
/// node's package exists and its rules satisfy [`spec_root_rules_ok`] for
/// that package, its build-script unit, and the run's test switch.
pub open spec fn spec_buckify_root_ok(
    rules: Seq<Rule>,
    node: Node,
    ctx: BuckalContext,
    file: Seq<char>,
) -> bool {
    &&& ctx.packages_map@.contains_key(node.id@)
    &&& spec_root_rules_ok(
        rules,
        ctx.packages_map@[node.id@],
        node,
        ctx,
        file,
        match spec_first_with_kind(
            ctx.packages_map@[node.id@].targets@,
            TargetKind::CustomBuild,
        ) {
            Some(bi) => Some(ctx.packages_map@[node.id@].targets@[bi]),
            None => None,
        },
        ctx.repo_config.ignore_tests,
    )
}

/// Translate the workspace-root package into its rules, written to the file
/// at `buck_file`.
#[verifier::rlimit(100)]
pub fn buckify_root_node(node: &Node, ctx: &BuckalContext, buck_file: &str) -> (r: Result<
    Vec<Rule>,
    BuckalError,
>)
    requires
        ctx.wf(),
    ensures
        match r {
            Ok(rules) => spec_buckify_root_err(*node, *ctx, buck_file@) is None
                && spec_buckify_root_ok(rules@, *node, *ctx, buck_file@),
            Err(e) => match spec_buckify_root_err(*node, *ctx, buck_file@) {
                Some(se) => err_matches(e, se),
                None => false,
            },
        },
{
    let package = match ctx.packages_map.get(node.id.as_str()) {
        Some(p) => p,
        None => {
            return Err(BuckalError::MissingPackage { id: node.id.clone() });
        },
    };
    let ghost p = *package;
    let ghost ts = package.targets@;
    let ghost file = buck_file@;
    let ig = ctx.repo_config.ignore_tests;
    let bs = first_target_with_kind(package, TargetKind::CustomBuild);
    let ghost bs_t = match bs {
        Some(t) => Some(*t),
        None => None,
    };
    let mut rules: Vec<Rule> = Vec::new();
    rules.push(Rule::FileGroup(emit_filegroup(package)));
    rules.push(Rule::CargoManifest(emit_cargo_manifest(package)));
    let n = package.targets.len();

    // binary units
    let mut i: usize = 0;
    while i < n
        invariant
            ctx.wf(),
            n == ts.len(),
            ts == package.targets@,
            p == *package,
            p == ctx.packages_map@[node.id@],
            ctx.packages_map@.contains_key(node.id@),
            file == buck_file@,
            ig == ctx.repo_config.ignore_tests,
            bs_t == match spec_first_with_kind(ts, TargetKind::CustomBuild) {
                Some(bi) => Some(ts[bi]),
                None => None,
            },
            match bs {
                Some(t) => bs_t == Some(*t),
                None => !(bs_t is Some),
            },
            0 <= i <= n,
            rules@.len() == 2 + spec_nbins(ts, i as int),
            (rules@[0] matches Rule::FileGroup(f) && spec_filegroup_ok(f, p)),
            (rules@[1] matches Rule::CargoManifest(m) && spec_manifest_ok(m, p)),
            forall|j: int| 0 <= j < i ==> spec_pass_unit_err(p, *node, ts[j], *ctx, file,
                Pass::Bins) is None,
            forall|k: int|
                0 <= k < i && spec_target_has_kind(#[trigger] ts[k], TargetKind::Bin)
                    ==> spec_root_bin_ok(
                    rules@[spec_bin_pos(ts, k)],
                    p,
                    *node,
                    ts[k],
                    *ctx,
                    file,
                    bs_t,
                ),
        decreases n - i,
    {
        proof {
            lemma_root_counts_mono(ts, 0, i as int, ig);
        }
        let t = &package.targets[i];
        if target_has_kind(t, TargetKind::Bin) {
            let b0 = match emit_compile_rule(
                package,
                node,
                t,
                t.name.clone(),
                ctx,
                CargoTargetKind::Bin,
                buck_file,
                true,
                false,
                false,
            ) {
                Ok(rule) => rule,
                Err(e) => {
                    proof {
                        lemma_pass_err_at(p, *node, ts, *ctx, file, Pass::Bins, i as int);
                    }
                    return Err(e);
                },
            };
            let mut b = b0;
            let collide = crate::classify::has_lib_named(package, t.name.as_str());
            if collide {
                let mut dep = String::from_str(":lib");
                dep.append(t.name.as_str());
                b.deps.insert(dep);
            }
            let ghost g1 = b;
            match bs {
                Some(bt) => {
                    patch_with_buildscript(&mut b, bt, package);
                },
                None => {},
            }
            let ghost old_rules = rules@;
            rules.push(Rule::RustBinary(b));
            proof {
                assert(p.targets@ == ts);
                assert(forall|j: int| 0 <= j < old_rules.len() ==> (#[trigger] rules@[j]) == old_rules[j]);
                assert(rules@[0] == old_rules[0]);
                assert(rules@[1] == old_rules[1]);
                assert(spec_bin_pos(ts, i as int) == old_rules.len());
                assert(rules@[spec_bin_pos(ts, i as int)] == Rule::RustBinary(b));
                assert(spec_root_bin_ok(
                    rules@[spec_bin_pos(ts, i as int)],
                    p,
                    *node,
                    ts[i as int],
                    *ctx,
                    file,
                    bs_t,
                ));
                assert forall|k: int|
                    0 <= k < i + 1 && spec_target_has_kind(#[trigger] ts[k], TargetKind::Bin)
                        implies spec_root_bin_ok(
                        rules@[spec_bin_pos(ts, k)],
                        p,
                        *node,
                        ts[k],
                        *ctx,
                        file,
                        bs_t,
                    ) by {
                    if k < i {
                        lemma_root_counts_mono(ts, k + 1, i as int, ig);
                        lemma_nbins_step(ts, k);
                        lemma_root_counts_mono(ts, 0, k, ig);
                        assert(spec_bin_pos(ts, k) < old_rules.len());
                        assert(rules@[spec_bin_pos(ts, k)] == old_rules[spec_bin_pos(ts, k)]);
                        assert(spec_root_bin_ok(old_rules[spec_bin_pos(ts, k)], p, *node,
                            ts[k], *ctx, file, bs_t));
                    }
                }
            }
        }
        proof {
            lemma_nbins_step(ts, i as int);
        }
        i += 1;
    }
    proof {
        lemma_pass_err_none(p, *node, ts, *ctx, file, Pass::Bins);
    }

    // library units, with inline-test companions
    let mut i2: usize = 0;
    while i2 < n
        invariant
            ctx.wf(),
            n == ts.len(),
            ts == package.targets@,
            p == *package,
            p == ctx.packages_map@[node.id@],
            ctx.packages_map@.contains_key(node.id@),
            file == buck_file@,
            ig == ctx.repo_config.ignore_tests,
            bs_t == match spec_first_with_kind(ts, TargetKind::CustomBuild) {
                Some(bi) => Some(ts[bi]),
                None => None,
            },
            match bs {
                Some(t) => bs_t == Some(*t),
                None => !(bs_t is Some),
            },
            0 <= i2 <= n,
            rules@.len() == 2 + spec_nbins(ts, n as int) + spec_nlib_rules(ts, i2 as int, ig),
            (rules@[0] matches Rule::FileGroup(f) && spec_filegroup_ok(f, p)),
            (rules@[1] matches Rule::CargoManifest(m) && spec_manifest_ok(m, p)),
            spec_pass_err(p, *node, ts, *ctx, file, Pass::Bins) is None,
            forall|k: int|
                0 <= k < ts.len() && spec_target_has_kind(#[trigger] ts[k], TargetKind::Bin)
                    ==> spec_root_bin_ok(
                    rules@[spec_bin_pos(ts, k)],
                    p,
                    *node,
                    ts[k],
                    *ctx,
                    file,
                    bs_t,
                ),
            forall|j: int| 0 <= j < i2 ==> spec_pass_unit_err(p, *node, ts[j], *ctx, file,
                Pass::Libs { ignore_tests: ig }) is None,
            forall|k: int|
                0 <= k < i2 && spec_is_lib_target(#[trigger] ts[k]) ==> spec_root_lib_ok(
                    rules@[spec_lib_pos(ts, k, ig)],
                    p,
                    *node,
                    ts[k],
                    *ctx,
                    file,
                    bs_t,
                ),
            forall|k: int|
                0 <= k < i2 && spec_is_lib_target(#[trigger] ts[k]) && !ig && ts[k].test
                    ==> spec_root_unittest_ok(
                    rules@[spec_lib_pos(ts, k, ig) + 1],
                    p,
                    *node,
                    ts[k],
                    *ctx,
                    file,
                    bs_t,
                ),
        decreases n - i2,
    {
        proof {
            lemma_root_counts_mono(ts, 0, i2 as int, ig);
            lemma_root_counts_mono(ts, 0, n as int, ig);
        }
        let t = &package.targets[i2];
        if is_lib_target(t) {
            let collide = has_kind_named(package, TargetKind::Bin, t.name.as_str());
            let lname = buckal_lib_name(t.name.as_str(), collide);
            let l0 = match emit_compile_rule(
                package,
                node,
                t,
                lname,
                ctx,
                CargoTargetKind::Lib,
                buck_file,
                true,
                true,
                true,
            ) {
                Ok(rule) => rule,
                Err(e) => {
                    proof {
                        lemma_pass_err_at(
                            p,
                            *node,
                            ts,
                            *ctx,
                            file,
                            Pass::Libs { ignore_tests: ig },
                            i2 as int,
                        );
                    }
                    return Err(e);
                },
            };
            let mut l = l0;
            match bs {
                Some(bt) => {
                    patch_with_buildscript(&mut l, bt, package);
                },
                None => {},
            }
            let ghost old_rules = rules@;
            rules.push(Rule::RustLibrary(l));
            proof {
                assert(p.targets@ == ts);
                assert(forall|j: int| 0 <= j < old_rules.len() ==> (#[trigger] rules@[j]) == old_rules[j]);
                assert(rules@[0] == old_rules[0]);
                assert(rules@[1] == old_rules[1]);
                assert(spec_lib_pos(ts, i2 as int, ig) == old_rules.len());
                assert(rules@[spec_lib_pos(ts, i2 as int, ig)] == Rule::RustLibrary(l));
                assert(spec_root_lib_ok(
                    rules@[spec_lib_pos(ts, i2 as int, ig)],
                    p,
                    *node,
                    ts[i2 as int],
                    *ctx,
                    file,
                    bs_t,
                ));
            }
            if !ig && t.test {
                let mut uname = t.name.clone();
                uname.append("-unittest");
                let u0 = match emit_compile_rule(
                    package,
                    node,
                    t,
                    uname,
                    ctx,
                    CargoTargetKind::Test,
                    buck_file,
                    true,
                    false,
                    false,
                ) {
                    Ok(rule) => rule,
                    Err(e) => {
                        proof {
                            lemma_pass_err_at(
                                p,
                                *node,
                                ts,
                                *ctx,
                                file,
                                Pass::Libs { ignore_tests: ig },
                                i2 as int,
                            );
                        }
                        return Err(e);
                    },
                };
                let mut u = u0;
                match bs {
                    Some(bt) => {
                        patch_with_buildscript(&mut u, bt, package);
                    },
                    None => {},
                }
                let ghost mid_rules = rules@;
                rules.push(Rule::RustTest(u));
                proof {
                    assert(forall|j: int| 0 <= j < mid_rules.len() ==> (#[trigger] rules@[j])
                        == mid_rules[j]);
                    assert(forall|j: int| 0 <= j < old_rules.len() ==> (#[trigger] rules@[j])
                        == old_rules[j]);
                    assert(rules@[0] == old_rules[0]);
                    assert(rules@[1] == old_rules[1]);
                    assert(spec_lib_pos(ts, i2 as int, ig) + 1 == rules@.len() - 1);
                    assert(rules@[spec_lib_pos(ts, i2 as int, ig) + 1] == Rule::RustTest(u));
                    assert(spec_root_unittest_ok(
                        rules@[spec_lib_pos(ts, i2 as int, ig) + 1],
                        p,
                        *node,
                        ts[i2 as int],
                        *ctx,
                        file,
                        bs_t,
                    ));
                }
            }
            proof {
                assert(forall|j: int| 0 <= j < old_rules.len() ==> (#[trigger] rules@[j])
                    == old_rules[j]);
                assert forall|k: int|
                    0 <= k < ts.len() && spec_target_has_kind(
                        #[trigger] ts[k],
                        TargetKind::Bin,
                    ) implies spec_root_bin_ok(
                        rules@[spec_bin_pos(ts, k)],
                        p,
                        *node,
                        ts[k],
                        *ctx,
                        file,
                        bs_t,
                    ) by {
                    lemma_root_counts_mono(ts, k + 1, n as int, ig);
                    lemma_nbins_step(ts, k);
                    lemma_root_counts_mono(ts, 0, k, ig);
                    assert(spec_bin_pos(ts, k) < old_rules.len());
                    assert(rules@[spec_bin_pos(ts, k)] == old_rules[spec_bin_pos(ts, k)]);
                    assert(spec_root_bin_ok(old_rules[spec_bin_pos(ts, k)], p, *node,
                        ts[k], *ctx, file, bs_t));
                }
                assert forall|k: int|
                    0 <= k < i2 + 1 && spec_is_lib_target(#[trigger] ts[k]) implies
                    spec_root_lib_ok(
                        rules@[spec_lib_pos(ts, k, ig)],
                        p,
                        *node,
                        ts[k],
                        *ctx,
                        file,
                        bs_t,
                    ) by {
                    if k < i2 {
                        lemma_root_counts_mono(ts, k + 1, i2 as int, ig);
                        lemma_nlib_step(ts, k, ig);
                        lemma_root_counts_mono(ts, 0, k, ig);
                        lemma_root_counts_mono(ts, 0, n as int, ig);
                        assert(spec_lib_pos(ts, k, ig) < old_rules.len());
                        assert(rules@[spec_lib_pos(ts, k, ig)] == old_rules[spec_lib_pos(
                            ts, k, ig)]);
                        assert(spec_root_lib_ok(old_rules[spec_lib_pos(ts, k, ig)], p,
                            *node, ts[k], *ctx, file, bs_t));
                    }
                }
                assert forall|k: int|
                    0 <= k < i2 + 1 && spec_is_lib_target(#[trigger] ts[k]) && !ig
                        && ts[k].test implies spec_root_unittest_ok(
                        rules@[spec_lib_pos(ts, k, ig) + 1],
                        p,
                        *node,
                        ts[k],
                        *ctx,
                        file,
                        bs_t,
                    ) by {
                    if k < i2 {
                        lemma_root_counts_mono(ts, k + 1, i2 as int, ig);
                        lemma_nlib_step(ts, k, ig);
                        lemma_root_counts_mono(ts, 0, k, ig);
                        lemma_root_counts_mono(ts, 0, n as int, ig);
                        assert(spec_lib_pos(ts, k, ig) + 1 < old_rules.len());
                        assert(rules@[spec_lib_pos(ts, k, ig) + 1] == old_rules[
                            spec_lib_pos(ts, k, ig) + 1]);
                        assert(spec_root_unittest_ok(old_rules[spec_lib_pos(ts, k, ig) + 1],
                            p, *node, ts[k], *ctx, file, bs_t));
                    }
                }
            }
        }
        proof {
            lemma_nlib_step(ts, i2 as int, ig);
        }
        i2 += 1;
    }
    proof {
        lemma_pass_err_none(p, *node, ts, *ctx, file, Pass::Libs { ignore_tests: ig });
    }

    // integration-test units
    if !ig {
        let pkg_us = underscore(package.name.as_str());
        let mut i3: usize = 0;
        while i3 < n
            invariant
                ctx.wf(),
                n == ts.len(),
                ts == package.targets@,
                p == *package,
                p == ctx.packages_map@[node.id@],
                ctx.packages_map@.contains_key(node.id@),
                file == buck_file@,
                ig == ctx.repo_config.ignore_tests,
                !ig,
                pkg_us@ == spec_underscore(p.name@),
                bs_t == match spec_first_with_kind(ts, TargetKind::CustomBuild) {
                    Some(bi) => Some(ts[bi]),
                    None => None,
                },
                match bs {
                    Some(t) => bs_t == Some(*t),
                    None => !(bs_t is Some),
                },
                0 <= i3 <= n,
                rules@.len() == spec_lib_pos(ts, n as int, ig) + spec_ntests(ts, i3 as int),
                (rules@[0] matches Rule::FileGroup(f) && spec_filegroup_ok(f, p)),
                (rules@[1] matches Rule::CargoManifest(m) && spec_manifest_ok(m, p)),
                spec_pass_err(p, *node, ts, *ctx, file, Pass::Bins) is None,
                spec_pass_err(p, *node, ts, *ctx, file, Pass::Libs { ignore_tests: ig })
                    is None,
                forall|k: int|
                    0 <= k < ts.len() && spec_target_has_kind(
                        #[trigger] ts[k],
                        TargetKind::Bin,
                    ) ==> spec_root_bin_ok(
                        rules@[spec_bin_pos(ts, k)],
                        p,
                        *node,
                        ts[k],
                        *ctx,
                        file,
                        bs_t,
                    ),
                forall|k: int|
                    0 <= k < ts.len() && spec_is_lib_target(#[trigger] ts[k])
                        ==> spec_root_lib_ok(
                        rules@[spec_lib_pos(ts, k, ig)],
                        p,
                        *node,
                        ts[k],
                        *ctx,
                        file,
                        bs_t,
                    ),
                forall|k: int|
                    0 <= k < ts.len() && spec_is_lib_target(#[trigger] ts[k]) && ts[k].test
                        ==> spec_root_unittest_ok(
                        rules@[spec_lib_pos(ts, k, ig) + 1],
                        p,
                        *node,
                        ts[k],
                        *ctx,
                        file,
                        bs_t,
                    ),
                forall|j: int| 0 <= j < i3 ==> spec_pass_unit_err(p, *node, ts[j], *ctx,
                    file, Pass::Tests) is None,
                forall|k: int|
                    0 <= k < i3 && spec_target_has_kind(#[trigger] ts[k], TargetKind::Test)
                        ==> spec_root_test_ok(
                        rules@[spec_test_pos(ts, k, ig)],
                        p,
                        *node,
                        ts[k],
                        *ctx,
                        file,
                        bs_t,
                    ),
            decreases n - i3,
        {
            proof {
                lemma_root_counts_mono(ts, 0, i3 as int, ig);
                lemma_root_counts_mono(ts, 0, n as int, ig);
            }
            let t = &package.targets[i3];
            if target_has_kind(t, TargetKind::Test) {
                let t0 = match emit_compile_rule(
                    package,
                    node,
                    t,
                    t.name.clone(),
                    ctx,
                    CargoTargetKind::Test,
                    buck_file,
                    true,
                    false,
                    false,
                ) {
                    Ok(rule) => rule,
                    Err(e) => {
                        proof {
                            lemma_pass_err_at(
                                p,
                                *node,
                                ts,
                                *ctx,
                                file,
                                Pass::Tests,
                                i3 as int,
                            );
                        }
                        return Err(e);
                    },
                };
                let mut tr = t0;
                let bin_fixture = has_kind_named(package, TargetKind::Bin, pkg_us.as_str());
                if bin_fixture {
                    let mut envk = String::from_str("CARGO_BIN_EXE_");
                    envk.append(pkg_us.as_str());
                    let mut envv = String::from_str("$(location :");
                    envv.append(pkg_us.as_str());
                    envv.append(")");
                    tr.env.insert(envk, envv);
                }
                if crate::classify::has_lib_named(package, pkg_us.as_str()) {
                    let mut dep = String::new();
                    if bin_fixture {
                        dep.append(":lib");
                    } else {
                        dep.append(":");
                    }
                    dep.append(pkg_us.as_str());
                    tr.deps.insert(dep);
                }
                match bs {
                    Some(bt) => {
                        patch_with_buildscript(&mut tr, bt, package);
                    },
                    None => {},
                }
                let ghost old_rules = rules@;
                rules.push(Rule::RustTest(tr));
                proof {
                    assert(p.targets@ == ts);
                    assert(pkg_us@ == spec_underscore(p.name@));
                    assert(forall|j: int| 0 <= j < old_rules.len() ==> (#[trigger] rules@[j])
                        == old_rules[j]);
                    assert(rules@[0] == old_rules[0]);
                    assert(rules@[1] == old_rules[1]);
                    assert(spec_test_pos(ts, i3 as int, ig) == old_rules.len());
                    assert(rules@[spec_test_pos(ts, i3 as int, ig)] == Rule::RustTest(tr));
                    assert(spec_root_test_ok(
                        rules@[spec_test_pos(ts, i3 as int, ig)],
                        p,
                        *node,
                        ts[i3 as int],
                        *ctx,
                        file,
                        bs_t,
                    ));
                    assert forall|k: int|
                        0 <= k < ts.len() && spec_target_has_kind(
                            #[trigger] ts[k],
                            TargetKind::Bin,
                        ) implies spec_root_bin_ok(
                            rules@[spec_bin_pos(ts, k)],
                            p,
                            *node,
                            ts[k],
                            *ctx,
                            file,
                            bs_t,
                        ) by {
                        lemma_root_counts_mono(ts, k + 1, n as int, ig);
                        lemma_root_counts_mono(ts, 0, i3 as int, ig);
                        lemma_nbins_step(ts, k);
                        lemma_root_counts_mono(ts, 0, k, ig);
                        assert(spec_bin_pos(ts, k) < old_rules.len());
                        assert(rules@[spec_bin_pos(ts, k)] == old_rules[spec_bin_pos(ts,
                            k)]);
                        assert(spec_root_bin_ok(old_rules[spec_bin_pos(ts, k)], p, *node,
                            ts[k], *ctx, file, bs_t));
                    }
                    assert forall|k: int|
                        0 <= k < ts.len() && spec_is_lib_target(#[trigger] ts[k]) implies
                        spec_root_lib_ok(
                            rules@[spec_lib_pos(ts, k, ig)],
                            p,
                            *node,
                            ts[k],
                            *ctx,
                            file,
                            bs_t,
                        ) by {
                        lemma_root_counts_mono(ts, k + 1, n as int, ig);
                        lemma_root_counts_mono(ts, 0, i3 as int, ig);
                        lemma_nlib_step(ts, k, ig);
                        lemma_root_counts_mono(ts, 0, k, ig);
                        lemma_root_counts_mono(ts, 0, n as int, ig);
                        assert(spec_lib_pos(ts, k, ig) < old_rules.len());
                        assert(rules@[spec_lib_pos(ts, k, ig)] == old_rules[spec_lib_pos(
                            ts, k, ig)]);
                        assert(spec_root_lib_ok(old_rules[spec_lib_pos(ts, k, ig)], p,
                            *node, ts[k], *ctx, file, bs_t));
                    }
                    assert forall|k: int|
                        0 <= k < ts.len() && spec_is_lib_target(#[trigger] ts[k]) && ts[k].test
                            implies spec_root_unittest_ok(
                            rules@[spec_lib_pos(ts, k, ig) + 1],
                            p,
                            *node,
                            ts[k],
                            *ctx,
                            file,
                            bs_t,
                        ) by {
                        lemma_root_counts_mono(ts, k + 1, n as int, ig);
                        lemma_root_counts_mono(ts, 0, i3 as int, ig);
                        lemma_nlib_step(ts, k, ig);
                        lemma_root_counts_mono(ts, 0, k, ig);
                        lemma_root_counts_mono(ts, 0, n as int, ig);
                        assert(spec_lib_pos(ts, k, ig) + 1 < old_rules.len());
                        assert(rules@[spec_lib_pos(ts, k, ig) + 1] == old_rules[
                            spec_lib_pos(ts, k, ig) + 1]);
                        assert(spec_root_unittest_ok(old_rules[spec_lib_pos(ts, k, ig) + 1],
                            p, *node, ts[k], *ctx, file, bs_t));
                    }
                    assert forall|k: int|
                        0 <= k < i3 + 1 && spec_target_has_kind(
                            #[trigger] ts[k],
                            TargetKind::Test,
                        ) implies spec_root_test_ok(
                            rules@[spec_test_pos(ts, k, ig)],
                            p,
                            *node,
                            ts[k],
                            *ctx,
                            file,
                            bs_t,
                        ) by {
                        if k < i3 {
                            lemma_root_counts_mono(ts, k + 1, i3 as int, ig);
                            lemma_ntests_step(ts, k);
                            lemma_root_counts_mono(ts, 0, k, ig);
                            lemma_root_counts_mono(ts, 0, n as int, ig);
                            assert(spec_test_pos(ts, k, ig) < old_rules.len());
                            assert(rules@[spec_test_pos(ts, k, ig)] == old_rules[
                                spec_test_pos(ts, k, ig)]);
                            assert(spec_root_test_ok(old_rules[spec_test_pos(ts, k, ig)],
                                p, *node, ts[k], *ctx, file, bs_t));
                        }
                    }
                }
            }
            proof {
                lemma_ntests_step(ts, i3 as int);
            }
            i3 += 1;
        }
        proof {
            lemma_pass_err_none(p, *node, ts, *ctx, file, Pass::Tests);
        }
    }

    // build-script rules
    match bs {
        None => {
            proof {
                lemma_root_counts_mono(ts, 0, n as int, ig);
                assert(spec_buckify_root_err(*node, *ctx, buck_file@) is None);
                let pp = ctx.packages_map@[node.id@];
                assert(pp == p);
                assert(pp.targets@ == ts);
                assert(rules@.len() == spec_root_rule_count(pp.targets@, ig, bs_t is Some));
                assert forall|k: int|
                    0 <= k < pp.targets@.len() && spec_target_has_kind(
                        #[trigger] pp.targets@[k],
                        TargetKind::Bin,
                    ) implies spec_root_bin_ok(
                        rules@[spec_bin_pos(pp.targets@, k)], pp, *node, pp.targets@[k],
                        *ctx, buck_file@, bs_t) by {
                    assert(spec_target_has_kind(ts[k], TargetKind::Bin));
                    assert(spec_root_bin_ok(rules@[spec_bin_pos(ts, k)], p, *node, ts[k],
                        *ctx, file, bs_t));
                }
                assert forall|k: int|
                    0 <= k < pp.targets@.len() && spec_is_lib_target(
                        #[trigger] pp.targets@[k],
                    ) implies spec_root_lib_ok(
                        rules@[spec_lib_pos(pp.targets@, k, ig)], pp, *node, pp.targets@[k],
                        *ctx, buck_file@, bs_t) by {
                    assert(spec_is_lib_target(ts[k]));
                    assert(spec_root_lib_ok(rules@[spec_lib_pos(ts, k, ig)], p, *node,
                        ts[k], *ctx, file, bs_t));
                }
                assert forall|k: int|
                    0 <= k < pp.targets@.len() && spec_is_lib_target(
                        #[trigger] pp.targets@[k],
                    ) && !ig && pp.targets@[k].test implies spec_root_unittest_ok(
                        rules@[spec_lib_pos(pp.targets@, k, ig) + 1], pp, *node,
                        pp.targets@[k], *ctx, buck_file@, bs_t) by {
                    assert(spec_is_lib_target(ts[k]) && ts[k].test);
                    assert(spec_root_unittest_ok(rules@[spec_lib_pos(ts, k, ig) + 1], p,
                        *node, ts[k], *ctx, file, bs_t));
                }
                assert forall|k: int|
                    0 <= k < pp.targets@.len() && spec_target_has_kind(
                        #[trigger] pp.targets@[k],
                        TargetKind::Test,
                    ) && !ig implies spec_root_test_ok(
                        rules@[spec_test_pos(pp.targets@, k, ig)], pp, *node,
                        pp.targets@[k], *ctx, buck_file@, bs_t) by {
                    assert(spec_target_has_kind(ts[k], TargetKind::Test));
                    assert(spec_root_test_ok(rules@[spec_test_pos(ts, k, ig)], p, *node,
                        ts[k], *ctx, file, bs_t));
                }
                assert(!(bs_t is Some));
                assert(n as int == ts.len() as int);
                if ig {
                    assert(rules@.len() == 2 + spec_nbins(ts, n as int) + spec_nlib_rules(
                        ts, n as int, ig));
                    assert(rules@.len() == spec_lib_pos(ts, ts.len() as int, ig));
                } else {
                    assert(rules@.len() == spec_lib_pos(ts, n as int, ig) + spec_ntests(
                        ts, n as int));
                }
                assert(rules@.len() == spec_root_rule_count(ts, ig, false));
                assert(rules@.len() == spec_root_rule_count(pp.targets@, ig, bs_t
                    is Some));
                assert(rules@.len() >= 2);
                assert(rules@[0] matches Rule::FileGroup(f) && spec_filegroup_ok(f, pp));
                assert(rules@[1] matches Rule::CargoManifest(m) && spec_manifest_ok(m, pp));
                assert(spec_root_rules_ok(rules@, pp, *node, *ctx, buck_file@, bs_t, ig));
                assert(spec_buckify_root_ok(rules@, *node, *ctx, buck_file@));
            }
            Ok(rules)
        },
        Some(build_target) => {
            let mut bs_name = package.name.clone();
            bs_name.append("-");
            bs_name.append(build_target.name.as_str());
            let bs_build = match emit_compile_rule(
                package,
                node,
                build_target,
                bs_name,
                ctx,
                CargoTargetKind::CustomBuild,
                buck_file,
                false,
                false,
                false,
            ) {
                Ok(rule) => rule,
                Err(e) => {
                    return Err(e);
                },
            };
            let bs_run = match emit_buildscript_run(
                package,
                node,
                build_target,
                ctx,
                buck_file,
            ) {
                Ok(rule) => rule,
                Err(e) => {
                    return Err(e);
                },
            };
            let ghost old_rules = rules@;
            rules.push(Rule::RustBinary(bs_build));
            let ghost mid_rules = rules@;
            rules.push(Rule::BuildscriptRun(bs_run));
            proof {
                lemma_root_counts_mono(ts, 0, n as int, ig);
                assert(forall|j: int| 0 <= j < mid_rules.len() ==> (#[trigger] rules@[j]) == mid_rules[j]);
                assert(forall|j: int| 0 <= j < old_rules.len() ==> (#[trigger] rules@[j]) == old_rules[j]);
                assert(rules@[0] == old_rules[0]);
                assert(rules@[1] == old_rules[1]);
                assert(rules@[rules@.len() - 2] == Rule::RustBinary(bs_build));
                assert(rules@[rules@.len() - 1] == Rule::BuildscriptRun(bs_run));
                assert(spec_buckify_root_err(*node, *ctx, buck_file@) is None);
                let pp = ctx.packages_map@[node.id@];
                assert(pp == p);
                assert(pp.targets@ == ts);
                assert(rules@.len() == spec_root_rule_count(pp.targets@, ig, bs_t is Some));
                assert forall|k: int|
                    0 <= k < pp.targets@.len() && spec_target_has_kind(
                        #[trigger] pp.targets@[k],
                        TargetKind::Bin,
                    ) implies spec_root_bin_ok(
                        rules@[spec_bin_pos(pp.targets@, k)], pp, *node, pp.targets@[k],
                        *ctx, buck_file@, bs_t) by {
                    assert(spec_target_has_kind(ts[k], TargetKind::Bin));
                    lemma_root_counts_mono(ts, k + 1, n as int, ig);
                    lemma_root_counts_mono(ts, 0, n as int, ig);
                    lemma_nbins_step(ts, k);
                    lemma_root_counts_mono(ts, 0, k, ig);
                    assert(spec_bin_pos(ts, k) < old_rules.len());
                    assert(rules@[spec_bin_pos(ts, k)] == old_rules[spec_bin_pos(ts, k)]);
                    assert(spec_root_bin_ok(rules@[spec_bin_pos(ts, k)], p, *node, ts[k],
                        *ctx, file, bs_t));
                }
                assert forall|k: int|
                    0 <= k < pp.targets@.len() && spec_is_lib_target(
                        #[trigger] pp.targets@[k],
                    ) implies spec_root_lib_ok(
                        rules@[spec_lib_pos(pp.targets@, k, ig)], pp, *node, pp.targets@[k],
                        *ctx, buck_file@, bs_t) by {
                    assert(spec_is_lib_target(ts[k]));
                    lemma_root_counts_mono(ts, k + 1, n as int, ig);
                    lemma_root_counts_mono(ts, 0, n as int, ig);
                    lemma_nlib_step(ts, k, ig);
                    lemma_root_counts_mono(ts, 0, k, ig);
                    lemma_root_counts_mono(ts, 0, n as int, ig);
                    assert(spec_lib_pos(ts, k, ig) < old_rules.len());
                    assert(rules@[spec_lib_pos(ts, k, ig)] == old_rules[spec_lib_pos(ts,
                        k, ig)]);
                    assert(spec_root_lib_ok(rules@[spec_lib_pos(ts, k, ig)], p, *node,
                        ts[k], *ctx, file, bs_t));
                }
                assert forall|k: int|
                    0 <= k < pp.targets@.len() && spec_is_lib_target(
                        #[trigger] pp.targets@[k],
                    ) && !ig && pp.targets@[k].test implies spec_root_unittest_ok(
                        rules@[spec_lib_pos(pp.targets@, k, ig) + 1], pp, *node,
                        pp.targets@[k], *ctx, buck_file@, bs_t) by {
                    assert(spec_is_lib_target(ts[k]) && ts[k].test);
                    lemma_root_counts_mono(ts, k + 1, n as int, ig);
                    lemma_root_counts_mono(ts, 0, n as int, ig);
                    lemma_nlib_step(ts, k, ig);
                    lemma_root_counts_mono(ts, 0, k, ig);
                    lemma_root_counts_mono(ts, 0, n as int, ig);
                    assert(spec_lib_pos(ts, k, ig) + 1 < old_rules.len());
                    assert(rules@[spec_lib_pos(ts, k, ig) + 1] == old_rules[spec_lib_pos(
                        ts, k, ig) + 1]);
                    assert(spec_root_unittest_ok(rules@[spec_lib_pos(ts, k, ig) + 1], p,
                        *node, ts[k], *ctx, file, bs_t));
                }
                assert forall|k: int|
                    0 <= k < pp.targets@.len() && spec_target_has_kind(
                        #[trigger] pp.targets@[k],
                        TargetKind::Test,
                    ) && !ig implies spec_root_test_ok(
                        rules@[spec_test_pos(pp.targets@, k, ig)], pp, *node,
                        pp.targets@[k], *ctx, buck_file@, bs_t) by {
                    assert(spec_target_has_kind(ts[k], TargetKind::Test));
                    lemma_root_counts_mono(ts, k + 1, n as int, ig);
                    lemma_root_counts_mono(ts, 0, n as int, ig);
                    lemma_ntests_step(ts, k);
                    lemma_root_counts_mono(ts, 0, k, ig);
                    lemma_root_counts_mono(ts, 0, n as int, ig);
                    assert(spec_test_pos(ts, k, ig) < old_rules.len());
                    assert(rules@[spec_test_pos(ts, k, ig)] == old_rules[spec_test_pos(ts,
                        k, ig)]);
                    assert(spec_root_test_ok(rules@[spec_test_pos(ts, k, ig)], p, *node,
                        ts[k], *ctx, file, bs_t));
                }
                assert(spec_root_rules_ok(rules@, pp, *node, *ctx, buck_file@, bs_t, ig));
                assert(spec_buckify_root_ok(rules@, *node, *ctx, buck_file@));
            }
            Ok(rules)
        },
    }
}

} // verus!

verus! {

/// All blocks concatenated.
pub open spec fn spec_concat_all(bs: Seq<Seq<char>>) -> Seq<char>
    decreases bs.len(),
{
    if bs.len() == 0 {
        Seq::empty()
    } else {
        spec_concat_all(bs.drop_last()) + bs.last()
    }
}

/// The blocks joined by single newlines.
pub open spec fn spec_join_nl(bs: Seq<Seq<char>>) -> Seq<char>
    decreases bs.len(),
{
    if bs.len() == 0 {
        Seq::empty()
    } else if bs.len() == 1 {
        bs[0]
    } else {
        spec_join_nl(bs.drop_last()) + "\n"@ + bs.last()
    }
}

/// The load statements every generated rule file starts with: the manifest
/// macro, and the wrapped build-script, binary and library rules.
pub fn standard_loads() -> (r: Vec<Load>)
    ensures
        r@.len() == 2,
        r@[0].bzl@ == "@buckal//:cargo_manifest.bzl"@,
        r@[0].items.wf(),
        r@[0].items@ == Set::<Seq<char>>::empty().insert("cargo_manifest"@),
        r@[1].bzl@ == "@buckal//:wrapper.bzl"@,
        r@[1].items.wf(),
        r@[1].items@ == Set::<Seq<char>>::empty().insert("buildscript_run"@).insert(
            "rust_binary"@,
        ).insert("rust_library"@),
{
    let mut items1 = StrSet::new();
    items1.insert("cargo_manifest".to_owned());
    let mut items2 = StrSet::new();
    items2.insert("buildscript_run".to_owned());
    items2.insert("rust_binary".to_owned());
    items2.insert("rust_library".to_owned());
    let mut r: Vec<Load> = Vec::new();
    r.push(Load { bzl: "@buckal//:cargo_manifest.bzl".to_owned(), items: items1 });
    r.push(Load { bzl: "@buckal//:wrapper.bzl".to_owned(), items: items2 });
    r
}

/// Assemble a rule file's text from rendered blocks: the generated-file
/// marker, the rendered load statements, a separating newline, then the
/// rendered rules joined by newlines.
pub fn gen_buck_content(load_blocks: &Vec<String>, rule_blocks: &Vec<String>) -> (r: String)
    ensures
        r@ == "# @generated by `cargo buckal`\n\n"@ + spec_concat_all(load_blocks.deep_view())
            + "\n"@ + spec_join_nl(rule_blocks.deep_view()),
{
    let mut out = String::from_str("# @generated by `cargo buckal`\n\n");
    let n = load_blocks.len();
    proof {
        assert(load_blocks.deep_view().len() == load_blocks@.len());
        assert(load_blocks.deep_view().take(0) =~= Seq::<Seq<char>>::empty());
    }
    let mut i: usize = 0;
    while i < n
        invariant
            n == load_blocks@.len(),
            n == load_blocks.deep_view().len(),
            0 <= i <= n,
            out@ == "# @generated by `cargo buckal`\n\n"@ + spec_concat_all(
                load_blocks.deep_view().take(i as int),
            ),
        decreases n - i,
    {
        proof {
            assert(load_blocks.deep_view().take(i + 1).drop_last()
                =~= load_blocks.deep_view().take(i as int));
            assert(load_blocks.deep_view().take(i + 1).last() == load_blocks.deep_view()[
                i as int]);
            assert(load_blocks.deep_view()[i as int] == load_blocks@[i as int]@);
        }
        out.append(load_blocks[i].as_str());
        i += 1;
    }
    proof {
        assert(load_blocks.deep_view().take(n as int) =~= load_blocks.deep_view());
    }
    out.append("\n");
    let m = rule_blocks.len();
    proof {
        assert(rule_blocks.deep_view().len() == rule_blocks@.len());
        assert(rule_blocks.deep_view().take(0) =~= Seq::<Seq<char>>::empty());
    }
    let mut j: usize = 0;
    while j < m
        invariant
            m == rule_blocks@.len(),
            m == rule_blocks.deep_view().len(),
            0 <= j <= m,
            out@ == "# @generated by `cargo buckal`\n\n"@ + spec_concat_all(
                load_blocks.deep_view(),
            ) + "\n"@ + spec_join_nl(rule_blocks.deep_view().take(j as int)),
        decreases m - j,
    {
        proof {
            assert(rule_blocks.deep_view().take(j + 1).drop_last()
                =~= rule_blocks.deep_view().take(j as int));
            assert(rule_blocks.deep_view().take(j + 1).last() == rule_blocks.deep_view()[
                j as int]);
            assert(rule_blocks.deep_view()[j as int] == rule_blocks@[j as int]@);
        }
        if j > 0 {
            out.append("\n");
        }
        out.append(rule_blocks[j].as_str());
        j += 1;
    }
    proof {
        assert(rule_blocks.deep_view().take(m as int) =~= rule_blocks.deep_view());
    }
    out
}

/// Positions inside the binary segment come from actual binary units.
proof fn lemma_nbins_inv(ts: Seq<BuckalTarget>, m: int, v: int)
    requires
        0 <= m <= ts.len(),
        0 <= v < spec_nbins(ts, m),
    ensures
        exists|k: int|
            0 <= k < m && spec_target_has_kind(#[trigger] ts[k], TargetKind::Bin)
                && spec_nbins(ts, k) == v,
    decreases m,
{
    if m > 0 {
        lemma_nbins_step(ts, m - 1);
        if v < spec_nbins(ts, m - 1) {
            lemma_nbins_inv(ts, m - 1, v);
            let k = choose|k: int|
                0 <= k < m - 1 && spec_target_has_kind(#[trigger] ts[k], TargetKind::Bin)
                    && spec_nbins(ts, k) == v;
            assert(0 <= k < m && spec_target_has_kind(ts[k], TargetKind::Bin)
                && spec_nbins(ts, k) == v);
        } else {
            assert(spec_target_has_kind(ts[m - 1], TargetKind::Bin));
            assert(spec_nbins(ts, m - 1) == v);
        }
    }
}

/// Positions inside the library segment come from actual library units: the
/// unit's own rule, or its inline-test companion right after it.
proof fn lemma_nlib_inv(ts: Seq<BuckalTarget>, m: int, v: int, ig: bool)
    requires
        0 <= m <= ts.len(),
        0 <= v < spec_nlib_rules(ts, m, ig),
    ensures
        exists|k: int|
            0 <= k < m && spec_is_lib_target(#[trigger] ts[k]) && (v == spec_nlib_rules(
                ts,
                k,
                ig,
            ) || (!ig && ts[k].test && v == spec_nlib_rules(ts, k, ig) + 1)),
    decreases m,
{
    if m > 0 {
        lemma_nlib_step(ts, m - 1, ig);
        if v < spec_nlib_rules(ts, m - 1, ig) {
            lemma_nlib_inv(ts, m - 1, v, ig);
            let k = choose|k: int|
                0 <= k < m - 1 && spec_is_lib_target(#[trigger] ts[k]) && (v
                    == spec_nlib_rules(ts, k, ig) || (!ig && ts[k].test && v
                    == spec_nlib_rules(ts, k, ig) + 1));
            assert(0 <= k < m && spec_is_lib_target(ts[k]) && (v == spec_nlib_rules(
                ts,
                k,
                ig,
            ) || (!ig && ts[k].test && v == spec_nlib_rules(ts, k, ig) + 1)));
        } else {
            assert(spec_is_lib_target(ts[m - 1]));
            assert(v == spec_nlib_rules(ts, m - 1, ig) || (!ig && ts[m - 1].test && v
                == spec_nlib_rules(ts, m - 1, ig) + 1));
        }
    }
}

/// Positions inside the integration-test segment come from actual test
/// units.
proof fn lemma_ntests_inv(ts: Seq<BuckalTarget>, m: int, v: int)
    requires
        0 <= m <= ts.len(),
        0 <= v < spec_ntests(ts, m),
    ensures
        exists|k: int|
            0 <= k < m && spec_target_has_kind(#[trigger] ts[k], TargetKind::Test)
                && spec_ntests(ts, k) == v,
    decreases m,
{
    if m > 0 {
        lemma_ntests_step(ts, m - 1);
        if v < spec_ntests(ts, m - 1) {
            lemma_ntests_inv(ts, m - 1, v);
            let k = choose|k: int|
                0 <= k < m - 1 && spec_target_has_kind(#[trigger] ts[k], TargetKind::Test)
                    && spec_ntests(ts, k) == v;
            assert(0 <= k < m && spec_target_has_kind(ts[k], TargetKind::Test)
                && spec_ntests(ts, k) == v);
        } else {
            assert(spec_target_has_kind(ts[m - 1], TargetKind::Test));
            assert(spec_ntests(ts, m - 1) == v);
        }
    }
}

/// Every index of a workspace-root rule list is accounted for: the two
/// header rules, some binary unit's rule, some library unit's rule or
/// inline-test companion, some integration-test unit's rule, or one of the
/// two build-script rules. Nothing else fits in the list.
pub proof fn lemma_root_rule_index(
    rules: Seq<Rule>,
    p: Package,
    node: Node,
    ctx: BuckalContext,
    file: Seq<char>,
    bs_t: Option<BuckalTarget>,
    ig: bool,
    ri: int,
)
    requires
        spec_root_rules_ok(rules, p, node, ctx, file, bs_t, ig),
        0 <= ri < rules.len(),
    ensures
        ri == 0 || ri == 1 || (exists|k: int|
            0 <= k < p.targets@.len() && spec_target_has_kind(
                #[trigger] p.targets@[k],
                TargetKind::Bin,
            ) && ri == spec_bin_pos(p.targets@, k)) || (exists|k: int|
            0 <= k < p.targets@.len() && spec_is_lib_target(#[trigger] p.targets@[k]) && ri
                == spec_lib_pos(p.targets@, k, ig)) || (!ig && exists|k: int|
            0 <= k < p.targets@.len() && spec_is_lib_target(#[trigger] p.targets@[k])
                && p.targets@[k].test && ri == spec_lib_pos(p.targets@, k, ig) + 1) || (!ig
            && exists|k: int|
            0 <= k < p.targets@.len() && spec_target_has_kind(
                #[trigger] p.targets@[k],
                TargetKind::Test,
            ) && ri == spec_test_pos(p.targets@, k, ig)) || (bs_t is Some && ri
            >= rules.len() - 2),
{
    let ts = p.targets@;
    let len = ts.len() as int;
    lemma_root_counts_mono(ts, 0, len, ig);
    if ri <= 1 {
    } else if ri < 2 + spec_nbins(ts, len) {
        lemma_nbins_inv(ts, len, ri - 2);
        let k = choose|k: int|
            0 <= k < len && spec_target_has_kind(#[trigger] ts[k], TargetKind::Bin)
                && spec_nbins(ts, k) == ri - 2;
        assert(0 <= k < ts.len() && spec_target_has_kind(ts[k], TargetKind::Bin) && ri
            == spec_bin_pos(ts, k));
    } else if ri < spec_lib_pos(ts, len, ig) {
        lemma_nlib_inv(ts, len, ri - 2 - spec_nbins(ts, len), ig);
        let k = choose|k: int|
            0 <= k < len && spec_is_lib_target(#[trigger] ts[k]) && (ri - 2 - spec_nbins(
                ts,
                len,
            ) == spec_nlib_rules(ts, k, ig) || (!ig && ts[k].test && ri - 2 - spec_nbins(
                ts,
                len,
            ) == spec_nlib_rules(ts, k, ig) + 1));
        if ri - 2 - spec_nbins(ts, len) == spec_nlib_rules(ts, k, ig) {
            assert(0 <= k < ts.len() && spec_is_lib_target(ts[k]) && ri == spec_lib_pos(
                ts,
                k,
                ig,
            ));
        } else {
            assert(!ig && 0 <= k < ts.len() && spec_is_lib_target(ts[k]) && ts[k].test
                && ri == spec_lib_pos(ts, k, ig) + 1);
        }
    } else if !ig && ri < spec_test_pos(ts, len, ig) {
        lemma_ntests_inv(ts, len, ri - spec_lib_pos(ts, len, ig));
        let k = choose|k: int|
            0 <= k < len && spec_target_has_kind(#[trigger] ts[k], TargetKind::Test)
                && spec_ntests(ts, k) == ri - spec_lib_pos(ts, len, ig);
        assert(0 <= k < ts.len() && spec_target_has_kind(ts[k], TargetKind::Test) && ri
            == spec_test_pos(ts, k, ig));
    } else {
        assert(bs_t is Some && ri >= rules.len() - 2);
    }
}

/// With tests disabled, the workspace-root translation emits no test rule at
/// all, neither inline-test companions nor integration-test rules.
pub proof fn lemma_no_tests_when_disabled(
    rules: Seq<Rule>,
    p: Package,
    node: Node,
    ctx: BuckalContext,
    file: Seq<char>,
    bs_t: Option<BuckalTarget>,
)
    requires
        spec_root_rules_ok(rules, p, node, ctx, file, bs_t, true),
    ensures
        forall|ri: int|
            0 <= ri < rules.len() ==> !((#[trigger] rules[ri]) matches Rule::RustTest(_)),
{
    let ts = p.targets@;
    assert forall|ri: int|
        0 <= ri < rules.len() implies !((#[trigger] rules[ri])
        matches Rule::RustTest(_)) by {
        lemma_root_rule_index(rules, p, node, ctx, file, bs_t, true, ri);
        if ri == 0 || ri == 1 {
        } else if exists|k: int|
            0 <= k < ts.len() && spec_target_has_kind(#[trigger] ts[k], TargetKind::Bin)
                && ri == spec_bin_pos(ts, k) {
            let k = choose|k: int|
                0 <= k < ts.len() && spec_target_has_kind(#[trigger] ts[k], TargetKind::Bin)
                    && ri == spec_bin_pos(ts, k);
            assert(spec_root_bin_ok(rules[spec_bin_pos(ts, k)], p, node, ts[k], ctx, file,
                bs_t));
        } else if exists|k: int|
            0 <= k < ts.len() && spec_is_lib_target(#[trigger] ts[k]) && ri == spec_lib_pos(
                ts,
                k,
                true,
            ) {
            let k = choose|k: int|
                0 <= k < ts.len() && spec_is_lib_target(#[trigger] ts[k]) && ri
                    == spec_lib_pos(ts, k, true);
            assert(spec_root_lib_ok(rules[spec_lib_pos(ts, k, true)], p, node, ts[k], ctx,
                file, bs_t));
        } else {
            assert(bs_t is Some && ri >= rules.len() - 2);
        }
    }
}

/// Disambiguation at the workspace root: when a binary unit and a library
/// unit share one name, the translated rules name the library rule with the
/// `lib` prefix and give the binary rule a dependency on it, and no library
/// rule carries the shared name itself. The side condition rules out a
/// library unit elsewhere in the package whose own prefixed rule name would
/// collide with the shared name.
pub proof fn lemma_disambiguation(
    rules: Seq<Rule>,
    node: Node,
    ctx: BuckalContext,
    file: Seq<char>,
    kb: int,
    kl: int,
)
    requires
        spec_buckify_root_ok(rules, node, ctx, file),
        0 <= kb < ctx.packages_map@[node.id@].targets@.len(),
        0 <= kl < ctx.packages_map@[node.id@].targets@.len(),
        spec_target_has_kind(ctx.packages_map@[node.id@].targets@[kb], TargetKind::Bin),
        spec_is_lib_target(ctx.packages_map@[node.id@].targets@[kl]),
        ctx.packages_map@[node.id@].targets@[kb].name@ == ctx.packages_map@[
            node.id@].targets@[kl].name@,
        forall|k: int|
            0 <= k < ctx.packages_map@[node.id@].targets@.len() && spec_is_lib_target(
                #[trigger] ctx.packages_map@[node.id@].targets@[k],
            ) ==> "lib"@ + ctx.packages_map@[node.id@].targets@[k].name@ != ctx.packages_map@[
                node.id@].targets@[kl].name@,
    ensures
        exists|ri: int|
            0 <= ri < rules.len() && ((#[trigger] rules[ri]) matches Rule::RustLibrary(l)
                && l.name@ == "lib"@ + ctx.packages_map@[node.id@].targets@[kl].name@),
        exists|ri: int|
            0 <= ri < rules.len() && ((#[trigger] rules[ri]) matches Rule::RustBinary(b)
                && b.name@ == ctx.packages_map@[node.id@].targets@[kb].name@
                && b.deps@.contains(
                ":lib"@ + ctx.packages_map@[node.id@].targets@[kb].name@,
            )),
        forall|ri: int|
            0 <= ri < rules.len() ==> !((#[trigger] rules[ri]) matches Rule::RustLibrary(l)
                && l.name@ == ctx.packages_map@[node.id@].targets@[kl].name@),
{
    let p = ctx.packages_map@[node.id@];
    let ts = p.targets@;
    let len = ts.len() as int;
    let ig = ctx.repo_config.ignore_tests;
    let bs_t = match spec_first_with_kind(ts, TargetKind::CustomBuild) {
        Some(bi) => Some(ts[bi]),
        None => None,
    };
    let n = ts[kl].name@;
    assert(spec_has_kind_named(ts, TargetKind::Bin, n)) by {
        assert(spec_target_has_kind(ts[kb], TargetKind::Bin) && ts[kb].name@ == n);
    }
    assert(crate::classify::spec_has_lib_named(ts, n)) by {
        assert(spec_is_lib_target(ts[kl]) && ts[kl].name@ == n);
    }
    lemma_root_counts_mono(ts, 0, len, ig);
    let rl = spec_lib_pos(ts, kl, ig);
    assert(spec_root_lib_ok(rules[rl], p, node, ts[kl], ctx, file, bs_t));
    assert(0 <= rl < rules.len()) by {
        lemma_root_counts_mono(ts, 0, kl, ig);
        lemma_nlib_step(ts, kl, ig);
        lemma_root_counts_mono(ts, kl + 1, len, ig);
    }
    assert(spec_buckal_lib_name(n, true) == "lib"@ + n);
    assert(rules[rl] matches Rule::RustLibrary(l) && l.name@ == "lib"@ + n);
    let rb = spec_bin_pos(ts, kb);
    assert(spec_root_bin_ok(rules[rb], p, node, ts[kb], ctx, file, bs_t));
    assert(0 <= rb < rules.len()) by {
        lemma_root_counts_mono(ts, 0, kb, ig);
        lemma_nbins_step(ts, kb);
        lemma_root_counts_mono(ts, kb + 1, len, ig);
    }
    assert(rules[rb] matches Rule::RustBinary(b) && b.deps@.contains(":lib"@ + n) && b.name@
        == n) by {
        match rules[rb] {
            Rule::RustBinary(b) => {
                match spec_set_deps(
                    DepsOut { deps: Set::empty(), named: Map::empty() },
                    node.deps@,
                    node.id@,
                    ctx,
                    CargoTargetKind::Bin,
                    file,
                ) {
                    Ok(o) => {
                        assert(b.deps@ == o.deps.insert(":lib"@ + n));
                    },
                    Err(_) => {
                        assert(false);
                    },
                }
            },
            _ => {
                assert(false);
            },
        }
    }
    assert forall|ri: int|
        0 <= ri < rules.len() implies !((#[trigger] rules[ri]) matches Rule::RustLibrary(l)
        && l.name@ == n) by {
        lemma_root_rule_index(rules, p, node, ctx, file, bs_t, ig, ri);
        if ri == 0 || ri == 1 {
        } else if exists|k: int|
            0 <= k < ts.len() && spec_target_has_kind(#[trigger] ts[k], TargetKind::Bin)
                && ri == spec_bin_pos(ts, k) {
            let k = choose|k: int|
                0 <= k < ts.len() && spec_target_has_kind(#[trigger] ts[k], TargetKind::Bin)
                    && ri == spec_bin_pos(ts, k);
            assert(spec_root_bin_ok(rules[spec_bin_pos(ts, k)], p, node, ts[k], ctx, file,
                bs_t));
        } else if exists|k: int|
            0 <= k < ts.len() && spec_is_lib_target(#[trigger] ts[k]) && ri == spec_lib_pos(
                ts,
                k,
                ig,
            ) {
            let k = choose|k: int|
                0 <= k < ts.len() && spec_is_lib_target(#[trigger] ts[k]) && ri
                    == spec_lib_pos(ts, k, ig);
            assert(spec_root_lib_ok(rules[spec_lib_pos(ts, k, ig)], p, node, ts[k], ctx,
                file, bs_t));
            match rules[ri] {
                Rule::RustLibrary(l) => {
                    if l.name@ == n {
                        if spec_has_kind_named(ts, TargetKind::Bin, ts[k].name@) {
                            assert("lib"@ + ts[k].name@ != n);
                            assert(false);
                        } else {
                            assert(ts[k].name@ == n);
                            assert(spec_has_kind_named(ts, TargetKind::Bin, ts[k].name@));
                            assert(false);
                        }
                    }
                },
                _ => {},
            }
        } else if !ig && exists|k: int|
            0 <= k < ts.len() && spec_is_lib_target(#[trigger] ts[k]) && ts[k].test && ri
                == spec_lib_pos(ts, k, ig) + 1 {
            let k = choose|k: int|
                0 <= k < ts.len() && spec_is_lib_target(#[trigger] ts[k]) && ts[k].test
                    && ri == spec_lib_pos(ts, k, ig) + 1;
            assert(spec_root_unittest_ok(rules[spec_lib_pos(ts, k, ig) + 1], p, node,
                ts[k], ctx, file, bs_t));
        } else if !ig && exists|k: int|
            0 <= k < ts.len() && spec_target_has_kind(#[trigger] ts[k], TargetKind::Test)
                && ri == spec_test_pos(ts, k, ig) {
            let k = choose|k: int|
                0 <= k < ts.len() && spec_target_has_kind(
                    #[trigger] ts[k],
                    TargetKind::Test,
                ) && ri == spec_test_pos(ts, k, ig);
            assert(spec_root_test_ok(rules[spec_test_pos(ts, k, ig)], p, node, ts[k], ctx,
                file, bs_t));
        } else {
            assert(bs_t is Some && ri >= rules.len() - 2);
        }
    }
}

} // verus!
