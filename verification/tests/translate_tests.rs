use buckal::apply::{parse_package_id, BuckalAction, BuckalChange, ChangeType};
use buckal::buckify::{buckify_dep_node, buckify_root_node, gen_buck_content, standard_loads};
use buckal::classify::{
    check_dep_target, edge_selected, get_build_name, underscore, CargoTargetKind,
};
use buckal::model::{
    Assoc, BuckalContext, BuckalError, BuckalTarget, DepKind, DepKindInfo, Node, NodeDep,
    Package, RepoConfig, TargetKind,
};
use buckal::rules::Rule;
use buckal::strmap::StrMap;
use buckal::version::Version;

fn lib_unit(name: &str, manifest_dir: &str) -> BuckalTarget {
    BuckalTarget {
        kind: vec![TargetKind::Lib],
        name: name.to_string(),
        src_path: format!("{manifest_dir}/src/lib.rs"),
        test: false,
    }
}

fn package(name: &str, version: Version, manifest_dir: &str, source: Option<&str>) -> Package {
    Package {
        id: format!("registry+https://example#{name}@{}", version.render()),
        name: name.to_string(),
        version,
        manifest_dir: manifest_dir.to_string(),
        source: source.map(|s| s.to_string()),
        links: None,
        edition: "2021".to_string(),
        targets: Vec::new(),
    }
}

fn empty_ctx() -> BuckalContext {
    BuckalContext {
        packages_map: Assoc::new(),
        nodes_map: Assoc::new(),
        checksums_map: StrMap::new(),
        platforms_map: Assoc::new(),
        root_id: String::new(),
        workspace_root: "/repo".to_string(),
        separate: false,
        no_merge: false,
        repo_config: RepoConfig {
            ignore_tests: false,
            inherit_workspace_deps: false,
            align_cells: false,
            patch_fields: Vec::new(),
        },
        buck2_root: "/repo".to_string(),
        buckconfig: None,
        target_triple: "x86_64-unknown-linux-gnu".to_string(),
        cfgs: Vec::new(),
    }
}

#[test]
fn version_renders_as_dotted_decimal() {
    assert_eq!(Version::new(1, 0, 200).render(), "1.0.200");
    assert_eq!(Version::new(0, 12, 3).render(), "0.12.3");
    assert!(Version::new(1, 0, 199).lt(&Version::new(1, 0, 200)));
    assert!(Version::new(1, 9, 9).lt(&Version::new(2, 0, 0)));
    assert!(!Version::new(2, 0, 0).lt(&Version::new(1, 9, 9)));
}

#[test]
fn underscore_folds_hyphens() {
    assert_eq!(underscore("serde-json"), "serde_json");
    assert_eq!(underscore("plain"), "plain");
}

#[test]
fn build_name_strips_the_suffix() {
    assert_eq!(get_build_name("build-script-build"), "build-script");
    assert_eq!(get_build_name("custom"), "custom");
}

#[test]
fn classifier_rejects_dev_edges_outside_tests() {
    // A Development-kind-only edge never applies to a non-test unit.
    let kinds = vec![DepKindInfo { kind: DepKind::Development, target: None }];
    let cfgs: Vec<String> = Vec::new();
    assert!(!edge_selected(&kinds, CargoTargetKind::Lib, "t", &cfgs));
    assert!(!edge_selected(&kinds, CargoTargetKind::Bin, "t", &cfgs));
    assert!(!edge_selected(&kinds, CargoTargetKind::CustomBuild, "t", &cfgs));
    assert!(edge_selected(&kinds, CargoTargetKind::Test, "t", &cfgs));
}

#[test]
fn classifier_confines_build_edges_to_build_scripts() {
    let kinds = vec![DepKindInfo { kind: DepKind::Build, target: None }];
    let cfgs: Vec<String> = Vec::new();
    assert!(edge_selected(&kinds, CargoTargetKind::CustomBuild, "t", &cfgs));
    assert!(!edge_selected(&kinds, CargoTargetKind::Lib, "t", &cfgs));
    assert!(!edge_selected(&kinds, CargoTargetKind::Test, "t", &cfgs));
}

#[test]
fn platform_predicates_decide_edges() {
    let cfgs: Vec<String> = Vec::new();
    let always = DepKindInfo { kind: DepKind::Normal, target: Some("cfg(all())".to_string()) };
    let never = DepKindInfo { kind: DepKind::Normal, target: Some("cfg(any())".to_string()) };
    let named = DepKindInfo {
        kind: DepKind::Normal,
        target: Some("x86_64-unknown-linux-gnu".to_string()),
    };
    let other = DepKindInfo {
        kind: DepKind::Normal,
        target: Some("aarch64-apple-darwin".to_string()),
    };
    assert!(check_dep_target(&always, "x86_64-unknown-linux-gnu", &cfgs));
    assert!(!check_dep_target(&never, "x86_64-unknown-linux-gnu", &cfgs));
    assert!(check_dep_target(&named, "x86_64-unknown-linux-gnu", &cfgs));
    assert!(!check_dep_target(&other, "x86_64-unknown-linux-gnu", &cfgs));
}

#[test]
fn serde_dependency_package_yields_vendor_manifest_and_library_rules() {
    // End to end: serde 1.0.200 from a registry.
    let mut ctx = empty_ctx();
    let mut serde_pkg = package(
        "serde",
        Version::new(1, 0, 200),
        "/cargo/registry/serde-1.0.200",
        Some("registry"),
    );
    serde_pkg.targets.push(BuckalTarget {
        kind: vec![TargetKind::Lib],
        name: "serde".to_string(),
        src_path: "/cargo/registry/serde-1.0.200/src/lib.rs".to_string(),
        test: false,
    });
    let id = serde_pkg.id.clone();
    let node = Node { id: id.clone(), deps: Vec::new(), features: vec!["std".to_string()] };
    ctx.packages_map.insert(id.clone(), serde_pkg);
    ctx.nodes_map.insert(id.clone(), node);
    ctx.checksums_map.insert("serde-1.0.200".to_string(), "deadbeef".to_string());
    let node = Node { id: id.clone(), deps: Vec::new(), features: vec!["std".to_string()] };
    let rules = buckify_dep_node(&node, &ctx, "/repo/third-party/rust/crates/serde/1.0.200/BUCK")
        .unwrap();
    assert_eq!(rules.len(), 3);
    match &rules[0] {
        Rule::HttpArchive(h) => {
            assert_eq!(h.name, "serde-vendor");
            assert!(h.urls.contains("https://static.crates.io/crates/serde/serde-1.0.200.crate"));
            assert_eq!(h.sha256, "deadbeef");
            assert_eq!(h.archive_type, "tar.gz");
            assert_eq!(h.strip_prefix, "serde-1.0.200");
            assert_eq!(h.out.as_deref(), Some("vendor"));
        }
        _ => panic!("expected a vendor-fetch rule first"),
    }
    match &rules[1] {
        Rule::CargoManifest(m) => {
            assert_eq!(m.name, "serde-manifest");
            assert_eq!(m.vendor, ":serde-vendor");
        }
        _ => panic!("expected the manifest rule second"),
    }
    match &rules[2] {
        Rule::RustLibrary(l) => {
            assert_eq!(l.name, "serde");
            assert_eq!(l.crate_name, "serde");
            assert_eq!(l.crate_root, "vendor/src/lib.rs");
            assert_eq!(l.edition, "2021");
            assert!(l.srcs.contains(":serde-vendor"));
            assert!(l.features.contains("std"));
            assert!(l.rustc_flags.contains("@$(location :serde-manifest[env_flags])"));
            assert!(l.visibility.contains("PUBLIC"));
            assert!(!l.proc_macro);
        }
        _ => panic!("expected the library rule third"),
    }
}

#[test]
fn missing_checksum_is_fatal() {
    let mut ctx = empty_ctx();
    let mut pkg = package("nosum", Version::new(1, 0, 0), "/cargo/nosum", Some("registry"));
    pkg.targets.push(lib_unit("nosum", "/cargo/nosum"));
    let id = pkg.id.clone();
    ctx.packages_map.insert(id.clone(), pkg);
    let node = Node { id: id.clone(), deps: Vec::new(), features: Vec::new() };
    match buckify_dep_node(&node, &ctx, "/repo/x/BUCK") {
        Err(BuckalError::MissingChecksum { package }) => {
            assert_eq!(package, "nosum-1.0.0");
        }
        _ => panic!("expected a missing-checksum error"),
    }
}

#[test]
fn root_package_disambiguates_colliding_library_and_binary() {
    // A binary and a library both named `foo`: the library rule becomes
    // `libfoo` and the binary depends on `:libfoo`.
    let mut ctx = empty_ctx();
    let mut root = package("foo", Version::new(0, 1, 0), "/repo", None);
    root.targets.push(BuckalTarget {
        kind: vec![TargetKind::Bin],
        name: "foo".to_string(),
        src_path: "/repo/src/main.rs".to_string(),
        test: false,
    });
    root.targets.push(BuckalTarget {
        kind: vec![TargetKind::Lib],
        name: "foo".to_string(),
        src_path: "/repo/src/lib.rs".to_string(),
        test: false,
    });
    let id = root.id.clone();
    ctx.root_id = id.clone();
    ctx.packages_map.insert(id.clone(), root);
    let node = Node { id: id.clone(), deps: Vec::new(), features: Vec::new() };
    let rules = buckify_root_node(&node, &ctx, "/repo/BUCK").unwrap();
    let mut saw_libfoo = false;
    let mut bin_depends_on_lib = false;
    for rule in &rules {
        match rule {
            Rule::RustLibrary(l) => {
                if l.name == "libfoo" {
                    saw_libfoo = true;
                }
                assert_ne!(l.name, "foo");
            }
            Rule::RustBinary(b) => {
                if b.name == "foo" && b.deps.contains(":libfoo") {
                    bin_depends_on_lib = true;
                }
            }
            _ => {}
        }
    }
    assert!(saw_libfoo);
    assert!(bin_depends_on_lib);
}

#[test]
fn root_package_emits_filegroup_manifest_and_unittest() {
    let mut ctx = empty_ctx();
    let mut root = package("app", Version::new(0, 1, 0), "/repo", None);
    root.targets.push(BuckalTarget {
        kind: vec![TargetKind::Lib],
        name: "app".to_string(),
        src_path: "/repo/src/lib.rs".to_string(),
        test: true,
    });
    let id = root.id.clone();
    ctx.root_id = id.clone();
    ctx.packages_map.insert(id.clone(), root);
    let node = Node { id: id.clone(), deps: Vec::new(), features: Vec::new() };
    let rules = buckify_root_node(&node, &ctx, "/repo/BUCK").unwrap();
    match &rules[0] {
        Rule::FileGroup(f) => {
            assert_eq!(f.name, "app-vendor");
            assert!(f.srcs.taken.contains("**/**"));
            assert_eq!(f.out.as_deref(), Some("vendor"));
        }
        _ => panic!("expected the source group first"),
    }
    match &rules[1] {
        Rule::CargoManifest(m) => assert_eq!(m.name, "app-manifest"),
        _ => panic!("expected the manifest rule second"),
    }
    let mut saw_unittest = false;
    for rule in &rules {
        if let Rule::RustTest(t) = rule {
            if t.name == "app-unittest" {
                saw_unittest = true;
            }
        }
    }
    assert!(saw_unittest);
}

#[test]
fn ambiguous_first_party_library_dependency_aborts() {
    // A first-party dependency exposing two library-family units is fatal.
    let mut ctx = empty_ctx();
    let mut dep = package("twolibs", Version::new(0, 1, 0), "/repo/twolibs", None);
    dep.targets.push(lib_unit("one", "/repo/twolibs"));
    dep.targets.push(lib_unit("two", "/repo/twolibs"));
    let dep_id = dep.id.clone();
    let mut root = package("app", Version::new(0, 1, 0), "/repo", None);
    root.targets.push(BuckalTarget {
        kind: vec![TargetKind::Lib],
        name: "app".to_string(),
        src_path: "/repo/src/lib.rs".to_string(),
        test: false,
    });
    let root_id = root.id.clone();
    ctx.root_id = root_id.clone();
    ctx.packages_map.insert(dep_id.clone(), dep);
    ctx.packages_map.insert(root_id.clone(), root);
    let node = Node {
        id: root_id.clone(),
        deps: vec![NodeDep {
            name: "twolibs".to_string(),
            pkg: dep_id.clone(),
            dep_kinds: vec![DepKindInfo { kind: DepKind::Normal, target: None }],
        }],
        features: Vec::new(),
    };
    match buckify_root_node(&node, &ctx, "/repo/BUCK") {
        Err(BuckalError::MissingLibraryTarget { package, found }) => {
            assert_eq!(package, "twolibs");
            assert_eq!(found, 2);
        }
        _ => panic!("expected translation to abort on the ambiguous library"),
    }
}

#[test]
fn renamed_dependency_lands_in_named_deps() {
    let mut ctx = empty_ctx();
    let mut dep = package("some-crate", Version::new(2, 0, 0), "/cargo/sc", Some("registry"));
    dep.targets.push(lib_unit("some_crate", "/cargo/sc"));
    let dep_id = dep.id.clone();
    let mut consumer = package("user", Version::new(1, 0, 0), "/cargo/user", Some("registry"));
    consumer.targets.push(lib_unit("user", "/cargo/user"));
    let id = consumer.id.clone();
    ctx.packages_map.insert(dep_id.clone(), dep);
    ctx.packages_map.insert(id.clone(), consumer);
    ctx.checksums_map.insert("user-1.0.0".to_string(), "cafe".to_string());
    let node = Node {
        id: id.clone(),
        deps: vec![NodeDep {
            name: "renamed".to_string(),
            pkg: dep_id.clone(),
            dep_kinds: vec![DepKindInfo { kind: DepKind::Normal, target: None }],
        }],
        features: Vec::new(),
    };
    let rules = buckify_dep_node(&node, &ctx, "/repo/x/BUCK").unwrap();
    match &rules[2] {
        Rule::RustLibrary(l) => {
            let target = l.named_deps.get("renamed").unwrap().as_str();
            assert_eq!(target, "//third-party/rust/crates/some-crate/2.0.0:some-crate");
            assert!(!l.deps.contains("//third-party/rust/crates/some-crate/2.0.0:some-crate"));
        }
        _ => panic!("expected the library rule"),
    }
}

#[test]
fn parse_package_id_recovers_name_and_version() {
    let r = parse_package_id("registry+https://crates.io#serde@1.0.200").unwrap();
    assert_eq!(r.0, "serde");
    assert_eq!(r.1, "1.0.200");
    let r = parse_package_id("path+file:///repo/app#app@0.1.0+build.5").unwrap();
    assert_eq!(r.0, "app");
    assert_eq!(r.1, "0.1.0");
}

#[test]
fn parse_package_id_rejects_malformed_identifiers() {
    assert!(parse_package_id("").is_none());
    assert!(parse_package_id("no-separators").is_none());
    assert!(parse_package_id("a+b#c@").is_none());
    assert!(parse_package_id("a+b#c@1.0+").is_none());
    assert!(parse_package_id("#name@1.0").is_none());
}

#[test]
fn removal_skips_the_workspace_root_locator() {
    // A removed entry matching the root's own locator pattern is skipped and
    // never yields a delete action.
    let ctx = empty_ctx();
    let change = BuckalChange {
        changes: vec![
            ("path+file:///repo#app@0.1.0".to_string(), ChangeType::Removed),
            (
                "registry+https://crates.io#serde@1.0.200".to_string(),
                ChangeType::Removed,
            ),
        ],
    };
    let actions = change.apply(&ctx).unwrap();
    assert_eq!(actions.len(), 1);
    match &actions[0] {
        BuckalAction::RemoveDir { name, version, dir } => {
            assert_eq!(name, "serde");
            assert_eq!(version, "1.0.200");
            assert_eq!(dir, "/repo/third-party/rust/crates/serde/1.0.200");
        }
        _ => panic!("expected one removal action"),
    }
}

#[test]
fn apply_plans_emissions_for_changed_dependencies() {
    let mut ctx = empty_ctx();
    let mut serde_pkg = package("serde", Version::new(1, 0, 200), "/cargo/serde", Some("reg"));
    serde_pkg.targets.push(lib_unit("serde", "/cargo/serde"));
    let id = serde_pkg.id.clone();
    ctx.packages_map.insert(id.clone(), serde_pkg);
    ctx.nodes_map.insert(
        id.clone(),
        Node { id: id.clone(), deps: Vec::new(), features: Vec::new() },
    );
    ctx.checksums_map.insert("serde-1.0.200".to_string(), "00ff".to_string());
    let change = BuckalChange { changes: vec![(id.clone(), ChangeType::Changed)] };
    let actions = change.apply(&ctx).unwrap();
    assert_eq!(actions.len(), 1);
    match &actions[0] {
        BuckalAction::EmitPackage { id: aid, first_party, vendor_dir, merge, rules } => {
            assert_eq!(aid, &id);
            assert!(!first_party);
            assert_eq!(vendor_dir, "/repo/third-party/rust/crates/serde/1.0.200");
            assert!(!merge);
            assert_eq!(rules.len(), 3);
        }
        _ => panic!("expected an emission action"),
    }
}

#[test]
fn apply_reports_an_unparsable_removed_identifier() {
    let ctx = empty_ctx();
    let change = BuckalChange {
        changes: vec![("garbage".to_string(), ChangeType::Removed)],
    };
    match change.apply(&ctx) {
        Err(BuckalError::BadPackageId { id }) => assert_eq!(id, "garbage"),
        _ => panic!("expected a bad-identifier error"),
    }
}

#[test]
fn gen_buck_content_assembles_the_file() {
    let loads = vec!["load-a\n".to_string(), "load-b\n".to_string()];
    let rules = vec!["rule-one\n".to_string(), "rule-two\n".to_string()];
    let out = gen_buck_content(&loads, &rules);
    assert_eq!(
        out,
        "# @generated by `cargo buckal`\n\nload-a\nload-b\n\nrule-one\n\nrule-two\n"
    );
    let loads = standard_loads();
    assert_eq!(loads.len(), 2);
    assert_eq!(loads[0].bzl, "@buckal//:cargo_manifest.bzl");
    assert!(loads[1].items.contains("rust_library"));
}

#[test]
fn third_party_aliases_point_at_the_newest_version() {
    let mut ctx = empty_ctx();
    let mut old_dep = package("memchr", Version::new(2, 6, 0), "/c/m26", Some("reg"));
    old_dep.targets.push(lib_unit("memchr", "/c/m26"));
    let old_id = "reg+x#memchr@2.6.0".to_string();
    let mut new_dep = package("memchr", Version::new(2, 7, 4), "/c/m27", Some("reg"));
    new_dep.targets.push(lib_unit("memchr", "/c/m27"));
    let new_id = "reg+x#memchr@2.7.4".to_string();
    let mut root = package("app", Version::new(0, 1, 0), "/repo", None);
    root.targets.push(lib_unit("app", "/repo"));
    let root_id = root.id.clone();
    ctx.packages_map.insert(old_id.clone(), old_dep);
    ctx.packages_map.insert(new_id.clone(), new_dep);
    ctx.packages_map.insert(root_id.clone(), root);
    ctx.nodes_map.insert(
        root_id.clone(),
        Node {
            id: root_id.clone(),
            deps: vec![
                NodeDep {
                    name: "memchr_old".to_string(),
                    pkg: old_id.clone(),
                    dep_kinds: vec![DepKindInfo { kind: DepKind::Normal, target: None }],
                },
                NodeDep {
                    name: "memchr".to_string(),
                    pkg: new_id.clone(),
                    dep_kinds: vec![DepKindInfo { kind: DepKind::Normal, target: None }],
                },
            ],
            features: Vec::new(),
        },
    );
    let aliases =
        buckal::aliases::generate_third_party_aliases(&ctx, "/repo/third-party/rust/BUCK");
    assert_eq!(aliases.len(), 1);
    assert_eq!(aliases[0].name, "memchr");
    assert_eq!(aliases[0].actual, "//third-party/rust/crates/memchr/2.7.4:memchr");
    assert!(aliases[0].visibility.contains("PUBLIC"));
}

#[test]
fn error_messages_name_the_offender() {
    let e = BuckalError::MissingChecksum { package: "serde-1.0.200".to_string() };
    assert_eq!(e.message(), "missing checksum for serde-1.0.200");
}

#[test]
fn vendor_dir_and_cache_path_lie_under_the_project_root() {
    assert_eq!(
        buckal::apply::get_vendor_dir("/repo", "serde", "1.0.200"),
        "/repo/third-party/rust/crates/serde/1.0.200"
    );
    assert_eq!(buckal::get_cache_path("/repo"), "/repo/buckal.snap");
    assert_eq!(buckal::rust_crates_root(), "third-party/rust/crates");
}

#[test]
fn modifier_content_declares_the_mode_aliases() {
    let content = buckal::modifier_package_content();
    assert!(content.starts_with("# @generated by `cargo buckal`\n"));
    assert!(content.contains("set_cfg_constructor(aliases = ALIASES)"));
    assert!(content.contains("\"buckal//config/mode:debug\","));
}

#[test]
fn build_script_package_gains_patched_rules() {
    let mut ctx = empty_ctx();
    let mut pkg = package("ring", Version::new(0, 17, 8), "/cargo/ring", Some("reg"));
    pkg.targets.push(lib_unit("ring", "/cargo/ring"));
    pkg.targets.push(BuckalTarget {
        kind: vec![TargetKind::CustomBuild],
        name: "build-script-build".to_string(),
        src_path: "/cargo/ring/build.rs".to_string(),
        test: false,
    });
    let id = pkg.id.clone();
    ctx.packages_map.insert(id.clone(), pkg);
    ctx.checksums_map.insert("ring-0.17.8".to_string(), "beef".to_string());
    let node = Node { id: id.clone(), deps: Vec::new(), features: Vec::new() };
    let rules = buckify_dep_node(&node, &ctx, "/repo/x/BUCK").unwrap();
    assert_eq!(rules.len(), 5);
    match &rules[2] {
        Rule::RustLibrary(l) => {
            assert_eq!(
                l.env.get("OUT_DIR").unwrap().as_str(),
                "$(location :ring-build-script-run[out_dir])"
            );
            assert!(l.rustc_flags.contains("@$(location :ring-build-script-run[rustc_flags])"));
        }
        _ => panic!("expected the patched library rule"),
    }
    match &rules[3] {
        Rule::RustBinary(b) => {
            assert_eq!(b.name, "ring-build-script-build");
            assert_eq!(b.crate_name, "build_script_build");
            assert_eq!(b.crate_root, "vendor/build.rs");
            assert!(!b.visibility.contains("PUBLIC"));
        }
        _ => panic!("expected the build-script compile rule"),
    }
    match &rules[4] {
        Rule::BuildscriptRun(r) => {
            assert_eq!(r.name, "ring-build-script-run");
            assert_eq!(r.package_name, "ring");
            assert_eq!(r.buildscript_rule, ":ring-build-script-build");
            assert_eq!(r.version, "0.17.8");
            assert_eq!(r.manifest_dir, ":ring-vendor");
            assert!(r.env_srcs.contains(":ring-manifest[env_dict]"));
        }
        _ => panic!("expected the build-script run rule"),
    }
}

#[test]
fn links_dependency_feeds_the_build_script_run() {
    let mut ctx = empty_ctx();
    let mut sys_dep = package("z-sys", Version::new(1, 2, 0), "/cargo/zs", Some("reg"));
    sys_dep.links = Some("z".to_string());
    sys_dep.targets.push(lib_unit("z_sys", "/cargo/zs"));
    sys_dep.targets.push(BuckalTarget {
        kind: vec![TargetKind::CustomBuild],
        name: "build-script-build".to_string(),
        src_path: "/cargo/zs/build.rs".to_string(),
        test: false,
    });
    let sys_id = sys_dep.id.clone();
    let mut pkg = package("user2", Version::new(1, 0, 0), "/cargo/u2", Some("reg"));
    pkg.targets.push(lib_unit("user2", "/cargo/u2"));
    pkg.targets.push(BuckalTarget {
        kind: vec![TargetKind::CustomBuild],
        name: "build-script-build".to_string(),
        src_path: "/cargo/u2/build.rs".to_string(),
        test: false,
    });
    let id = pkg.id.clone();
    ctx.packages_map.insert(sys_id.clone(), sys_dep);
    ctx.packages_map.insert(id.clone(), pkg);
    ctx.checksums_map.insert("user2-1.0.0".to_string(), "aa".to_string());
    let node = Node {
        id: id.clone(),
        deps: vec![NodeDep {
            name: "z_sys".to_string(),
            pkg: sys_id.clone(),
            dep_kinds: vec![DepKindInfo { kind: DepKind::Normal, target: None }],
        }],
        features: Vec::new(),
    };
    let rules = buckify_dep_node(&node, &ctx, "/repo/x/BUCK").unwrap();
    match &rules[4] {
        Rule::BuildscriptRun(r) => {
            assert!(r.env_srcs.contains(
                "//third-party/rust/crates/z-sys/1.2.0:z-sys-build-script-run[metadata]"
            ));
        }
        _ => panic!("expected the build-script run rule"),
    }
}

#[test]
fn links_dependency_without_build_script_is_fatal() {
    let mut ctx = empty_ctx();
    let mut sys_dep = package("n-sys", Version::new(1, 0, 0), "/cargo/ns", Some("reg"));
    sys_dep.links = Some("n".to_string());
    sys_dep.targets.push(lib_unit("n_sys", "/cargo/ns"));
    let sys_id = sys_dep.id.clone();
    let mut pkg = package("user3", Version::new(1, 0, 0), "/cargo/u3", Some("reg"));
    pkg.targets.push(lib_unit("user3", "/cargo/u3"));
    pkg.targets.push(BuckalTarget {
        kind: vec![TargetKind::CustomBuild],
        name: "build-script-build".to_string(),
        src_path: "/cargo/u3/build.rs".to_string(),
        test: false,
    });
    let id = pkg.id.clone();
    ctx.packages_map.insert(sys_id.clone(), sys_dep);
    ctx.packages_map.insert(id.clone(), pkg);
    ctx.checksums_map.insert("user3-1.0.0".to_string(), "bb".to_string());
    let node = Node {
        id: id.clone(),
        deps: vec![NodeDep {
            name: "n_sys".to_string(),
            pkg: sys_id.clone(),
            dep_kinds: vec![DepKindInfo { kind: DepKind::Normal, target: None }],
        }],
        features: Vec::new(),
    };
    match buckify_dep_node(&node, &ctx, "/repo/x/BUCK") {
        Err(BuckalError::LinksWithoutBuildScript { package }) => {
            assert_eq!(package, "n-sys");
        }
        _ => panic!("expected the links-without-build-script error"),
    }
}

#[test]
fn workspace_root_direct_deps_use_shared_aliases() {
    let mut ctx = empty_ctx();
    ctx.repo_config.inherit_workspace_deps = true;
    let mut dep = package("serde", Version::new(1, 0, 200), "/cargo/serde", Some("reg"));
    dep.targets.push(lib_unit("serde", "/cargo/serde"));
    let dep_id = dep.id.clone();
    let mut root = package("app", Version::new(0, 1, 0), "/repo", None);
    root.targets.push(lib_unit("app", "/repo"));
    let root_id = root.id.clone();
    ctx.root_id = root_id.clone();
    ctx.packages_map.insert(dep_id.clone(), dep);
    ctx.packages_map.insert(root_id.clone(), root);
    let node = Node {
        id: root_id.clone(),
        deps: vec![NodeDep {
            name: "serde".to_string(),
            pkg: dep_id.clone(),
            dep_kinds: vec![DepKindInfo { kind: DepKind::Normal, target: None }],
        }],
        features: Vec::new(),
    };
    let rules = buckify_root_node(&node, &ctx, "/repo/BUCK").unwrap();
    let mut found = false;
    for rule in &rules {
        if let Rule::RustLibrary(l) = rule {
            if l.deps.contains("//third-party/rust:serde") {
                found = true;
            }
        }
    }
    assert!(found);
}

#[test]
fn version_rendering_covers_the_edges() {
    assert_eq!(Version::new(0, 0, 0).render(), "0.0.0");
    assert_eq!(
        Version::new(u64::MAX, 0, 7).render(),
        format!("{}.0.7", u64::MAX)
    );
    assert_eq!(buckal::strutil::u64_to_dec(0), "0");
    assert_eq!(buckal::strutil::u64_to_dec(10), "10");
    assert_eq!(buckal::strutil::u64_to_dec(u64::MAX), u64::MAX.to_string());
}

#[test]
fn separate_mode_skips_first_party_packages() {
    let mut ctx = empty_ctx();
    ctx.separate = true;
    let mut fp = package("inner", Version::new(0, 1, 0), "/repo/inner", None);
    fp.targets.push(lib_unit("inner", "/repo/inner"));
    let fp_id = fp.id.clone();
    ctx.packages_map.insert(fp_id.clone(), fp);
    ctx.nodes_map.insert(
        fp_id.clone(),
        Node { id: fp_id.clone(), deps: Vec::new(), features: Vec::new() },
    );
    let change = BuckalChange { changes: vec![(fp_id.clone(), ChangeType::Added)] };
    let actions = change.apply(&ctx).unwrap();
    assert!(actions.is_empty());
}

#[test]
fn apply_skips_the_root_package_itself() {
    let mut ctx = empty_ctx();
    let mut root = package("app", Version::new(0, 1, 0), "/repo", None);
    root.targets.push(lib_unit("app", "/repo"));
    let root_id = root.id.clone();
    ctx.root_id = root_id.clone();
    ctx.packages_map.insert(root_id.clone(), root);
    ctx.nodes_map.insert(
        root_id.clone(),
        Node { id: root_id.clone(), deps: Vec::new(), features: Vec::new() },
    );
    let change = BuckalChange { changes: vec![(root_id.clone(), ChangeType::Added)] };
    let actions = change.apply(&ctx).unwrap();
    assert!(actions.is_empty());
}

#[test]
fn version_tags_render_and_order_by_semver_precedence() {
    let rc = Version::new_full(1, 0, 0, "rc.1".to_string(), String::new());
    assert_eq!(rc.render(), "1.0.0-rc.1");
    let tagged = Version::new_full(2, 1, 3, "alpha".to_string(), "build.7".to_string());
    assert_eq!(tagged.render(), "2.1.3-alpha+build.7");
    // a pre-release precedes its release
    assert!(rc.lt(&Version::new(1, 0, 0)));
    assert!(!Version::new(1, 0, 0).lt(&rc));
    // numeric identifiers compare as numbers, not lexically
    let a9 = Version::new_full(1, 0, 0, "alpha.9".to_string(), String::new());
    let a10 = Version::new_full(1, 0, 0, "alpha.10".to_string(), String::new());
    assert!(a9.lt(&a10));
    assert!(!a10.lt(&a9));
    // numeric identifiers sort below alphanumeric ones
    let num = Version::new_full(1, 0, 0, "1".to_string(), String::new());
    let alpha = Version::new_full(1, 0, 0, "alpha".to_string(), String::new());
    assert!(num.lt(&alpha));
    // fewer identifiers sort below
    let short = Version::new_full(1, 0, 0, "alpha".to_string(), String::new());
    let long = Version::new_full(1, 0, 0, "alpha.1".to_string(), String::new());
    assert!(short.lt(&long));
    // build metadata never decides precedence
    let b1 = Version::new_full(1, 0, 0, String::new(), "one".to_string());
    let b2 = Version::new_full(1, 0, 0, String::new(), "two".to_string());
    assert!(!b1.lt(&b2) && !b2.lt(&b1));
}

#[test]
fn pre_release_versions_flow_into_vendor_rules() {
    let mut ctx = empty_ctx();
    let mut pkg = package("edgy", Version::new_full(1, 0, 0, "rc.1".to_string(), String::new()),
        "/cargo/edgy", Some("reg"));
    pkg.targets.push(lib_unit("edgy", "/cargo/edgy"));
    let id = pkg.id.clone();
    ctx.packages_map.insert(id.clone(), pkg);
    ctx.checksums_map.insert("edgy-1.0.0-rc.1".to_string(), "0ddba11".to_string());
    let node = Node { id: id.clone(), deps: Vec::new(), features: Vec::new() };
    let rules = buckify_dep_node(&node, &ctx, "/repo/x/BUCK").unwrap();
    match &rules[0] {
        Rule::HttpArchive(h) => {
            assert!(h.urls.contains(
                "https://static.crates.io/crates/edgy/edgy-1.0.0-rc.1.crate"
            ));
            assert_eq!(h.strip_prefix, "edgy-1.0.0-rc.1");
        }
        _ => panic!("expected the vendor-fetch rule"),
    }
}

#[test]
fn merge_flag_follows_the_run_configuration() {
    let mut ctx = empty_ctx();
    ctx.repo_config.patch_fields = vec!["visibility".to_string()];
    let mut pkg = package("m", Version::new(1, 0, 0), "/cargo/m", Some("reg"));
    pkg.targets.push(lib_unit("m", "/cargo/m"));
    let id = pkg.id.clone();
    ctx.packages_map.insert(id.clone(), pkg);
    ctx.nodes_map.insert(
        id.clone(),
        Node { id: id.clone(), deps: Vec::new(), features: Vec::new() },
    );
    ctx.checksums_map.insert("m-1.0.0".to_string(), "aa".to_string());
    let change = BuckalChange { changes: vec![(id.clone(), ChangeType::Added)] };
    let actions = change.apply(&ctx).unwrap();
    match &actions[0] {
        BuckalAction::EmitPackage { merge, .. } => assert!(merge),
        _ => panic!("expected an emission"),
    }
    ctx.no_merge = true;
    let change = BuckalChange { changes: vec![(id.clone(), ChangeType::Added)] };
    let actions = change.apply(&ctx).unwrap();
    match &actions[0] {
        BuckalAction::EmitPackage { merge, .. } => assert!(!merge),
        _ => panic!("expected an emission"),
    }
}

#[test]
fn third_party_aliases_come_out_sorted_by_name() {
    let mut ctx = empty_ctx();
    let mut za = package("zebra", Version::new(1, 0, 0), "/c/z", Some("reg"));
    za.targets.push(lib_unit("zebra", "/c/z"));
    let za_id = "reg+x#zebra@1.0.0".to_string();
    let mut aa = package("aardvark", Version::new(2, 0, 0), "/c/a", Some("reg"));
    aa.targets.push(lib_unit("aardvark", "/c/a"));
    let aa_id = "reg+x#aardvark@2.0.0".to_string();
    let mut root = package("app", Version::new(0, 1, 0), "/repo", None);
    root.targets.push(lib_unit("app", "/repo"));
    let root_id = root.id.clone();
    ctx.packages_map.insert(za_id.clone(), za);
    ctx.packages_map.insert(aa_id.clone(), aa);
    ctx.packages_map.insert(root_id.clone(), root);
    ctx.nodes_map.insert(
        root_id.clone(),
        Node {
            id: root_id.clone(),
            deps: vec![
                NodeDep {
                    name: "zebra".to_string(),
                    pkg: za_id.clone(),
                    dep_kinds: vec![DepKindInfo { kind: DepKind::Normal, target: None }],
                },
                NodeDep {
                    name: "aardvark".to_string(),
                    pkg: aa_id.clone(),
                    dep_kinds: vec![DepKindInfo { kind: DepKind::Normal, target: None }],
                },
            ],
            features: Vec::new(),
        },
    );
    let aliases =
        buckal::aliases::generate_third_party_aliases(&ctx, "/repo/third-party/rust/BUCK");
    assert_eq!(aliases.len(), 2);
    assert_eq!(aliases[0].name, "aardvark");
    assert_eq!(aliases[1].name, "zebra");
}

#[test]
fn ambiguity_message_reports_the_count() {
    let e = BuckalError::MissingLibraryTarget { package: "twolibs".to_string(), found: 2 };
    assert_eq!(
        e.message(),
        "expected exactly one library target for dependency twolibs, but found 2"
    );
}

#[test]
fn disabled_tests_emit_no_test_rules() {
    let mut ctx = empty_ctx();
    ctx.repo_config.ignore_tests = true;
    let mut root = package("app", Version::new(0, 1, 0), "/repo", None);
    root.targets.push(BuckalTarget {
        kind: vec![TargetKind::Lib],
        name: "app".to_string(),
        src_path: "/repo/src/lib.rs".to_string(),
        test: true,
    });
    root.targets.push(BuckalTarget {
        kind: vec![TargetKind::Test],
        name: "integration".to_string(),
        src_path: "/repo/tests/integration.rs".to_string(),
        test: false,
    });
    let id = root.id.clone();
    ctx.root_id = id.clone();
    ctx.packages_map.insert(id.clone(), root);
    let node = Node { id: id.clone(), deps: Vec::new(), features: Vec::new() };
    let rules = buckify_root_node(&node, &ctx, "/repo/BUCK").unwrap();
    assert_eq!(rules.len(), 3);
    for rule in &rules {
        assert!(!matches!(rule, Rule::RustTest(_)));
    }
}
