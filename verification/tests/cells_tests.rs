use buckal::cells::{load_cell_aliases, rewrite_target_if_needed, rewrite_target_with_cell};
use buckal::config::{fetch_buckal_cell, init_buckal_cell, BuckConfig};

fn sample_config() -> BuckConfig {
    let text = "[cells]\n  root = .\n  third_party = third-party\n[cell_aliases]\n  tp = third_party\n";
    BuckConfig::parse(text.to_string())
}

#[test]
fn parse_cells_reads_the_cells_section() {
    let config = sample_config();
    let cells = config.parse_cells();
    assert_eq!(cells.get("root").unwrap(), ".");
    assert_eq!(cells.get("third_party").unwrap(), "third-party");
    assert!(cells.get("tp").is_none());
    assert_eq!(cells.len(), 2);
}

#[test]
fn parse_cell_aliases_reads_the_alias_section() {
    let config = sample_config();
    let aliases = config.parse_cell_aliases();
    assert_eq!(aliases.get("tp").unwrap(), "third_party");
    assert_eq!(aliases.len(), 1);
}

#[test]
fn parse_skips_comments_and_blank_lines() {
    let text = "[cells]\n# a comment\n  a = x\n\n  b = y\n";
    let config = BuckConfig::parse(text.to_string());
    let cells = config.parse_cells();
    assert_eq!(cells.len(), 2);
    assert_eq!(cells.get("a").unwrap(), "x");
    assert_eq!(cells.get("b").unwrap(), "y");
}

#[test]
fn serialize_round_trips_sections() {
    let text = "[cells]\n  a = x\n\n[project]\n  ignore = target\n";
    let config = BuckConfig::parse(text.to_string());
    let out = config.serialize();
    let again = BuckConfig::parse(out);
    let cells = again.parse_cells();
    assert_eq!(cells.get("a").unwrap(), "x");
    assert_eq!(
        again.get_section("project").unwrap().as_slice(),
        &["  ignore = target".to_string()]
    );
}

#[test]
fn find_cell_for_path_prefers_the_most_specific_cell() {
    // Nested declarations: the deeper declaration wins over the root cell.
    let text = "[cells]\n  root = .\n  sub = a/b\n";
    let config = BuckConfig::parse(text.to_string());
    let cell = config.find_cell_for_path("/repo/a/b/c", "/repo");
    assert_eq!(cell.unwrap(), "sub");
    let cell = config.find_cell_for_path("/repo/other", "/repo");
    assert_eq!(cell.unwrap(), "root");
}

#[test]
fn find_cell_for_path_outside_root_finds_nothing() {
    let config = sample_config();
    assert!(config.find_cell_for_path("/elsewhere/a", "/repo").is_none());
}

#[test]
fn find_cell_for_path_breaks_ties_lexicographically() {
    let text = "[cells]\n  bravo = a\n  alpha = a\n";
    let config = BuckConfig::parse(text.to_string());
    let cell = config.find_cell_for_path("/repo/a/x", "/repo");
    assert_eq!(cell.unwrap(), "alpha");
}

#[test]
fn load_cell_aliases_maps_cells_and_aliases() {
    let config = sample_config();
    let aliases = load_cell_aliases(&config);
    assert_eq!(aliases.get("root").unwrap(), "root");
    assert_eq!(aliases.get("third_party").unwrap(), "third_party");
    assert_eq!(aliases.get("tp").unwrap(), "third_party");
}

#[test]
fn load_cell_aliases_drops_aliases_to_missing_cells() {
    let text = "[cells]\n  a = x\n[cell_aliases]\n  ghostly = nowhere\n";
    let config = BuckConfig::parse(text.to_string());
    let aliases = load_cell_aliases(&config);
    assert!(aliases.get("ghostly").is_none());
    assert_eq!(aliases.get("a").unwrap(), "a");
}

#[test]
fn rewrite_bare_label_away_from_root_gains_cell_and_at() {
    // Cell map {root: ".", third_party: "third-party"}, alias {tp -> third_party}:
    // a bare label under the third-party tree, from a file away from the root.
    let config = sample_config();
    let aliases = load_cell_aliases(&config);
    let out = rewrite_target_with_cell(
        "//third-party/rust/crates/foo/1.0:foo",
        &aliases,
        "/repo",
        &config,
        "/repo/third-party/rust/crates/foo/1.0/BUCK",
    );
    assert_eq!(out, "@third_party//rust/crates/foo/1.0:foo");
}

#[test]
fn rewrite_is_idempotent_on_its_own_output() {
    let config = sample_config();
    let aliases = load_cell_aliases(&config);
    let file = "/repo/third-party/rust/crates/foo/1.0/BUCK";
    let once = rewrite_target_with_cell(
        "//third-party/rust/crates/foo/1.0:foo",
        &aliases,
        "/repo",
        &config,
        file,
    );
    let twice = rewrite_target_with_cell(once.as_str(), &aliases, "/repo", &config, file);
    assert_eq!(once, twice);
}

#[test]
fn rewrite_is_idempotent_on_unparsable_labels() {
    let config = sample_config();
    let aliases = load_cell_aliases(&config);
    let file = "/repo/some/dir/BUCK";
    for label in ["", "plain-name", ":local", "//unknown/path:t", "tp//third-party/x:y"] {
        let once = rewrite_target_with_cell(label, &aliases, "/repo", &config, file);
        let twice = rewrite_target_with_cell(once.as_str(), &aliases, "/repo", &config, file);
        assert_eq!(once, twice);
    }
}

#[test]
fn rewrite_canonicalizes_alias_qualified_labels() {
    let config = sample_config();
    let aliases = load_cell_aliases(&config);
    let out = rewrite_target_with_cell(
        "tp//third-party/rust/crates/foo/1.0:foo",
        &aliases,
        "/repo",
        &config,
        "/repo/third-party/rust/crates/foo/1.0/BUCK",
    );
    assert_eq!(out, "@third_party//rust/crates/foo/1.0:foo");
}

#[test]
fn rewrite_at_root_gets_no_at_prefix() {
    let config = sample_config();
    let aliases = load_cell_aliases(&config);
    let out = rewrite_target_with_cell(
        "//third-party/rust/crates/foo/1.0:foo",
        &aliases,
        "/repo",
        &config,
        "/repo/BUCK",
    );
    assert_eq!(out, "third_party//rust/crates/foo/1.0:foo");
}

#[test]
fn rewrite_if_needed_passes_through_when_alignment_is_off() {
    let config = sample_config();
    let out = rewrite_target_if_needed(
        "//third-party/rust/crates/foo/1.0:foo",
        "/repo",
        false,
        &Some(config),
        "/repo/a/BUCK",
    );
    assert_eq!(out, "//third-party/rust/crates/foo/1.0:foo");
}

#[test]
fn rewrite_if_needed_passes_through_without_a_configuration() {
    let out = rewrite_target_if_needed(
        "//third-party/rust/crates/foo/1.0:foo",
        "/repo",
        true,
        &None,
        "/repo/a/BUCK",
    );
    assert_eq!(out, "//third-party/rust/crates/foo/1.0:foo");
}

#[test]
fn init_buckal_cell_declares_the_cell_and_pin() {
    let mut config = BuckConfig::parse(
        "[cells]\n  root = .\n[external_cells]\n".to_string(),
    );
    init_buckal_cell(&mut config, "example/bundles", "abc123");
    let cells = config.get_section("cells").unwrap();
    assert!(cells.contains(&"  buckal = buckal".to_string()));
    let ext = config.get_section("external_cells").unwrap();
    assert!(ext.contains(&"  buckal = git".to_string()));
    let pin = config.get_section("external_cell_buckal").unwrap();
    assert_eq!(
        pin.as_slice(),
        &[
            "  git_origin = https://github.com/example/bundles".to_string(),
            "  commit_hash = abc123".to_string(),
        ]
    );
    let proj = config.get_section("project").unwrap();
    assert_eq!(proj.as_slice(), &["  ignore = .git .buckal buck-out target".to_string()]);
    let out = config.serialize();
    assert!(out.contains("[external_cell_buckal]"));
    assert!(out.contains("[project]"));
}

#[test]
fn fetch_buckal_cell_replaces_the_pin() {
    let mut config = BuckConfig::parse(
        "[external_cell_buckal]\n  git_origin = https://github.com/example/bundles\n  commit_hash = old\n".to_string(),
    );
    fetch_buckal_cell(&mut config, "example/bundles", "newhash");
    let pin = config.get_section("external_cell_buckal").unwrap();
    assert_eq!(
        pin.as_slice(),
        &[
            "  git_origin = https://github.com/example/bundles".to_string(),
            "  commit_hash = newhash".to_string(),
        ]
    );
}

#[test]
fn get_section_mut_creates_an_empty_entry() {
    let mut config = BuckConfig::parse("[cells]\n  a = x\n".to_string());
    config.get_section_mut("fresh");
    assert!(config.get_section("fresh").unwrap().is_empty());
    config.append_section_line("fresh", "  k = v".to_string());
    assert_eq!(config.get_section("fresh").unwrap().as_slice(), &["  k = v".to_string()]);
}

#[test]
fn new_section_after_places_the_header() {
    let mut config = BuckConfig::parse("[one]\n  a = 1\n[two]\n  b = 2\n".to_string());
    config.new_section_after("one", "middle");
    let out = config.serialize();
    let one = out.find("[one]").unwrap();
    let middle = out.find("[middle]").unwrap();
    let two = out.find("[two]").unwrap();
    assert!(one < middle && middle < two);
}

#[test]
fn rewrite_is_idempotent_at_the_project_root() {
    let config = sample_config();
    let aliases = load_cell_aliases(&config);
    let file = "/repo/BUCK";
    for label in [
        "//third-party/rust/crates/foo/1.0:foo",
        "tp//third-party/rust/crates/foo/1.0:foo",
        "//src:app",
        "no-label-here",
    ] {
        let once = rewrite_target_with_cell(label, &aliases, "/repo", &config, file);
        let twice = rewrite_target_with_cell(once.as_str(), &aliases, "/repo", &config, file);
        assert_eq!(once, twice);
    }
}

#[test]
fn serialize_keeps_header_only_sections_bare() {
    let config = BuckConfig::parse("[a]\n[b]\n  x = 1\n".to_string());
    assert_eq!(config.serialize(), "[a]\n[b]\n  x = 1\n");
}

#[test]
fn parse_handles_crlf_and_trailing_newlines() {
    let config = BuckConfig::parse("[cells]\r\n  a = x\r\n".to_string());
    let cells = config.parse_cells();
    assert_eq!(cells.get("a").unwrap(), "x");
}

#[test]
fn root_cell_owns_everything_but_strips_nothing() {
    let config = BuckConfig::parse("[cells]\n  root = .\n".to_string());
    let aliases = load_cell_aliases(&config);
    let out = rewrite_target_with_cell(
        "//x/y:z",
        &aliases,
        "/repo",
        &config,
        "/repo/x/BUCK",
    );
    assert_eq!(out, "@root//x/y:z");
}

#[test]
fn kv_sections_keep_the_last_binding_of_a_key() {
    let config = BuckConfig::parse("[cells]\n  a = one\n  a = two\n".to_string());
    let cells = config.parse_cells();
    assert_eq!(cells.len(), 1);
    assert_eq!(cells.get("a").unwrap(), "two");
}
