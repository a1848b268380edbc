use vstd::prelude::*;

pub mod aliases;
pub mod apply;
pub mod buckify;
pub mod cells;
pub mod classify;
pub mod config;
pub mod model;
pub mod pathutil;
pub mod rules;
pub mod strmap;
pub mod strutil;
pub mod version;

verus! {

/// Root directory, relative to the project root, under which third-party
/// crate sources are vendored.
pub fn rust_crates_root() -> (r: &'static str)
    ensures
        r@ == "third-party/rust/crates"@,
{
    "third-party/rust/crates"
}

/// The snapshot cache file of a project.
pub fn get_cache_path(buck2_root: &str) -> (r: String)
    ensures
        r@ == buck2_root@ + "/buckal.snap"@,
{
    let mut r = buck2_root.to_owned();
    r.append("/buckal.snap");
    r
}

/// The content of the modifier declaration file that project initialization
/// writes next to the root rule file.
pub fn modifier_package_content() -> (r: String)
    ensures
        r@ == ("# @generated by `cargo buckal`\n\nload(\"@prelude//cfg/modifier:set_cfg_modifiers.bzl\", \"set_cfg_modifiers\")\nload(\"@prelude//rust:with_workspace.bzl\", \"with_rust_workspace\")\nload(\"@buckal//config:set_cfg_constructor.bzl\", \"set_cfg_constructor\")\n\nALIASES = {\n    \"debug\": \"buckal//config/mode:debug\",\n    \"release\": \"buckal//config/mode:release\",\n}\nset_cfg_constructor(aliases = ALIASES)\n\nset_cfg_modifiers(\n    cfg_modifiers = [\n        \"buckal//config/mode:debug\",\n    ],\n)\n")@,
{
    "# @generated by `cargo buckal`\n\nload(\"@prelude//cfg/modifier:set_cfg_modifiers.bzl\", \"set_cfg_modifiers\")\nload(\"@prelude//rust:with_workspace.bzl\", \"with_rust_workspace\")\nload(\"@buckal//config:set_cfg_constructor.bzl\", \"set_cfg_constructor\")\n\nALIASES = {\n    \"debug\": \"buckal//config/mode:debug\",\n    \"release\": \"buckal//config/mode:release\",\n}\nset_cfg_constructor(aliases = ALIASES)\n\nset_cfg_modifiers(\n    cfg_modifiers = [\n        \"buckal//config/mode:debug\",\n    ],\n)\n".to_owned()
}

} // verus!
