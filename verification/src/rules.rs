//! Build rules as a closed sum: one variant per rule kind, each carrying
//! only its relevant fields. Sets keep unique members in insertion order;
//! the writer sorts them at emission time.

use vstd::prelude::*;

use crate::strmap::{StrMap, StrSet};

verus! {

/// A file-matching pattern set: the patterns taken in, and those left out.
pub struct Glob {
    pub taken: StrSet,
    pub left_out: StrSet,
}

/// A vendor-fetch rule: a remote archive with its checksum.
pub struct HttpArchive {
    pub name: String,
    pub urls: StrSet,
    pub sha256: String,
    /// The archive format, `tar.gz` for registry crates.
    pub archive_type: String,
    pub strip_prefix: String,
    pub out: Option<String>,
}

/// A first-party source group.
pub struct FileGroup {
    pub name: String,
    pub srcs: Glob,
    pub out: Option<String>,
}

/// The manifest-asset rule of a package.
pub struct CargoManifest {
    pub name: String,
    pub vendor: String,
}

/// The shared shape of library, binary and test compile rules.
pub struct RustRuleData {
    pub name: String,
    pub crate_name: String,
    pub crate_root: String,
    pub edition: String,
    pub srcs: StrSet,
    pub features: StrSet,
    pub rustc_flags: StrSet,
    pub deps: StrSet,
    pub named_deps: StrMap,
    pub env: StrMap,
    pub compatible_with: StrSet,
    pub visibility: StrSet,
    pub proc_macro: bool,
}

/// A build-script-run rule, carrying its environment-source references.
pub struct BuildscriptRun {
    pub name: String,
    pub package_name: String,
    pub buildscript_rule: String,
    pub version: String,
    pub manifest_dir: String,
    pub env_srcs: StrSet,
    pub features: StrSet,
    pub visibility: StrSet,
}

/// A shared alias rule pointing at a concrete target.
pub struct Alias {
    pub name: String,
    pub actual: String,
    pub visibility: StrSet,
}

/// A load statement naming the macros a rule file imports.
pub struct Load {
    pub bzl: String,
    pub items: StrSet,
}

/// One build rule.
pub enum Rule {
    HttpArchive(HttpArchive),
    FileGroup(FileGroup),
    CargoManifest(CargoManifest),
    RustLibrary(RustRuleData),
    RustBinary(RustRuleData),
    RustTest(RustRuleData),
    BuildscriptRun(BuildscriptRun),
    Alias(Alias),
    Load(Load),
}

impl RustRuleData {
    pub open spec fn wf(&self) -> bool {
        &&& self.srcs.wf()
        &&& self.features.wf()
        &&& self.rustc_flags.wf()
        &&& self.deps.wf()
        &&& self.named_deps.wf()
        &&& self.env.wf()
        &&& self.compatible_with.wf()
        &&& self.visibility.wf()
    }
}

impl BuildscriptRun {
    pub open spec fn wf(&self) -> bool {
        &&& self.env_srcs.wf()
        &&& self.features.wf()
        &&& self.visibility.wf()
    }
}

} // verus!
