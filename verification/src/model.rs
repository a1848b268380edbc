//! The resolved dependency graph as the translator sees it: packages,
//! compilation units, dependency edges, and the run context.

use vstd::prelude::*;

use crate::config::BuckConfig;
use crate::strmap::{key_index, keys_contain, keys_unique, StrMap};
use crate::strutil::{spec_u64_dec, str_eq, u64_to_dec};
use crate::version::Version;

verus! {

/// A map from strings to arbitrary values, keyed like [`StrMap`].
#[verifier::reject_recursive_types(V)]
pub struct Assoc<V> {
    keys: Vec<String>,
    vals: Vec<V>,
}

impl<V> View for Assoc<V> {
    type V = Map<Seq<char>, V>;

    closed spec fn view(&self) -> Map<Seq<char>, V> {
        Map::new(
            |k: Seq<char>| keys_contain(self.keys.deep_view(), k),
            |k: Seq<char>| self.vals@[key_index(self.keys.deep_view(), k)],
        )
    }
}

impl<V> Assoc<V> {
    pub closed spec fn spec_keys(&self) -> Seq<Seq<char>> {
        self.keys.deep_view()
    }

    pub closed spec fn wf(&self) -> bool {
        self.keys.len() == self.vals.len() && keys_unique(self.keys.deep_view())
    }

    pub proof fn lemma_view(&self)
        requires
            self.wf(),
        ensures
            forall|k: Seq<char>| self@.contains_key(k) <==> keys_contain(self.spec_keys(), k),
            forall|i: int| 0 <= i < self.spec_keys().len() ==> self@.contains_key(
                #[trigger] self.spec_keys()[i],
            ),
    {
        assert forall|i: int| 0 <= i < self.spec_keys().len() implies self@.contains_key(
            self.spec_keys()[i],
        ) by {
            assert(keys_contain(self.keys.deep_view(), self.keys.deep_view()[i]));
        }
    }

    pub proof fn lemma_keys_unique_assoc(&self)
        requires
            self.wf(),
        ensures
            keys_unique(self.spec_keys()),
    {
    }

    pub fn new() -> (r: Assoc<V>)
        ensures
            r.wf(),
            r@ == Map::<Seq<char>, V>::empty(),
            r.spec_keys() == Seq::<Seq<char>>::empty(),
    {
        let r = Assoc { keys: Vec::new(), vals: Vec::new() };
        proof {
            assert(r.keys.deep_view() =~= Seq::<Seq<char>>::empty());
            assert(r@ =~= Map::<Seq<char>, V>::empty());
        }
        r
    }

    pub fn len(&self) -> (r: usize)
        requires
            self.wf(),
        ensures
            r == self.spec_keys().len(),
    {
        proof {
            assert(self.keys.deep_view().len() == self.keys@.len());
        }
        self.keys.len()
    }

    fn index_of(&self, k: &str) -> (r: Option<usize>)
        requires
            self.wf(),
        ensures
            match r {
                Some(i) => i < self.spec_keys().len() && self.spec_keys()[i as int] == k@,
                None => !keys_contain(self.spec_keys(), k@),
            },
    {
        let n = self.keys.len();
        proof {
            assert(self.keys.deep_view().len() == self.keys@.len());
        }
        let mut i: usize = 0;
        while i < n
            invariant
                n == self.keys@.len(),
                n == self.spec_keys().len(),
                0 <= i <= n,
                forall|j: int| 0 <= j < i ==> self.spec_keys()[j] != k@,
            decreases n - i,
        {
            proof {
                assert(self.spec_keys()[i as int] == self.keys@[i as int]@);
            }
            if str_eq(self.keys[i].as_str(), k) {
                return Some(i);
            }
            i += 1;
        }
        None
    }

    pub fn contains_key(&self, k: &str) -> (r: bool)
        requires
            self.wf(),
        ensures
            r == self@.contains_key(k@),
    {
        proof {
            self.lemma_view();
        }
        match self.index_of(k) {
            Some(_) => true,
            None => false,
        }
    }

    pub fn get<'a>(&'a self, k: &str) -> (r: Option<&'a V>)
        requires
            self.wf(),
        ensures
            match r {
                Some(v) => self@.contains_key(k@) && *v == self@[k@],
                None => !self@.contains_key(k@),
            },
    {
        proof {
            self.lemma_view();
        }
        match self.index_of(k) {
            Some(i) => {
                proof {
                    let keys = self.keys.deep_view();
                    let j = key_index(keys, k@);
                    assert(keys[i as int] == k@);
                    assert(0 <= j < keys.len() && keys[j] == k@);
                    assert(j == i);
                }
                Some(&self.vals[i])
            },
            None => None,
        }
    }

    /// Insert a binding; a key bound before keeps its place.
    pub fn insert(&mut self, k: String, v: V)
        requires
            old(self).wf(),
        ensures
            final(self).wf(),
            final(self)@ == old(self)@.insert(k@, v),
            old(self)@.contains_key(k@) ==> final(self).spec_keys() == old(self).spec_keys(),
            !old(self)@.contains_key(k@) ==> final(self).spec_keys() == old(
                self,
            ).spec_keys().push(k@),
    {
        proof {
            old(self).lemma_view();
        }
        match self.index_of(k.as_str()) {
            Some(i) => {
                self.vals[i] = v;
                proof {
                    let keys = self.keys.deep_view();
                    assert(self.vals@ =~= old(self).vals@.update(i as int, v));
                    assert(self@ =~= old(self)@.insert(k@, v)) by {
                        assert forall|q: Seq<char>| self@.contains_key(q) implies self@[q]
                            == old(self)@.insert(k@, v)[q] by {
                            let j = key_index(keys, q);
                            assert(0 <= j < keys.len() && keys[j] == q);
                            if q == k@ {
                                assert(j == i);
                            } else {
                                assert(j != i);
                            }
                        }
                    }
                }
            },
            None => {
                self.keys.push(k);
                self.vals.push(v);
                proof {
                    let okeys = old(self).keys.deep_view();
                    let keys = self.keys.deep_view();
                    assert(keys =~= okeys.push(k@));
                    assert(self.vals@ =~= old(self).vals@.push(v));
                    assert(keys_unique(keys)) by {
                        assert forall|a: int, b: int| 0 <= a < b < keys.len() implies keys[a]
                            != keys[b] by {
                            if b == okeys.len() {
                                assert(keys[b] == k@);
                                assert(!keys_contain(okeys, k@));
                            }
                        }
                    }
                    assert forall|q: Seq<char>| true implies #[trigger] keys_contain(keys, q)
                        == (keys_contain(okeys, q) || q == k@) by {
                        if keys_contain(keys, q) {
                            let a = choose|a: int| 0 <= a < keys.len() && keys[a] == q;
                            if a < okeys.len() {
                                assert(okeys[a] == q);
                                assert(keys_contain(okeys, q));
                            } else {
                                assert(q == k@);
                            }
                        }
                        if q == k@ {
                            assert(keys[okeys.len() as int] == k@);
                            assert(keys_contain(keys, q));
                        }
                        if keys_contain(okeys, q) {
                            let a = choose|a: int| 0 <= a < okeys.len() && okeys[a] == q;
                            assert(keys[a] == q);
                            assert(keys_contain(keys, q));
                        }
                    }
                    assert(self@ =~= old(self)@.insert(k@, v)) by {
                        assert forall|q: Seq<char>| self@.contains_key(q) implies self@[q]
                            == old(self)@.insert(k@, v)[q] by {
                            let j = key_index(keys, q);
                            assert(0 <= j < keys.len() && keys[j] == q);
                            if q == k@ {
                                assert(keys[okeys.len() as int] == k@);
                                assert(j == okeys.len());
                            } else {
                                assert(j < okeys.len());
                            }
                        }
                    }
                }
            },
        }
    }

    pub fn key_at<'a>(&'a self, i: usize) -> (r: &'a String)
        requires
            self.wf(),
            i < self.spec_keys().len(),
        ensures
            r@ == self.spec_keys()[i as int],
            self@.contains_key(r@),
    {
        proof {
            self.lemma_view();
            assert(self.spec_keys()[i as int] == self.keys@[i as int]@);
        }
        &self.keys[i]
    }

    pub fn val_at<'a>(&'a self, i: usize) -> (r: &'a V)
        requires
            self.wf(),
            i < self.spec_keys().len(),
        ensures
            *r == self@[self.spec_keys()[i as int]],
    {
        proof {
            self.lemma_view();
            let keys = self.keys.deep_view();
            let q = keys[i as int];
            let j = key_index(keys, q);
            assert(keys_contain(keys, q));
            assert(0 <= j < keys.len() && keys[j] == q);
            assert(j == i);
        }
        &self.vals[i]
    }
}

/// The kinds a compilation unit may declare.
#[derive(Clone, Copy, Debug, PartialEq, Eq, Structural)]
pub enum TargetKind {
    Lib,
    RLib,
    DyLib,
    CDyLib,
    StaticLib,
    ProcMacro,
    Bin,
    Test,
    Bench,
    Example,
    CustomBuild,
}

/// One compilation unit of a package.
pub struct BuckalTarget {
    pub kind: Vec<TargetKind>,
    pub name: String,
    /// Source-root file of the unit, as a path.
    pub src_path: String,
    /// Whether the unit declares inline tests.
    pub test: bool,
}

/// A package of the resolved graph.
pub struct Package {
    /// The structured package identifier string.
    pub id: String,
    pub name: String,
    pub version: Version,
    /// The directory holding the package's manifest.
    pub manifest_dir: String,
    /// Where the package came from; a first-party package has none.
    pub source: Option<String>,
    /// The `links` key, when the package owns a native library resource.
    pub links: Option<String>,
    pub edition: String,
    pub targets: Vec<BuckalTarget>,
}

/// The kind of one (kind, platform) pair on a dependency edge.
#[derive(Clone, Copy, Debug, PartialEq, Eq, Structural)]
pub enum DepKind {
    Normal,
    Build,
    Development,
}

/// One (kind, optional platform predicate) pair on an edge.
pub struct DepKindInfo {
    pub kind: DepKind,
    /// The platform predicate's text, when the pair is conditional.
    pub target: Option<String>,
}

/// One outgoing dependency edge of a node.
pub struct NodeDep {
    /// The name the dependency goes by in the consumer's source.
    pub name: String,
    /// The identifier of the package depended on.
    pub pkg: String,
    pub dep_kinds: Vec<DepKindInfo>,
}

/// A package's node in the resolved graph.
pub struct Node {
    pub id: String,
    pub deps: Vec<NodeDep>,
    /// The feature names active for this package.
    pub features: Vec<String>,
}

/// Per-repository settings.
pub struct RepoConfig {
    pub ignore_tests: bool,
    pub inherit_workspace_deps: bool,
    pub align_cells: bool,
    /// The rule fields that merging keeps from an existing rule file.
    pub patch_fields: Vec<String>,
}

/// Everything one translation run reads: the resolved graph, the checksum
/// table, the probed environment, and the run's flags.
pub struct BuckalContext {
    pub packages_map: Assoc<Package>,
    pub nodes_map: Assoc<Node>,
    /// `name-version` to hex digest, for vendor-fetch rules.
    pub checksums_map: StrMap,
    /// Package name to the platform-compatibility labels of its rules.
    pub platforms_map: Assoc<Vec<String>>,
    /// Identifier of the workspace-root package.
    pub root_id: String,
    pub workspace_root: String,
    /// Skip first-party packages when applying changes.
    pub separate: bool,
    /// Never merge with an existing rule file.
    pub no_merge: bool,
    pub repo_config: RepoConfig,
    /// The build tool's project root.
    pub buck2_root: String,
    /// The parsed cell configuration, when the file exists.
    pub buckconfig: Option<BuckConfig>,
    /// The active target triple.
    pub target_triple: String,
    /// The active configuration flags, one per line as the compiler prints
    /// them.
    pub cfgs: Vec<String>,
}

impl BuckalContext {
    pub open spec fn wf(&self) -> bool {
        &&& self.packages_map.wf()
        &&& self.nodes_map.wf()
        &&& self.checksums_map.wf()
        &&& self.platforms_map.wf()
        &&& match self.buckconfig {
            Some(c) => c.wf(),
            None => true,
        }
    }
}

/// Why a translation run must abort, with the offending identifier.
#[derive(Debug)]
pub enum BuckalError {
    /// A package referenced by the graph is missing from the package map.
    MissingPackage { id: String },
    /// A package needed as a library dependency does not expose exactly one
    /// library-family unit; `found` says how many it has.
    MissingLibraryTarget { package: String, found: usize },
    /// No checksum is on record for `name-version`.
    MissingChecksum { package: String },
    /// A first-party package's manifest directory is not under the project
    /// root.
    OutsideProjectRoot { package: String },
    /// A unit's source root is not under its package's manifest directory.
    SourceRootOutsideManifest { package: String },
    /// A `links`-marked dependency has no build-script unit.
    LinksWithoutBuildScript { package: String },
    /// A package identifier string does not follow the identifier format.
    BadPackageId { id: String },
}

impl BuckalError {
    /// A short description naming the offending identifier.
    pub fn message(&self) -> (r: String)
        ensures
            r@ == match self {
                BuckalError::MissingPackage { id } => "package not found in graph: "@ + id@,
                BuckalError::MissingLibraryTarget { package, found } => (
                "expected exactly one library target for dependency "@ + package@
                    + ", but found "@ + spec_u64_dec(*found as nat)),
                BuckalError::MissingChecksum { package } => "missing checksum for "@ + package@,
                BuckalError::OutsideProjectRoot { package } => (
                "manifest directory is not inside the project root: "@ + package@),
                BuckalError::SourceRootOutsideManifest { package } => (
                "source root is not under the manifest directory: "@ + package@),
                BuckalError::LinksWithoutBuildScript { package } => (
                "dependency has links key but no build script target: "@ + package@),
                BuckalError::BadPackageId { id } => "failed to parse package id: "@ + id@,
            },
    {
        match self {
            BuckalError::MissingPackage { id } => {
                let mut m = String::from_str("package not found in graph: ");
                m.append(id.as_str());
                m
            },
            BuckalError::MissingLibraryTarget { package, found } => {
                let mut m = String::from_str(
                    "expected exactly one library target for dependency ",
                );
                m.append(package.as_str());
                m.append(", but found ");
                let count = u64_to_dec(*found as u64);
                m.append(count.as_str());
                m
            },
            BuckalError::MissingChecksum { package } => {
                let mut m = String::from_str("missing checksum for ");
                m.append(package.as_str());
                m
            },
            BuckalError::OutsideProjectRoot { package } => {
                let mut m = String::from_str(
                    "manifest directory is not inside the project root: ",
                );
                m.append(package.as_str());
                m
            },
            BuckalError::SourceRootOutsideManifest { package } => {
                let mut m = String::from_str(
                    "source root is not under the manifest directory: ",
                );
                m.append(package.as_str());
                m
            },
            BuckalError::LinksWithoutBuildScript { package } => {
                let mut m = String::from_str(
                    "dependency has links key but no build script target: ",
                );
                m.append(package.as_str());
                m
            },
            BuckalError::BadPackageId { id } => {
                let mut m = String::from_str("failed to parse package id: ");
                m.append(id.as_str());
                m
            },
        }
    }
}

} // verus!

verus! {

/// The abort causes at the specification level, with string payloads as
/// character sequences.
pub enum SpecErr {
    MissingPackage { id: Seq<char> },
    MissingLibraryTarget { package: Seq<char>, found: int },
    MissingChecksum { package: Seq<char> },
    OutsideProjectRoot { package: Seq<char> },
    SourceRootOutsideManifest { package: Seq<char> },
    LinksWithoutBuildScript { package: Seq<char> },
    BadPackageId { id: Seq<char> },
}

/// The returned error carries the payloads the specification names.
pub open spec fn err_matches(e: BuckalError, se: SpecErr) -> bool {
    match (e, se) {
        (BuckalError::MissingPackage { id: a }, SpecErr::MissingPackage { id: b }) => a@ == b,
        (
            BuckalError::MissingLibraryTarget { package: a, found: fa },
            SpecErr::MissingLibraryTarget { package: b, found: fb },
        ) => a@ == b && fa as int == fb,
        (
            BuckalError::MissingChecksum { package: a },
            SpecErr::MissingChecksum { package: b },
        ) => a@ == b,
        (
            BuckalError::OutsideProjectRoot { package: a },
            SpecErr::OutsideProjectRoot { package: b },
        ) => a@ == b,
        (
            BuckalError::SourceRootOutsideManifest { package: a },
            SpecErr::SourceRootOutsideManifest { package: b },
        ) => a@ == b,
        (
            BuckalError::LinksWithoutBuildScript { package: a },
            SpecErr::LinksWithoutBuildScript { package: b },
        ) => a@ == b,
        (BuckalError::BadPackageId { id: a }, SpecErr::BadPackageId { id: b }) => a@ == b,
        _ => false,
    }
}

} // verus!
