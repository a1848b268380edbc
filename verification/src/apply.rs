//! The incremental change applier: turning a diff of two graph snapshots
//! into vendor, regenerate and delete actions.

use vstd::prelude::*;

use crate::buckify::{
    buckify_dep_node, buckify_root_node, spec_buckify_dep_err, spec_buckify_dep_ok,
    spec_buckify_root_err, spec_buckify_root_ok,
};
use crate::model::{err_matches, BuckalContext, BuckalError, SpecErr};
use crate::rules::Rule;
use crate::strutil::{
    find_char_from, lemma_find_char_from_props, spec_find_char_from, str_prefix_of,
    str_starts_with,
};
use crate::version::spec_version_chars;

verus! {

/// How one package identifier appears in a change set.
#[derive(Clone, Copy, Debug, PartialEq, Eq, Structural)]
pub enum ChangeType {
    Added,
    Changed,
    Removed,
}

/// A change set: package identifiers with their change, in processing
/// order.
pub struct BuckalChange {
    pub changes: Vec<(String, ChangeType)>,
}

/// One action the applier asks of its surroundings.
pub enum BuckalAction {
    /// Vendor the package's sources into `vendor_dir` and write the rules to
    /// the rule file there. When `merge` is set and a rule file already
    /// stands there, the configured field subset of its parsed rules is to
    /// be merged into `rules` through the structural patcher before the
    /// whole-file write.
    EmitPackage {
        id: String,
        first_party: bool,
        vendor_dir: String,
        merge: bool,
        rules: Vec<Rule>,
    },
    /// Delete the versioned vendor directory `dir`, and its parent when that
    /// becomes empty.
    RemoveDir { name: String, version: String, dir: String },
}

/// The locator prefix that marks the workspace root's own identifier.
pub open spec fn spec_skip_prefix(ctx: BuckalContext) -> Seq<char> {
    "path+file://"@ + ctx.workspace_root@
}

/// The versioned vendor directory of a third-party package.
pub open spec fn spec_vendor_dir(
    root: Seq<char>,
    name: Seq<char>,
    version: Seq<char>,
) -> Seq<char> {
    root + "/third-party/rust/crates/"@ + name + "/"@ + version
}

/// The name and version recovered from a package identifier of the form
/// `<source>+<locator>#<name>@<version>[+<metadata>]`: the source runs to
/// the first `+`, the locator to the first `#`, the name to the first `@`
/// after it, and the version to the next `+` or the end; every part is
/// nonempty, the version holds no `#`, and a trailing `+` must be followed
/// by metadata.
pub open spec fn spec_parse_package_id(s: Seq<char>) -> Option<(Seq<char>, Seq<char>)> {
    match (spec_find_char_from(s, '#', 0), spec_find_char_from(s, '+', 0)) {
        (Some(h), Some(pl)) => {
            if 1 <= pl && pl + 1 < h {
                match spec_find_char_from(s, '@', h + 1) {
                    Some(a) => {
                        if a > h + 1 {
                            let vstart = a + 1;
                            let vend = match spec_find_char_from(s, '+', vstart) {
                                Some(q) => q,
                                None => s.len() as int,
                            };
                            let hash_ok = match spec_find_char_from(s, '#', vstart) {
                                Some(hh) => hh >= vend,
                                None => true,
                            };
                            if vend > vstart && hash_ok && (vend == s.len() || vend + 1
                                < s.len()) {
                                Some((s.subrange(h + 1, a), s.subrange(vstart, vend)))
                            } else {
                                None
                            }
                        } else {
                            None
                        }
                    },
                    None => None,
                }
            } else {
                None
            }
        },
        _ => None,
    }
}

/// Recover a package's name and version from its identifier string.
pub fn parse_package_id(id: &str) -> (r: Option<(String, String)>)
    ensures
        match r {
            Some(nv) => spec_parse_package_id(id@) == Some((nv.0@, nv.1@)),
            None => spec_parse_package_id(id@) is None,
        },
{
    let len = id.unicode_len();
    let h = match crate::strutil::find_char(id, '#') {
        Some(h) => h,
        None => {
            return None;
        },
    };
    let pl = match crate::strutil::find_char(id, '+') {
        Some(p) => p,
        None => {
            return None;
        },
    };
    proof {
        lemma_find_char_from_props(id@, '#', 0);
        lemma_find_char_from_props(id@, '+', 0);
    }
    if !(1 <= pl && pl + 1 < h) {
        return None;
    }
    let a = match find_char_from(id, '@', h + 1) {
        Some(a) => a,
        None => {
            return None;
        },
    };
    proof {
        lemma_find_char_from_props(id@, '@', h + 1);
    }
    if !(a > h + 1) {
        return None;
    }
    let vstart = a + 1;
    let vend = match find_char_from(id, '+', vstart) {
        Some(q) => q,
        None => len,
    };
    proof {
        lemma_find_char_from_props(id@, '+', vstart as int);
    }
    let hash_ok = match find_char_from(id, '#', vstart) {
        Some(hh) => hh >= vend,
        None => true,
    };
    proof {
        lemma_find_char_from_props(id@, '#', vstart as int);
    }
    if vend > vstart && hash_ok && (vend == len || vend + 1 < len) {
        let name = id.substring_char(h + 1, a).to_owned();
        let version = id.substring_char(vstart, vend).to_owned();
        Some((name, version))
    } else {
        None
    }
}

/// Compute the versioned vendor directory under the project root.
pub fn get_vendor_dir(buck2_root: &str, name: &str, version: &str) -> (r: String)
    ensures
        r@ == spec_vendor_dir(buck2_root@, name@, version@),
{
    let mut r = buck2_root.to_owned();
    r.append("/third-party/rust/crates/");
    r.append(name);
    r.append("/");
    r.append(version);
    r
}

/// One planned action, justified against the single change entry it came
/// from: an emission comes from an added or changed entry that the applier
/// does not skip and carries that package's translated rules; a removal
/// comes from a removed entry whose identifier does not match the workspace
/// root's locator pattern — the root's own files are never deleted.
#[verifier::opaque]
pub open spec fn spec_action_for(
    a: BuckalAction,
    id: Seq<char>,
    t: ChangeType,
    ctx: BuckalContext,
) -> bool {
    match a {
        BuckalAction::EmitPackage { id: aid, first_party, vendor_dir, merge, rules } => {
            &&& aid@ == id
            &&& merge == (!ctx.no_merge && ctx.repo_config.patch_fields@.len() > 0)
            &&& (t == ChangeType::Added || t == ChangeType::Changed)
            &&& id != ctx.root_id@
            &&& ctx.nodes_map@.contains_key(id)
            &&& ctx.packages_map@.contains_key(id)
            &&& {
                let p = ctx.packages_map@[id];
                let node = ctx.nodes_map@[id];
                &&& !(ctx.separate && p.source is None)
                &&& first_party == (p.source is None)
                &&& vendor_dir@ == if p.source is None {
                    p.manifest_dir@
                } else {
                    spec_vendor_dir(
                        ctx.buck2_root@,
                        p.name@,
                        spec_version_chars(p.version),
                    )
                }
                &&& if p.source is None {
                    spec_buckify_root_ok(rules@, node, ctx, vendor_dir@ + "/BUCK"@)
                } else {
                    spec_buckify_dep_ok(rules@, node, ctx, vendor_dir@ + "/BUCK"@)
                }
            }
        },
        BuckalAction::RemoveDir { name, version, dir } => {
            &&& t == ChangeType::Removed
            &&& !str_prefix_of(spec_skip_prefix(ctx), id)
            &&& spec_parse_package_id(id) == Some((name@, version@))
            &&& dir@ == spec_vendor_dir(ctx.buck2_root@, name@, version@)
        },
    }
}

/// One planned action is justified by some entry of the change set.
pub open spec fn spec_action_ok(
    a: BuckalAction,
    changes: Seq<(String, ChangeType)>,
    ctx: BuckalContext,
) -> bool {
    exists|ei: int|
        0 <= ei < changes.len() && spec_action_for(
            a,
            (#[trigger] changes[ei]).0@,
            changes[ei].1,
            ctx,
        )
}

/// What one change entry can contribute to the plan's failure.
#[verifier::opaque]
pub open spec fn spec_entry_err(
    id: Seq<char>,
    t: ChangeType,
    ctx: BuckalContext,
) -> Option<SpecErr> {
    match t {
        ChangeType::Removed => {
            if str_prefix_of(spec_skip_prefix(ctx), id) {
                None
            } else if spec_parse_package_id(id) is None {
                Some(SpecErr::BadPackageId { id: id })
            } else {
                None
            }
        },
        _ => {
            if id == ctx.root_id@ {
                None
            } else if !ctx.nodes_map@.contains_key(id) {
                None
            } else if !ctx.packages_map@.contains_key(id) {
                Some(SpecErr::MissingPackage { id: id })
            } else {
                let p = ctx.packages_map@[id];
                let node = ctx.nodes_map@[id];
                if ctx.separate && p.source is None {
                    None
                } else {
                    let vendor_dir = if p.source is None {
                        p.manifest_dir@
                    } else {
                        spec_vendor_dir(
                            ctx.buck2_root@,
                            p.name@,
                            spec_version_chars(p.version),
                        )
                    };
                    if p.source is None {
                        spec_buckify_root_err(node, ctx, vendor_dir + "/BUCK"@)
                    } else {
                        spec_buckify_dep_err(node, ctx, vendor_dir + "/BUCK"@)
                    }
                }
            }
        },
    }
}

/// The first failure over a prefix of the change entries.
pub open spec fn spec_plan_err(
    changes: Seq<(String, ChangeType)>,
    ctx: BuckalContext,
) -> Option<SpecErr>
    decreases changes.len(),
{
    if changes.len() == 0 {
        None
    } else {
        match spec_plan_err(changes.drop_last(), ctx) {
            Some(e) => Some(e),
            None => spec_entry_err(changes.last().0@, changes.last().1, ctx),
        }
    }
}

proof fn lemma_plan_err_none(changes: Seq<(String, ChangeType)>, ctx: BuckalContext)
    requires
        forall|j: int| 0 <= j < changes.len() ==> spec_entry_err(
            (#[trigger] changes[j]).0@,
            changes[j].1,
            ctx,
        ) is None,
    ensures
        spec_plan_err(changes, ctx) is None,
    decreases changes.len(),
{
    if changes.len() > 0 {
        assert(forall|j: int|
            0 <= j < changes.drop_last().len() ==> changes.drop_last()[j] == changes[j]);
        lemma_plan_err_none(changes.drop_last(), ctx);
    }
}

proof fn lemma_plan_err_at(
    changes: Seq<(String, ChangeType)>,
    ctx: BuckalContext,
    k: int,
)
    requires
        0 <= k < changes.len(),
        spec_entry_err(changes[k].0@, changes[k].1, ctx) is Some,
        forall|j: int| 0 <= j < k ==> spec_entry_err(
            (#[trigger] changes[j]).0@,
            changes[j].1,
            ctx,
        ) is None,
    ensures
        spec_plan_err(changes, ctx) == spec_entry_err(changes[k].0@, changes[k].1, ctx),
    decreases changes.len(),
{
    assert(forall|j: int|
        0 <= j < changes.drop_last().len() ==> changes.drop_last()[j] == changes[j]);
    if k == changes.len() - 1 {
        lemma_plan_err_none(changes.drop_last(), ctx);
    } else {
        lemma_plan_err_at(changes.drop_last(), ctx, k);
    }
}

proof fn lemma_keep_action(
    acts_old: Seq<BuckalAction>,
    acts_new: Seq<BuckalAction>,
    changes: Seq<(String, ChangeType)>,
    ctx: BuckalContext,
    id: Seq<char>,
)
    requires
        acts_new.len() >= acts_old.len(),
        forall|ai: int| 0 <= ai < acts_old.len() ==> acts_new[ai] == acts_old[ai],
        exists|ai: int|
            0 <= ai < acts_old.len() && ((#[trigger] acts_old[ai])
                matches BuckalAction::EmitPackage { id: aid, .. } && aid@ == id),
    ensures
        exists|ai: int|
            0 <= ai < acts_new.len() && ((#[trigger] acts_new[ai])
                matches BuckalAction::EmitPackage { id: aid, .. } && aid@ == id),
{
    let ai = choose|ai: int|
        0 <= ai < acts_old.len() && ((#[trigger] acts_old[ai])
            matches BuckalAction::EmitPackage { id: aid, .. } && aid@ == id);
    assert(acts_new[ai] matches BuckalAction::EmitPackage { id: aid, .. } && aid@ == id);
}

proof fn lemma_keep_removal(
    acts_old: Seq<BuckalAction>,
    acts_new: Seq<BuckalAction>,
    nv: (Seq<char>, Seq<char>),
)
    requires
        acts_new.len() >= acts_old.len(),
        forall|ai: int| 0 <= ai < acts_old.len() ==> acts_new[ai] == acts_old[ai],
        exists|ai: int|
            0 <= ai < acts_old.len() && ((#[trigger] acts_old[ai])
                matches BuckalAction::RemoveDir { name, version, .. } && name@ == nv.0
                && version@ == nv.1),
    ensures
        exists|ai: int|
            0 <= ai < acts_new.len() && ((#[trigger] acts_new[ai])
                matches BuckalAction::RemoveDir { name, version, .. } && name@ == nv.0
                && version@ == nv.1),
{
    let ai = choose|ai: int|
        0 <= ai < acts_old.len() && ((#[trigger] acts_old[ai])
            matches BuckalAction::RemoveDir { name, version, .. } && name@ == nv.0
            && version@ == nv.1);
    assert(acts_new[ai] matches BuckalAction::RemoveDir { name, version, .. } && name@ == nv.0
        && version@ == nv.1);
}

/// One change entry deserves an emission action.
#[verifier::opaque]
pub open spec fn spec_entry_emits(id: Seq<char>, t: ChangeType, ctx: BuckalContext) -> bool {
    &&& (t == ChangeType::Added || t == ChangeType::Changed)
    &&& id != ctx.root_id@
    &&& ctx.nodes_map@.contains_key(id)
    &&& ctx.packages_map@.contains_key(id)
    &&& !(ctx.separate && ctx.packages_map@[id].source is None)
}

/// One change entry deserves a removal action.
#[verifier::opaque]
pub open spec fn spec_entry_removes(id: Seq<char>, t: ChangeType, ctx: BuckalContext) -> bool {
    &&& t == ChangeType::Removed
    &&& !str_prefix_of(spec_skip_prefix(ctx), id)
    &&& spec_parse_package_id(id) is Some
}

/// A finished plan is sound and complete for its change set: every action
/// is justified by some entry, every entry that deserves an emission has
/// one, and every entry that deserves a removal has one.
pub open spec fn spec_plan_ok(
    actions: Seq<BuckalAction>,
    changes: Seq<(String, ChangeType)>,
    ctx: BuckalContext,
) -> bool {
    &&& forall|ai: int| 0 <= ai < actions.len() ==> spec_action_ok(
        #[trigger] actions[ai],
        changes,
        ctx,
    )
    &&& forall|ei: int|
        0 <= ei < changes.len() && spec_entry_emits(
            (#[trigger] changes[ei]).0@,
            changes[ei].1,
            ctx,
        ) ==> exists|ai: int|
            0 <= ai < actions.len() && ((#[trigger] actions[ai])
                matches BuckalAction::EmitPackage { id: aid, .. } && aid@ == changes[ei].0@)
    &&& forall|ei: int|
        0 <= ei < changes.len() && spec_entry_removes(
            (#[trigger] changes[ei]).0@,
            changes[ei].1,
            ctx,
        ) ==> exists|ai: int|
            0 <= ai < actions.len() && ((#[trigger] actions[ai])
                matches BuckalAction::RemoveDir { name, version, .. } && Some(
                (name@, version@),
            ) == spec_parse_package_id(changes[ei].0@))
}

/// Extending the plan by one entry's action keeps every planned action
/// justified and every earlier entitlement satisfied, and satisfies the
/// current entry's.
proof fn lemma_plan_extend(
    old_actions: Seq<BuckalAction>,
    actions: Seq<BuckalAction>,
    changes: Seq<(String, ChangeType)>,
    ctx: BuckalContext,
    i: int,
)
    requires
        0 <= i < changes.len(),
        old_actions.len() <= actions.len() <= old_actions.len() + 1,
        forall|ai: int| 0 <= ai < old_actions.len() ==> actions[ai] == old_actions[ai],
        forall|ai: int| 0 <= ai < old_actions.len() ==> spec_action_ok(
            #[trigger] old_actions[ai],
            changes,
            ctx,
        ),
        actions.len() > old_actions.len() ==> spec_action_for(
            actions[actions.len() - 1],
            changes[i].0@,
            changes[i].1,
            ctx,
        ),
        spec_entry_emits(changes[i].0@, changes[i].1, ctx) ==> actions.len()
            > old_actions.len(),
        spec_entry_removes(changes[i].0@, changes[i].1, ctx) ==> actions.len()
            > old_actions.len(),
        forall|ei: int|
            0 <= ei < i && spec_entry_emits(
                (#[trigger] changes[ei]).0@,
                changes[ei].1,
                ctx,
            ) ==> exists|ai: int|
                0 <= ai < old_actions.len() && ((#[trigger] old_actions[ai])
                    matches BuckalAction::EmitPackage { id: aid, .. } && aid@
                    == changes[ei].0@),
        forall|ei: int|
            0 <= ei < i && spec_entry_removes(
                (#[trigger] changes[ei]).0@,
                changes[ei].1,
                ctx,
            ) ==> exists|ai: int|
                0 <= ai < old_actions.len() && ((#[trigger] old_actions[ai])
                    matches BuckalAction::RemoveDir { name, version, .. } && Some(
                    (name@, version@),
                ) == spec_parse_package_id(changes[ei].0@)),
    ensures
        forall|ai: int| 0 <= ai < actions.len() ==> spec_action_ok(
            #[trigger] actions[ai],
            changes,
            ctx,
        ),
        forall|ei: int|
            0 <= ei < i + 1 && spec_entry_emits(
                (#[trigger] changes[ei]).0@,
                changes[ei].1,
                ctx,
            ) ==> exists|ai: int|
                0 <= ai < actions.len() && ((#[trigger] actions[ai])
                    matches BuckalAction::EmitPackage { id: aid, .. } && aid@
                    == changes[ei].0@),
        forall|ei: int|
            0 <= ei < i + 1 && spec_entry_removes(
                (#[trigger] changes[ei]).0@,
                changes[ei].1,
                ctx,
            ) ==> exists|ai: int|
                0 <= ai < actions.len() && ((#[trigger] actions[ai])
                    matches BuckalAction::RemoveDir { name, version, .. } && Some(
                    (name@, version@),
                ) == spec_parse_package_id(changes[ei].0@)),
{
    reveal(spec_action_for);
    reveal(spec_entry_emits);
    reveal(spec_entry_removes);
    assert forall|ai: int| 0 <= ai < actions.len() implies spec_action_ok(
        #[trigger] actions[ai],
        changes,
        ctx,
    ) by {
        if ai < old_actions.len() {
            assert(actions[ai] == old_actions[ai]);
        } else {
            assert(spec_action_for(actions[ai], changes[i].0@, changes[i].1, ctx));
        }
    }
    assert forall|ei: int|
        0 <= ei < i + 1 && spec_entry_emits(
            (#[trigger] changes[ei]).0@,
            changes[ei].1,
            ctx,
        ) implies exists|ai: int|
            0 <= ai < actions.len() && ((#[trigger] actions[ai])
                matches BuckalAction::EmitPackage { id: aid, .. } && aid@
                == changes[ei].0@) by {
        if ei < i {
            lemma_keep_action(old_actions, actions, changes, ctx, changes[ei].0@);
        } else {
            assert(actions.len() > old_actions.len());
            assert(actions[actions.len() - 1]
                matches BuckalAction::EmitPackage { id: aid, .. } && aid@ == changes[ei].0@);
        }
    }
    assert forall|ei: int|
        0 <= ei < i + 1 && spec_entry_removes(
            (#[trigger] changes[ei]).0@,
            changes[ei].1,
            ctx,
        ) implies exists|ai: int|
            0 <= ai < actions.len() && ((#[trigger] actions[ai])
                matches BuckalAction::RemoveDir { name, version, .. } && Some(
                (name@, version@),
            ) == spec_parse_package_id(changes[ei].0@)) by {
        if ei < i {
            let nv = spec_parse_package_id(changes[ei].0@)->Some_0;
            lemma_keep_removal(old_actions, actions, nv);
        } else {
            assert(actions.len() > old_actions.len());
            assert(actions[actions.len() - 1]
                matches BuckalAction::RemoveDir { name, version, .. } && Some(
                (name@, version@),
            ) == spec_parse_package_id(changes[ei].0@));
        }
    }
}

/// Plan one change entry: the action it deserves, nothing for a skipped
/// entry, or the entry's failure.
fn plan_entry(
    entry_id: &String,
    entry_type: ChangeType,
    ctx: &BuckalContext,
    skip_pattern: &String,
) -> (r: Result<Option<BuckalAction>, BuckalError>)
    requires
        ctx.wf(),
        skip_pattern@ == spec_skip_prefix(*ctx),
    ensures
        match r {
            Ok(opt) => spec_entry_err(entry_id@, entry_type, *ctx) is None && match opt {
                Some(a) => spec_action_for(a, entry_id@, entry_type, *ctx),
                None => !spec_entry_emits(entry_id@, entry_type, *ctx)
                    && !spec_entry_removes(entry_id@, entry_type, *ctx),
            },
            Err(e) => match spec_entry_err(entry_id@, entry_type, *ctx) {
                Some(se) => err_matches(e, se),
                None => false,
            },
        },
{
    proof {
        reveal(spec_action_for);
        reveal(spec_entry_err);
        reveal(spec_entry_emits);
        reveal(spec_entry_removes);
    }
    match entry_type {
        ChangeType::Removed => {
            if !str_starts_with(entry_id.as_str(), skip_pattern.as_str()) {
                match parse_package_id(entry_id.as_str()) {
                    Some(nv) => {
                        let dir = get_vendor_dir(
                            ctx.buck2_root.as_str(),
                            nv.0.as_str(),
                            nv.1.as_str(),
                        );
                        Ok(Some(BuckalAction::RemoveDir { name: nv.0, version: nv.1, dir }))
                    },
                    None => Err(BuckalError::BadPackageId { id: entry_id.clone() }),
                }
            } else {
                Ok(None)
            }
        },
        _ => {
            if crate::strutil::str_eq(entry_id.as_str(), ctx.root_id.as_str()) {
                return Ok(None);
            }
            let node = match ctx.nodes_map.get(entry_id.as_str()) {
                Some(nd) => nd,
                None => {
                    return Ok(None);
                },
            };
            let package = match ctx.packages_map.get(entry_id.as_str()) {
                None => {
                    return Err(BuckalError::MissingPackage { id: entry_id.clone() });
                },
                Some(p) => p,
            };
            let first_party = package.source.is_none();
            if ctx.separate && first_party {
                return Ok(None);
            }
            let vendor_dir = if first_party {
                package.manifest_dir.clone()
            } else {
                let ver = package.version.render();
                get_vendor_dir(ctx.buck2_root.as_str(), package.name.as_str(), ver.as_str())
            };
            let mut buck_file = vendor_dir.clone();
            buck_file.append("/BUCK");
            let rules = if first_party {
                match buckify_root_node(node, ctx, buck_file.as_str()) {
                    Ok(rules) => rules,
                    Err(e) => {
                        return Err(e);
                    },
                }
            } else {
                match buckify_dep_node(node, ctx, buck_file.as_str()) {
                    Ok(rules) => rules,
                    Err(e) => {
                        return Err(e);
                    },
                }
            };
            let merge = !ctx.no_merge && ctx.repo_config.patch_fields.len() > 0;
            Ok(
                Some(
                    BuckalAction::EmitPackage {
                        id: entry_id.clone(),
                        first_party,
                        vendor_dir,
                        merge,
                        rules,
                    },
                ),
            )
        },
    }
}

impl BuckalChange {
    /// Turn the change set into the actions the run must perform, in entry
    /// order. Every action is justified by an entry ([`spec_action_ok`]); in
    /// particular a removed entry matching the workspace root's own locator
    /// pattern is skipped, so the root's files are never deleted. Every
    /// entry that deserves an action gets one, and the first failing entry
    /// aborts the plan.
    #[verifier::rlimit(100)]
    pub fn apply(&self, ctx: &BuckalContext) -> (r: Result<Vec<BuckalAction>, BuckalError>)
        requires
            ctx.wf(),
        ensures
            match r {
                Ok(actions) => {
                    &&& spec_plan_err(self.changes@, *ctx) is None
                    &&& spec_plan_ok(actions@, self.changes@, *ctx)
                },
                Err(e) => match spec_plan_err(self.changes@, *ctx) {
                    Some(se) => err_matches(e, se),
                    None => false,
                },
            },
    {
        let mut actions: Vec<BuckalAction> = Vec::new();
        let n = self.changes.len();
        let mut skip_pattern = String::from_str("path+file://");
        skip_pattern.append(ctx.workspace_root.as_str());
        let mut i: usize = 0;
        while i < n
            invariant
                ctx.wf(),
                n == self.changes@.len(),
                skip_pattern@ == spec_skip_prefix(*ctx),
                0 <= i <= n,
                forall|j: int| 0 <= j < i ==> spec_entry_err(
                    (#[trigger] self.changes@[j]).0@,
                    self.changes@[j].1,
                    *ctx,
                ) is None,
                forall|ai: int| 0 <= ai < actions@.len() ==> spec_action_ok(
                    #[trigger] actions@[ai],
                    self.changes@,
                    *ctx,
                ),
                forall|ei: int|
                    0 <= ei < i && spec_entry_emits(
                        (#[trigger] self.changes@[ei]).0@,
                        self.changes@[ei].1,
                        *ctx,
                    ) ==> exists|ai: int|
                        0 <= ai < actions@.len() && ((#[trigger] actions@[ai])
                            matches BuckalAction::EmitPackage { id: aid, .. } && aid@
                            == self.changes@[ei].0@),
                forall|ei: int|
                    0 <= ei < i && spec_entry_removes(
                        (#[trigger] self.changes@[ei]).0@,
                        self.changes@[ei].1,
                        *ctx,
                    ) ==> exists|ai: int|
                        0 <= ai < actions@.len() && ((#[trigger] actions@[ai])
                            matches BuckalAction::RemoveDir { name, version, .. } && Some(
                            (name@, version@),
                        ) == spec_parse_package_id(self.changes@[ei].0@)),
            decreases n - i,
        {
            let ghost old_actions = actions@;
            let entry_id = &self.changes[i].0;
            let entry_type = self.changes[i].1;
            match plan_entry(entry_id, entry_type, ctx, &skip_pattern) {
                Err(e) => {
                    proof {
                        lemma_plan_err_at(self.changes@, *ctx, i as int);
                    }
                    return Err(e);
                },
                Ok(None) => {
                    proof {
                        lemma_plan_extend(actions@, actions@, self.changes@, *ctx, i as int);
                    }
                },
                Ok(Some(a)) => {
                    actions.push(a);
                    proof {
                        assert(spec_action_for(
                            actions@[actions@.len() - 1],
                            self.changes@[i as int].0@,
                            self.changes@[i as int].1,
                            *ctx,
                        ));
                        lemma_plan_extend(old_actions, actions@, self.changes@, *ctx, i as int);
                    }
                },
            }
            i += 1;
        }
        proof {
            lemma_plan_err_none(self.changes@, *ctx);
            assert(spec_plan_ok(actions@, self.changes@, *ctx));
        }
        Ok(actions)
    }
}

} // verus!
