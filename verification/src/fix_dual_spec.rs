//! Add version specs to path-only internal dependencies.
//!
//! Path-only dependencies between publishable crates get the current version beside their path,
//! which makes them dual-specified and ready for publish. For a dependency that is inherited from
//! the workspace, the entry of `[workspace.dependencies]` gets it.

use toml_edit::DocumentMut;
use vstd::prelude::*;
use vstd::string::*;

use crate::ci;
use crate::ci::Edited;
use crate::discover;
use crate::discover::{DepModel, DepSection, Ecosystem, InternalDep};
use crate::glob;
use crate::manifest;
use crate::manifest::Node;
use crate::path;
use crate::publish;
use crate::text;
use crate::value;

verus! {

broadcast use text::lemma_texts_push;

/// Whether the dependency at place `i` is to be fixed.
pub open spec fn is_to_fix(
    eco: Ecosystem,
    i: int,
    filter: Option<&str>,
    target_crate: Option<&str>,
) -> bool {
    publish::is_blocker(eco, i) && (filter is Some ==> glob::matches_star(
        filter.unwrap()@,
        eco.deps@[i].from_crate@,
    )) && (target_crate is Some ==> eco.deps@[i].to_crate@ == target_crate.unwrap()@)
}

/// The dependencies to fix among the first `n`.
pub open spec fn to_fix(
    eco: Ecosystem,
    filter: Option<&str>,
    target_crate: Option<&str>,
    n: nat,
) -> Seq<DepModel>
    decreases n,
{
    if n == 0 {
        Seq::empty()
    } else {
        let before = to_fix(eco, filter, target_crate, (n - 1) as nat);
        if is_to_fix(eco, n - 1, filter, target_crate) {
            before.push(eco.deps@[n - 1]@)
        } else {
            before
        }
    }
}

/// Collect path-only deps between publishable crates.
pub fn deps_to_fix(eco: &Ecosystem, filter: Option<&str>, target_crate: Option<&str>) -> (r: Vec<
    InternalDep,
>)
    ensures
        discover::dep_models(r@) == to_fix(*eco, filter, target_crate, eco.deps@.len()),
        forall|i: int|
            0 <= i < r.len() ==> eco.crates.has((#[trigger] r@[i]).from_crate@) && eco.crates.has(
                r@[i].to_crate@,
            ),
{
    let mut out: Vec<InternalDep> = Vec::new();
    let mut i: usize = 0;
    assert(discover::dep_models(out@) =~= Seq::<DepModel>::empty());
    while i < eco.deps.len()
        invariant
            i <= eco.deps.len(),
            discover::dep_models(out@) == to_fix(*eco, filter, target_crate, i as nat),
            forall|k: int|
                0 <= k < out.len() ==> eco.crates.has((#[trigger] out@[k]).from_crate@)
                    && eco.crates.has(out@[k].to_crate@),
        decreases eco.deps.len() - i,
    {
        let dep = &eco.deps[i];
        let blocks = dep.has_path && !dep.has_version && publish::publishable(
            eco,
            dep.from_crate.as_str(),
        ) && publish::publishable(eco, dep.to_crate.as_str());
        let wanted = match filter {
            Some(f) => glob::glob_match(f, dep.from_crate.as_str()),
            None => true,
        };
        let aimed = match target_crate {
            Some(t) => text::same(dep.to_crate.as_str(), t),
            None => true,
        };
        if blocks && wanted && aimed {
            let ghost sofar = discover::dep_models(out@);
            let copy = discover::copy_dep(dep);
            let ghost m = copy@;
            out.push(copy);
            assert(discover::dep_models(out@) =~= sofar.push(m));
        }
        i += 1;
    }
    out
}

/// The section of a member's manifest in which a dependency stands.
pub open spec fn member_label(section: DepSection) -> Seq<char> {
    match section {
        DepSection::WorkspaceDependencies => "dependencies"@,
        s => s.label(),
    }
}

/// The section of a member's manifest in which a dependency stands.
pub fn member_section(section: DepSection) -> (r: &'static str)
    ensures
        r@ == member_label(section),
{
    match section {
        DepSection::WorkspaceDependencies => "dependencies",
        DepSection::Dependencies => "dependencies",
        DepSection::DevDependencies => "dev-dependencies",
        DepSection::BuildDependencies => "build-dependencies",
    }
}

/// Check if a dependency entry in a manifest uses `workspace = true`
pub fn is_dep_workspace_inherited(
    manifest_path: &str,
    content: &str,
    section: &str,
    dep_name: &str,
) -> (r: Result<bool, String>)
    ensures
        match value::parsed_toml(content@) {
            Ok(doc) => r == Ok::<bool, String>(
                value::flag_of(
                    value::step(value::step(doc.at(section@), dep_name@), "workspace"@),
                ) == Some(true),
            ),
            Err(e) => r is Err && r->Err_0@ == value::parsing_message(manifest_path@, e),
        },
{
    let doc = discover::parse_manifest(manifest_path, content)?;
    let dep = value::step_in(doc.get(section), dep_name);
    match value::as_bool(value::step_in(dep, "workspace")) {
        Some(b) => Ok(b),
        None => Ok(false),
    }
}

/// A version to add to a manifest.
pub struct VersionEdit {
    /// The manifest to edit
    pub manifest_path: String,
    /// Whether the entry of `[workspace.dependencies]` is meant, not that of the section.
    pub workspace_dep: bool,
    pub section: DepSection,
    pub dep_name: String,
    pub version: String,
}

/// What a `VersionEdit` says.
#[verifier::ext_equal]
pub struct EditModel {
    pub manifest_path: Seq<char>,
    pub workspace_dep: bool,
    pub section: DepSection,
    pub dep_name: Seq<char>,
    pub version: Seq<char>,
}

impl VersionEdit {
    pub open spec fn model(self) -> EditModel {
        EditModel {
            manifest_path: self.manifest_path@,
            workspace_dep: self.workspace_dep,
            section: self.section,
            dep_name: self.dep_name@,
            version: self.version@,
        }
    }
}

pub open spec fn edit_models(v: Seq<VersionEdit>) -> Seq<EditModel> {
    v.map_values(|e: VersionEdit| e.model())
}

/// Whether a list of edits has one for an entry of `[workspace.dependencies]`.
pub open spec fn is_scheduled(edits: Seq<EditModel>, root: Seq<char>, dep: Seq<char>) -> bool {
    exists|i: int|
        0 <= i < edits.len() && (#[trigger] edits[i]).workspace_dep && path::is_same(
            edits[i].manifest_path,
            root,
        ) && edits[i].dep_name == dep
}

/// The message for a workspace-inherited dependency of a crate without a workspace.
pub open spec fn rootless_message(from: Seq<char>, to: Seq<char>) -> Seq<char> {
    from + " -> "@ + to + ": workspace-inherited dep but no workspace root found"@
}

/// The edits once a dependency is taken up: one of the workspace's entry where the dependency is
/// inherited, unless it is there already; else one of its own entry.
pub open spec fn edit_added(
    edits: Seq<EditModel>,
    dep: DepModel,
    eco: Ecosystem,
    inherited: bool,
) -> Result<Seq<EditModel>, Seq<char>> {
    let version = eco.crates@[dep.to_crate].version@;
    if inherited {
        match eco.crates@[dep.from_crate].workspace_root {
            Some(root) => if is_scheduled(edits, root@, dep.dep_key) {
                Ok(edits)
            } else {
                Ok(
                    edits.push(
                        EditModel {
                            manifest_path: root@,
                            workspace_dep: true,
                            section: dep.section,
                            dep_name: dep.dep_key,
                            version,
                        },
                    ),
                )
            },
            None => Err(rootless_message(dep.from_crate, dep.to_crate)),
        }
    } else {
        Ok(
            edits.push(
                EditModel {
                    manifest_path: dep.manifest_path,
                    workspace_dep: false,
                    section: dep.section,
                    dep_name: dep.dep_key,
                    version,
                },
            ),
        )
    }
}

fn has_scheduled(edits: &Vec<VersionEdit>, root: &str, dep: &str) -> (r: bool)
    ensures
        r == is_scheduled(edit_models(edits@), root@, dep@),
{
    let ghost es = edit_models(edits@);
    let mut i: usize = 0;
    while i < edits.len()
        invariant
            i <= edits.len(),
            es == edit_models(edits@),
            forall|k: int|
                0 <= k < i ==> !((#[trigger] es[k]).workspace_dep && path::is_same(
                    es[k].manifest_path,
                    root@,
                ) && es[k].dep_name == dep@),
        decreases edits.len() - i,
    {
        let e = &edits[i];
        assert(es[i as int] == e.model());
        if e.workspace_dep && path::same_path(e.manifest_path.as_str(), root) && text::same(
            e.dep_name.as_str(),
            dep,
        ) {
            return true;
        }
        i += 1;
    }
    false
}

/// Take up a dependency to fix, given whether it is inherited from the workspace.
pub fn plan_edit(
    edits: &mut Vec<VersionEdit>,
    dep: &InternalDep,
    eco: &Ecosystem,
    inherited: bool,
) -> (r: Result<(), String>)
    requires
        eco.crates.has(dep.from_crate@),
        eco.crates.has(dep.to_crate@),
    ensures
        match edit_added(edit_models(old(edits)@), dep@, *eco, inherited) {
            Ok(models) => r is Ok && edit_models(final(edits)@) == models,
            Err(e) => r is Err && r->Err_0@ == e && *final(edits) == *old(edits),
        },
{
    let (from, to) = match (
        eco.crates.get(dep.from_crate.as_str()),
        eco.crates.get(dep.to_crate.as_str()),
    ) {
        (Some(from), Some(to)) => (from, to),
        _ => {
            assert(false);
            return Ok(());
        },
    };
    let manifest_path = if inherited {
        match &from.workspace_root {
            Some(root) => {
                if has_scheduled(edits, root.as_str(), dep.dep_key.as_str()) {
                    return Ok(());
                }
                root.clone()
            },
            None => {
                return Err(
                    text::cat4(
                        dep.from_crate.as_str(),
                        " -> ",
                        dep.to_crate.as_str(),
                        ": workspace-inherited dep but no workspace root found",
                    ),
                );
            },
        }
    } else {
        dep.manifest_path.clone()
    };
    let ghost sofar = edit_models(edits@);
    let edit = VersionEdit {
        manifest_path,
        workspace_dep: inherited,
        section: dep.section,
        dep_name: dep.dep_key.clone(),
        version: to.version.clone(),
    };
    let ghost m = edit.model();
    edits.push(edit);
    assert(edit_models(edits@) =~= sofar.push(m));
    Ok(())
}

/// The manifests that a list of edits is on.
pub open spec fn edited_paths(edits: Seq<VersionEdit>) -> Seq<String> {
    edits.map_values(|e: VersionEdit| e.manifest_path)
}

/// The manifests to edit, in order, each once.
pub fn manifests_to_edit(edits: &Vec<VersionEdit>) -> (r: Vec<String>)
    ensures
        discover::are_ordered_paths(r@, edited_paths(edits@)),
{
    let mut paths: Vec<String> = Vec::new();
    let mut i: usize = 0;
    while i < edits.len()
        invariant
            i <= edits.len(),
            paths@ == edited_paths(edits@).take(i as int),
        decreases edits.len() - i,
    {
        paths.push(edits[i].manifest_path.clone());
        assert(edited_paths(edits@).take(i + 1) =~= edited_paths(edits@).take(i as int).push(
            edits@[i as int].manifest_path,
        ));
        i += 1;
    }
    assert(edited_paths(edits@).take(i as int) =~= edited_paths(edits@));
    discover::ordered_paths(&paths)
}

/// A manifest after one edit.
pub open spec fn edit_applied(e: Edited, edit: EditModel) -> Edited {
    if edit.workspace_dep {
        e.after(manifest::workspace_dep_version_set(e.node, edit.dep_name, edit.version))
    } else {
        e.after(
            manifest::version_set(
                e.node,
                member_label(edit.section),
                edit.dep_name,
                edit.version,
            ),
        )
    }
}

/// A manifest after the edits of a list that are on it.
pub open spec fn edits_applied(
    node: Node,
    edits: Seq<EditModel>,
    manifest_path: Seq<char>,
) -> Edited
    decreases edits.len(),
{
    if edits.len() == 0 {
        ci::unedited(node)
    } else {
        let before = edits_applied(node, edits.drop_last(), manifest_path);
        if path::is_same(edits.last().manifest_path, manifest_path) {
            edit_applied(before, edits.last())
        } else {
            before
        }
    }
}

/// The dependencies that the edits of a list on a manifest are for.
pub open spec fn edited_names(edits: Seq<EditModel>, manifest_path: Seq<char>) -> Seq<Seq<char>>
    decreases edits.len(),
{
    if edits.len() == 0 {
        Seq::empty()
    } else if path::is_same(edits.last().manifest_path, manifest_path) {
        edited_names(edits.drop_last(), manifest_path).push(edits.last().dep_name)
    } else {
        edited_names(edits.drop_last(), manifest_path)
    }
}

/// What came of fixing a manifest.
pub struct Fixed {
    pub changes: usize,
    /// The dependencies that it was about.
    pub names: Vec<String>,
}

/// Apply the edits of a list that are on a manifest.
pub fn apply_edits(doc: &mut DocumentMut, edits: &Vec<VersionEdit>, manifest_path: &str) -> (r:
    Fixed)
    ensures
        manifest::keeps_root(manifest::doc_node(*old(doc)), manifest::doc_node(*final(doc))),
        manifest::doc_node(*final(doc)) == edits_applied(
            manifest::doc_node(*old(doc)),
            edit_models(edits@),
            manifest_path@,
        ).node,
        r.changes == ci::capped(
            edits_applied(
                manifest::doc_node(*old(doc)),
                edit_models(edits@),
                manifest_path@,
            ).changes,
        ),
        text::texts(r.names@) == edited_names(edit_models(edits@), manifest_path@),
{
    let ghost start = manifest::doc_node(*old(doc));
    let ghost es = edit_models(edits@);
    let mut changes: usize = 0;
    let mut names: Vec<String> = Vec::new();
    let mut i: usize = 0;
    assert(es.take(0) =~= Seq::<EditModel>::empty());
    assert(text::texts(names@) =~= Seq::<Seq<char>>::empty());
    while i < edits.len()
        invariant
            i <= edits.len(),
            es == edit_models(edits@),
            manifest::keeps_root(manifest::doc_node(*old(doc)), manifest::doc_node(*doc)),
            manifest::doc_node(*doc) == edits_applied(
                start,
                es.take(i as int),
                manifest_path@,
            ).node,
            changes == ci::capped(
                edits_applied(start, es.take(i as int), manifest_path@).changes,
            ),
            text::texts(names@) == edited_names(es.take(i as int), manifest_path@),
        decreases edits.len() - i,
    {
        assert(es.take(i + 1).drop_last() =~= es.take(i as int));
        assert(es.take(i + 1).last() == edits@[i as int].model());
        let edit = &edits[i];
        if path::same_path(edit.manifest_path.as_str(), manifest_path) {
            let changed = if edit.workspace_dep {
                manifest::set_workspace_dep_version(
                    doc,
                    edit.dep_name.as_str(),
                    edit.version.as_str(),
                )
            } else {
                manifest::set_dep_version(
                    doc,
                    member_section(edit.section),
                    edit.dep_name.as_str(),
                    edit.version.as_str(),
                )
            };
            if changed {
                changes = changes.saturating_add(1);
            }
            names.push(edit.dep_name.clone());
        }
        i += 1;
    }
    assert(es.take(i as int) =~= es);
    Fixed { changes, names }
}

/// No entry of `[workspace.dependencies]` is edited twice.
pub open spec fn schedules_once(edits: Seq<EditModel>) -> bool {
    forall|i: int, j: int|
        0 <= i < j < edits.len() && (#[trigger] edits[i]).workspace_dep && (
        #[trigger] edits[j]).workspace_dep && path::is_same(
            edits[i].manifest_path,
            edits[j].manifest_path,
        ) ==> edits[i].dep_name != edits[j].dep_name
}

/// Taking up a dependency never schedules an entry of `[workspace.dependencies]` twice.
pub proof fn law_scheduled_once(
    edits: Seq<EditModel>,
    dep: DepModel,
    eco: Ecosystem,
    inherited: bool,
)
    requires
        schedules_once(edits),
    ensures
        edit_added(edits, dep, eco, inherited) is Ok ==> schedules_once(
            edit_added(edits, dep, eco, inherited)->Ok_0,
        ),
{
}

/// The entry of a manifest that an edit is for.
pub open spec fn edited_entry(node: Node, edit: EditModel) -> Option<Node> {
    if edit.workspace_dep {
        manifest::workspace_dep_at(node, edit.dep_name)
    } else {
        manifest::dep_at(node, member_label(edit.section), edit.dep_name)
    }
}

/// Whether an entry is a table with a path.
pub open spec fn has_path(entry: Option<Node>) -> bool {
    entry is Some && entry.unwrap().is_tabular() && entry.unwrap().has("path"@)
}

/// Whether an entry is a table with a path and a version.
pub open spec fn is_dual(entry: Option<Node>) -> bool {
    has_path(entry) && entry.unwrap().has("version"@)
}

proof fn lemma_edit_keeps(e: Edited, edit: EditModel, other: EditModel)
    requires
        has_path(edited_entry(e.node, other)),
    ensures
        has_path(edited_entry(edit_applied(e, edit).node, other)),
        is_dual(edited_entry(e.node, other)) ==> is_dual(
            edited_entry(edit_applied(e, edit).node, other),
        ),
        edit == other ==> is_dual(edited_entry(edit_applied(e, edit).node, other)),
{
    reveal_strlit("path");
    reveal_strlit("version");
    reveal_strlit("workspace");
    reveal_strlit("dependencies");
    reveal_strlit("dev-dependencies");
    reveal_strlit("build-dependencies");
    assert("path"@.len() != "version"@.len());
    assert("workspace"@.len() != member_label(edit.section).len());
    assert("workspace"@.len() != member_label(other.section).len());
}

/// Once a list of edits is applied, each entry with a path that one of them is for is
/// dual-specified: it has its path and a version.
pub proof fn law_fixed_entries_are_dual(
    node: Node,
    edits: Seq<EditModel>,
    manifest_path: Seq<char>,
    i: int,
)
    requires
        0 <= i < edits.len(),
        path::is_same(edits[i].manifest_path, manifest_path),
        has_path(edited_entry(node, edits[i])),
    ensures
        is_dual(edited_entry(edits_applied(node, edits, manifest_path).node, edits[i])),
    decreases edits.len(),
{
    let before = edits_applied(node, edits.drop_last(), manifest_path);
    if i < edits.len() - 1 {
        law_fixed_entries_are_dual(node, edits.drop_last(), manifest_path, i);
    } else {
        lemma_paths_stay(node, edits.drop_last(), manifest_path, edits[i]);
    }
    if path::is_same(edits.last().manifest_path, manifest_path) {
        lemma_edit_keeps(before, edits.last(), edits[i]);
    }
}

proof fn lemma_paths_stay(
    node: Node,
    edits: Seq<EditModel>,
    manifest_path: Seq<char>,
    other: EditModel,
)
    requires
        has_path(edited_entry(node, other)),
    ensures
        has_path(edited_entry(edits_applied(node, edits, manifest_path).node, other)),
    decreases edits.len(),
{
    if edits.len() > 0 {
        lemma_paths_stay(node, edits.drop_last(), manifest_path, other);
        lemma_edit_keeps(
            edits_applied(node, edits.drop_last(), manifest_path),
            edits.last(),
            other,
        );
    }
}

/// What is to be fixed is each dependency between publishable crates that has a path and no
/// version, in whichever section, as far as the pattern matches the crate that declares it and the
/// target is the one asked for.
pub proof fn law_every_blocker_is_fixed(
    eco: Ecosystem,
    filter: Option<&str>,
    target_crate: Option<&str>,
    n: nat,
)
    ensures
        to_fix(eco, filter, target_crate, n) == Seq::new(n, |i: int| i).filter(
            |i: int|
                eco.crates.has(eco.deps@[i].from_crate@)
                    && eco.crates@[eco.deps@[i].from_crate@].publishable
                    && eco.crates.has(eco.deps@[i].to_crate@)
                    && eco.crates@[eco.deps@[i].to_crate@].publishable
                    && eco.deps@[i].has_path && !eco.deps@[i].has_version
                    && (filter is None
                    || glob::matches_star(filter.unwrap()@, eco.deps@[i].from_crate@))
                    && (target_crate is None || target_crate.unwrap()@ == eco.deps@[i].to_crate@),
        ).map_values(
            |i: int| eco.deps@[i]@,
        ),
    decreases n,
{
    reveal(Seq::filter);
    let all = Seq::new(n, |i: int| i);
    if n > 0 {
        law_every_blocker_is_fixed(eco, filter, target_crate, (n - 1) as nat);
        assert(all.drop_last() =~= Seq::new((n - 1) as nat, |i: int| i));
        assert(all.last() == n - 1);
    } else {
        assert(all =~= Seq::<int>::empty());
    }
}

/// A dependency to fix gets the version of the crate that it is on, under the name by which it is
/// declared: in its own manifest, or in that of its workspace where it is inherited from there.
pub proof fn law_edit_has_the_current_version(
    edits: Seq<EditModel>,
    dep: DepModel,
    eco: Ecosystem,
    inherited: bool,
)
    ensures
        edit_added(edits, dep, eco, inherited) is Err <==> inherited
            && eco.crates@[dep.from_crate].workspace_root is None,
        edit_added(edits, dep, eco, inherited) matches Ok(now) ==> edits.is_prefix_of(now)
            && exists|
            i: int,
        |
            0 <= i < now.len() && (#[trigger] now[i]).dep_name == dep.dep_key
                && now[i].workspace_dep == inherited && (if inherited {
                path::is_same(
                    now[i].manifest_path,
                    eco.crates@[dep.from_crate].workspace_root.unwrap()@,
                )
            } else {
                now[i].manifest_path == dep.manifest_path && now[i].section == dep.section
                    && now[i].version == eco.crates@[dep.to_crate].version@
            }),
        edit_added(edits, dep, eco, inherited) matches Ok(now) ==> now.len() <= edits.len() + 1 && (
        now.len() > edits.len() ==> now.last().version == eco.crates@[dep.to_crate].version@
            && now.last().dep_name == dep.dep_key),
{
    if let Ok(now) = edit_added(edits, dep, eco, inherited) {
        if now.len() > edits.len() {
            let last = now[edits.len() as int];
            if inherited {
                path::law_paths_are_ordered(
                    last.manifest_path,
                    last.manifest_path,
                    last.manifest_path,
                );
            }
            assert(now[edits.len() as int].dep_name == dep.dep_key);
        }
    }
}

/// What is told of a manifest is each edit on it.
pub proof fn law_names_of_the_fixed(edits: Seq<EditModel>, manifest_path: Seq<char>)
    ensures
        edited_names(edits, manifest_path) == edits.filter(
            |e: EditModel| path::is_same(e.manifest_path, manifest_path),
        ).map_values(
            |e: EditModel| e.dep_name,
        ),
    decreases edits.len(),
{
    reveal(Seq::filter);
    if edits.len() > 0 {
        law_names_of_the_fixed(edits.drop_last(), manifest_path);
    }
}

/// An edit sets the version that it names where it says, and leaves the path and all else there,
/// and every other entry, as it was.
pub proof fn law_edit_sets_its_version(
    e: Edited,
    edit: EditModel,
    other: Seq<char>,
    section: Seq<char>,
    key: Seq<char>,
)
    requires
        edited_entry(e.node, edit) is Some,
        edited_entry(e.node, edit).unwrap().is_tabular(),
    ensures
        ({
            let now = edit_applied(e, edit).node;
            &&& edited_entry(now, edit) is Some
            &&& manifest::entry_is(edited_entry(now, edit).unwrap(), "version"@, edit.version)
            &&& key != "version"@ ==> manifest::same_entry(
                edited_entry(e.node, edit).unwrap(),
                edited_entry(now, edit).unwrap(),
                key,
            )
            &&& edit.workspace_dep && other != edit.dep_name ==> manifest::workspace_dep_at(
                now,
                other,
            ) == manifest::workspace_dep_at(e.node, other)
            &&& !edit.workspace_dep && (other != edit.dep_name || section != (match edit.section {
                DepSection::DevDependencies => "dev-dependencies"@,
                DepSection::BuildDependencies => "build-dependencies"@,
                _ => "dependencies"@,
            })) ==> manifest::dep_at(now, section, other) == manifest::dep_at(
                e.node,
                section,
                other,
            )
        }),
{
    manifest::law_only_the_version_changes(
        e.node,
        member_label(edit.section),
        edit.dep_name,
        edit.version,
        key,
    );
    manifest::law_edits_are_local(
        e.node,
        member_label(edit.section),
        edit.dep_name,
        edit.version,
    );
    if other != edit.dep_name {
        manifest::law_workspace_edits_are_local(e.node, edit.dep_name, edit.version, other);
    }
}

/// The section of a member's manifest goes by its own name; what the workspace declares stands
/// among the ordinary dependencies there.
pub proof fn law_member_sections(section: DepSection)
    ensures
        section != DepSection::WorkspaceDependencies ==> member_label(section) == section.label(),
        section == DepSection::WorkspaceDependencies ==> member_label(section)
            == DepSection::Dependencies.label(),
        DepSection::Dependencies.label() == "dependencies"@,
        DepSection::DevDependencies.label() == "dev-dependencies"@,
        DepSection::BuildDependencies.label() == "build-dependencies"@,
        DepSection::WorkspaceDependencies.label() == "workspace.dependencies"@,
{
}

/// A manifest that no edit is on stays as it was, and no change is counted.
pub proof fn law_other_manifests_stay(node: Node, edits: Seq<EditModel>, manifest_path: Seq<char>)
    requires
        forall|i: int|
            0 <= i < edits.len() ==> !path::is_same(
                (#[trigger] edits[i]).manifest_path,
                manifest_path,
            ),
    ensures
        edits_applied(node, edits, manifest_path).node == node,
        edits_applied(node, edits, manifest_path).changes == 0,
    decreases edits.len(),
{
    if edits.len() > 0 {
        let rest = edits.drop_last();
        assert forall|i: int| 0 <= i < rest.len() implies !path::is_same(
            (#[trigger] rest[i]).manifest_path,
            manifest_path,
        ) by {
            assert(rest[i] == edits[i]);
        }
        law_other_manifests_stay(node, rest, manifest_path);
        assert(edits[edits.len() - 1] == edits.last());
    }
}

} // verus!
