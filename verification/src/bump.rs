//! Bumping a crate's version and the requirements of its dependents.

use toml_edit::DocumentMut;
use vstd::prelude::*;
use vstd::string::*;

use crate::ci;
use crate::ci::Edited;
use crate::discover;
use crate::discover::{CrateInfo, DepModel, DepSection, Ecosystem, InternalDep, ManifestDeps};
use crate::group;
use crate::manifest;
use crate::manifest::Node;
use crate::path;
use crate::text;

verus! {

/// Find the crate to bump.
pub fn bump_target<'a>(eco: &'a Ecosystem, crate_name: &str) -> (r: Result<&'a CrateInfo, String>)
    ensures
        match r {
            Ok(info) => eco.crates.has(crate_name@) && *info == eco.crates@[crate_name@],
            Err(e) => !eco.crates.has(crate_name@) && e@ == ci::unknown_message(crate_name@),
        },
{
    match eco.crates.get(crate_name) {
        Some(info) => Ok(info),
        None => Err(text::cat3("crate '", crate_name, "' not found in ecosystem")),
    }
}

/// The dependencies of a list on a crate that require a version of it.
pub open spec fn requiring(deps: Seq<DepModel>, crate_name: Seq<char>) -> Seq<DepModel>
    decreases deps.len(),
{
    if deps.len() == 0 {
        Seq::empty()
    } else if deps.last().to_crate == crate_name && deps.last().has_version {
        requiring(deps.drop_last(), crate_name).push(deps.last())
    } else {
        requiring(deps.drop_last(), crate_name)
    }
}

/// The manifests that require a version of a crate, each with the dependencies in question.
pub fn dependents(eco: &Ecosystem, crate_name: &str) -> (r: Vec<ManifestDeps>)
    ensures
        discover::is_by_manifest(
            requiring(discover::dep_models(eco.deps@), crate_name@),
            r@,
        ),
{
    let ghost ds = discover::dep_models(eco.deps@);
    let mut out: Vec<InternalDep> = Vec::new();
    let mut i: usize = 0;
    assert(ds.take(0) =~= Seq::<DepModel>::empty());
    assert(discover::dep_models(out@) =~= Seq::<DepModel>::empty());
    while i < eco.deps.len()
        invariant
            i <= eco.deps.len(),
            ds == discover::dep_models(eco.deps@),
            discover::dep_models(out@) == requiring(ds.take(i as int), crate_name@),
        decreases eco.deps.len() - i,
    {
        assert(ds.take(i + 1).drop_last() =~= ds.take(i as int));
        assert(ds.take(i + 1).last() == eco.deps@[i as int]@);
        let dep = &eco.deps[i];
        if text::same(dep.to_crate.as_str(), crate_name) && dep.has_version {
            let ghost sofar = discover::dep_models(out@);
            let copy = discover::copy_dep(dep);
            let ghost m = copy@;
            out.push(copy);
            assert(discover::dep_models(out@) =~= sofar.push(m));
        }
        i += 1;
    }
    assert(ds.take(i as int) =~= ds);
    discover::deps_by_manifest(&out)
}

/// A manifest with another version required by one dependency.
pub open spec fn requirement_set(
    e: Edited,
    section: DepSection,
    crate_name: Seq<char>,
    version: Seq<char>,
) -> Edited {
    if section == DepSection::WorkspaceDependencies {
        e.after(manifest::workspace_dep_version_forced(e.node, crate_name, version))
    } else {
        e.after(manifest::version_set(e.node, section.label(), crate_name, version))
    }
}

/// A manifest with another version required by the dependencies of a list.
pub open spec fn requirements_set(
    node: Node,
    deps: Seq<DepModel>,
    crate_name: Seq<char>,
    version: Seq<char>,
) -> Edited
    decreases deps.len(),
{
    if deps.len() == 0 {
        ci::unedited(node)
    } else {
        requirement_set(
            requirements_set(node, deps.drop_last(), crate_name, version),
            deps.last().section,
            crate_name,
            version,
        )
    }
}

/// Update the version that the dependencies of a manifest require of a crate.
/// Returns the number of changes.
pub fn update_requirements(
    doc: &mut DocumentMut,
    deps: &Vec<InternalDep>,
    crate_name: &str,
    new_version: &str,
) -> (r: usize)
    ensures
        manifest::keeps_root(manifest::doc_node(*old(doc)), manifest::doc_node(*final(doc))),
        manifest::doc_node(*final(doc)) == requirements_set(
            manifest::doc_node(*old(doc)),
            discover::dep_models(deps@),
            crate_name@,
            new_version@,
        ).node,
        r == ci::capped(
            requirements_set(
                manifest::doc_node(*old(doc)),
                discover::dep_models(deps@),
                crate_name@,
                new_version@,
            ).changes,
        ),
{
    let ghost start = manifest::doc_node(*old(doc));
    let ghost ds = discover::dep_models(deps@);
    let mut changes: usize = 0;
    let mut i: usize = 0;
    assert(ds.take(0) =~= Seq::<DepModel>::empty());
    while i < deps.len()
        invariant
            i <= deps.len(),
            ds == discover::dep_models(deps@),
            manifest::keeps_root(manifest::doc_node(*old(doc)), manifest::doc_node(*doc)),
            manifest::doc_node(*doc) == requirements_set(
                start,
                ds.take(i as int),
                crate_name@,
                new_version@,
            ).node,
            changes == ci::capped(
                requirements_set(start, ds.take(i as int), crate_name@, new_version@).changes,
            ),
        decreases deps.len() - i,
    {
        assert(ds.take(i + 1).drop_last() =~= ds.take(i as int));
        assert(ds.take(i + 1).last() == deps@[i as int]@);
        let section = deps[i].section;
        let changed = if section == DepSection::WorkspaceDependencies {
            manifest::force_workspace_dep_version(doc, crate_name, new_version)
        } else {
            manifest::set_dep_version(doc, section.name(), crate_name, new_version)
        };
        if changed {
            changes = changes.saturating_add(1);
        }
        i += 1;
    }
    assert(ds.take(i as int) =~= ds);
    changes
}

/// Whether a node, where it can hold a version, holds this one.
pub open spec fn requires_version(d: Option<Node>, version: Seq<char>) -> bool {
    match d {
        Some(n) => n is Text || n.is_tabular() ==> n == Node::Text(version) || manifest::entry_is(
            n,
            "version"@,
            version,
        ),
        None => true,
    }
}

/// The node of a dependency on a crate in a section.
pub open spec fn dep_node(node: Node, section: DepSection, crate_name: Seq<char>) -> Option<Node> {
    if section == DepSection::WorkspaceDependencies {
        manifest::workspace_dep_at(node, crate_name)
    } else {
        manifest::dep_at(node, section.label(), crate_name)
    }
}

proof fn lemma_labels_differ(a: DepSection, b: DepSection)
    ensures
        a.label() == b.label() <==> a == b,
        a.label() != "workspace"@,
{
    reveal_strlit("dependencies");
    reveal_strlit("dev-dependencies");
    reveal_strlit("build-dependencies");
    reveal_strlit("workspace.dependencies");
    reveal_strlit("workspace");
    assert("dependencies"@.len() == 12);
    assert("dev-dependencies"@.len() == 16);
    assert("build-dependencies"@.len() == 18);
    assert("workspace.dependencies"@.len() == 22);
    assert("workspace"@.len() == 9);
}

/// After a bump every dependency of the list that can hold a version requires the new one.
pub proof fn law_requirements_follow(
    node: Node,
    deps: Seq<DepModel>,
    i: int,
    crate_name: Seq<char>,
    version: Seq<char>,
)
    requires
        0 <= i < deps.len(),
    ensures
        requires_version(
            dep_node(
                requirements_set(node, deps, crate_name, version).node,
                deps[i].section,
                crate_name,
            ),
            version,
        ),
    decreases deps.len(),
{
    let before = requirements_set(node, deps.drop_last(), crate_name, version);
    let last = deps.last().section;
    if i < deps.len() - 1 {
        assert(deps.drop_last()[i] == deps[i]);
        law_requirements_follow(node, deps.drop_last(), i, crate_name, version);
    }
    lemma_labels_differ(deps[i].section, last);
    lemma_labels_differ(last, last);
}

proof fn lemma_requiring(deps: Seq<DepModel>, crate_name: Seq<char>)
    ensures
        forall|d: DepModel| #[trigger]
            requiring(deps, crate_name).contains(d) <==> deps.contains(d) && d.to_crate
                == crate_name && d.has_version,
    decreases deps.len(),
{
    if deps.len() > 0 {
        lemma_requiring(deps.drop_last(), crate_name);
        assert(deps =~= deps.drop_last().push(deps.last()));
        group::lemma_push_contains(deps.drop_last(), deps.last());
        group::lemma_push_contains(requiring(deps.drop_last(), crate_name), deps.last());
    }
}

/// Each dependency on a crate that requires a version of it, with or without a path and in
/// whichever section, is listed with its manifest; nothing else is listed.
pub proof fn law_every_requirement_is_listed(
    eco: Ecosystem,
    crate_name: Seq<char>,
    list: Seq<ManifestDeps>,
)
    requires
        discover::is_by_manifest(requiring(discover::dep_models(eco.deps@), crate_name), list),
    ensures
        forall|i: int|
            0 <= i < eco.deps@.len() && (#[trigger] eco.deps@[i]).to_crate@ == crate_name
                && eco.deps@[i].has_version ==> is_listed_with(eco.deps@[i], list),
        forall|m: int, k: int|
            0 <= m < list.len() && 0 <= k < list[m].deps@.len() ==> {
                let d = #[trigger] list[m].deps@[k];
                d.to_crate@ == crate_name && d.has_version && exists|i: int|
                    0 <= i < eco.deps@.len() && (#[trigger] eco.deps@[i])@ == d@
            },
{
    let ds = discover::dep_models(eco.deps@);
    let taken = requiring(ds, crate_name);
    lemma_requiring(ds, crate_name);
    assert forall|i: int|
        0 <= i < eco.deps@.len() && (#[trigger] eco.deps@[i]).to_crate@ == crate_name
            && eco.deps@[i].has_version implies is_listed_with(eco.deps@[i], list) by {
        assert(ds[i] == eco.deps@[i]@);
        assert(taken.contains(ds[i]));
        let t = taken.index_of(ds[i]);
        assert(discover::is_listed(taken[t].manifest_path, list));
        let m = choose|m: int|
            0 <= m < list.len() && path::is_same(
                taken[t].manifest_path,
                (#[trigger] list[m]).manifest_path@,
            );
        discover::lemma_declared_in(taken, list[m].manifest_path@);
        assert(discover::dep_models(list[m].deps@).contains(ds[i]));
        let k = discover::dep_models(list[m].deps@).index_of(ds[i]);
        assert(list[m].deps@[k]@ == ds[i]);
    }
    assert forall|m: int, k: int| 0 <= m < list.len() && 0 <= k < list[m].deps@.len() implies {
        let d = #[trigger] list[m].deps@[k];
        d.to_crate@ == crate_name && d.has_version && exists|i: int|
            0 <= i < eco.deps@.len() && (#[trigger] eco.deps@[i])@ == d@
    } by {
        let d = list[m].deps@[k];
        let models = discover::dep_models(list[m].deps@);
        assert(models[k] == d@);
        discover::lemma_declared_in(taken, list[m].manifest_path@);
        assert(models.contains(d@));
        assert(taken.contains(d@));
        assert(ds.contains(d@));
        let i = ds.index_of(d@);
        assert(eco.deps@[i]@ == d@);
    }
}

/// Whether a list of manifests holds a dependency with the manifest that declares it.
pub open spec fn is_listed_with(dep: InternalDep, list: Seq<ManifestDeps>) -> bool {
    exists|m: int, k: int|
        0 <= m < list.len() && 0 <= k < list[m].deps@.len() && path::is_same(
            dep.manifest_path@,
            list[m].manifest_path@,
        ) && (#[trigger] list[m].deps@[k])@ == dep@
}

/// A bump changes no dependency on another crate, and of those on the crate nothing but the version.
pub proof fn law_bump_touches_versions_only(
    node: Node,
    deps: Seq<DepModel>,
    crate_name: Seq<char>,
    version: Seq<char>,
    section: Seq<char>,
    other: Seq<char>,
    key: Seq<char>,
)
    requires
        section != "workspace"@,
        forall|i: int|
            0 <= i < deps.len() ==> (#[trigger] deps[i]).section
                != DepSection::WorkspaceDependencies,
    ensures
        other != crate_name ==> manifest::dep_at(
            requirements_set(node, deps, crate_name, version).node,
            section,
            other,
        ) == manifest::dep_at(node, section, other),
        manifest::dep_at(node, section, crate_name) matches Some(d) ==> (manifest::dep_at(
            requirements_set(node, deps, crate_name, version).node,
            section,
            crate_name,
        ) matches Some(now) && (d.is_tabular() && key != "version"@ ==> now.is_tabular()
            && manifest::same_entry(d, now, key))),
    decreases deps.len(),
{
    if deps.len() > 0 {
        let rest = deps.drop_last();
        let last = deps.last();
        assert(deps[deps.len() - 1] == last);
        assert forall|i: int| 0 <= i < rest.len() implies (#[trigger] rest[i]).section
            != DepSection::WorkspaceDependencies by {
            assert(rest[i] == deps[i]);
        }
        law_bump_touches_versions_only(node, rest, crate_name, version, section, other, key);
        let before = requirements_set(node, rest, crate_name, version);
        manifest::law_edits_are_local(before.node, last.section.label(), crate_name, version);
        manifest::law_only_the_version_changes(
            before.node,
            last.section.label(),
            crate_name,
            version,
            key,
        );
    }
}

/// A requirement that the workspace holds is set there, bare or in a table, and leaves the other
/// entries of the workspace as they were.
pub proof fn law_workspace_requirement(
    e: Edited,
    crate_name: Seq<char>,
    version: Seq<char>,
    other: Seq<char>,
)
    ensures
        ({
            let was = manifest::workspace_dep_at(e.node, crate_name);
            let after = requirement_set(e, DepSection::WorkspaceDependencies, crate_name, version);
            let now = manifest::workspace_dep_at(after.node, crate_name);
            &&& was is Some && was.unwrap().is_tabular() ==> now is Some && manifest::entry_is(
                now.unwrap(),
                "version"@,
                version,
            )
            &&& was is Some && was.unwrap() is Text ==> now == Some(Node::Text(version))
            &&& was is None ==> after == e
            &&& other != crate_name ==> manifest::workspace_dep_at(after.node, other)
                == manifest::workspace_dep_at(e.node, other)
        }),
{
    manifest::law_only_the_version_changes(
        e.node,
        "dependencies"@,
        crate_name,
        version,
        "path"@,
    );
    if other != crate_name {
        manifest::law_workspace_edits_are_local(e.node, crate_name, version, other);
    }
}

} // verus!
