//! Switching internal dependencies between paths and versions.

use toml_edit::DocumentMut;
use vstd::prelude::*;
use vstd::string::*;

use crate::ci;
use crate::ci::Edited;
use crate::discover;
use crate::discover::{DepModel, DepSection, Ecosystem, InternalDep};
use crate::group;
use crate::manifest;
use crate::manifest::Node;
use crate::path;
use crate::publish;
use crate::text;

verus! {

broadcast use {text::lemma_texts_push, text::lemma_pairs_push};

// ── Patching ──

/// A dependency and the directory of the crate that it is on.
pub struct PatchTarget {
    pub section: DepSection,
    pub name: String,
    pub dir: String,
}

/// What a `PatchTarget` says.
#[verifier::ext_equal]
pub struct TargetModel {
    pub section: DepSection,
    pub name: Seq<char>,
    pub dir: Seq<char>,
}

pub open spec fn target_models(v: Seq<PatchTarget>) -> Seq<TargetModel> {
    v.map_values(|t: PatchTarget| TargetModel { section: t.section, name: t.name@, dir: t.dir@ })
}

/// The dependencies of a list that are on known crates, each with the directory of the crate.
pub open spec fn targets_of(deps: Seq<DepModel>, eco: Ecosystem) -> Seq<TargetModel>
    decreases deps.len(),
{
    if deps.len() == 0 {
        Seq::empty()
    } else {
        let before = targets_of(deps.drop_last(), eco);
        let dep = deps.last();
        if eco.crates.has(dep.to_crate) {
            before.push(
                TargetModel {
                    section: dep.section,
                    name: dep.to_crate,
                    dir: path::parent(eco.crates@[dep.to_crate].manifest_path@).unwrap(),
                },
            )
        } else {
            before
        }
    }
}

/// Every dependency on a known crate is a target, with or without a path so far, and leads to the
/// directory of that crate; there are no other targets.
pub proof fn law_every_known_crate_is_a_target(deps: Seq<InternalDep>, eco: Ecosystem)
    ensures
        forall|i: int|
            0 <= i < deps.len() && eco.crates.has((#[trigger] deps[i]).to_crate@) ==> targets_of(
                discover::dep_models(deps),
                eco,
            ).contains(
                TargetModel {
                    section: deps[i].section,
                    name: deps[i].to_crate@,
                    dir: path::parent(eco.crates@[deps[i].to_crate@].manifest_path@).unwrap(),
                },
            ),
        forall|t: TargetModel| #[trigger]
            targets_of(discover::dep_models(deps), eco).contains(t) ==> exists|i: int|
                0 <= i < deps.len() && (#[trigger] deps[i]).section == t.section
                    && deps[i].to_crate@ == t.name && eco.crates.has(t.name) && path::parent(
                    eco.crates@[t.name].manifest_path@,
                ).unwrap() == t.dir,
    decreases deps.len(),
{
    let ds = discover::dep_models(deps);
    if deps.len() > 0 {
        let rest = deps.drop_last();
        law_every_known_crate_is_a_target(rest, eco);
        assert(ds.drop_last() =~= discover::dep_models(rest));
        let last = deps.last();
        assert(ds.last() == last@);
        let m = TargetModel {
            section: last.section,
            name: last.to_crate@,
            dir: path::parent(eco.crates@[last.to_crate@].manifest_path@).unwrap(),
        };
        group::lemma_push_contains(targets_of(ds.drop_last(), eco), m);
        assert forall|i: int|
            0 <= i < deps.len() && eco.crates.has(
                (#[trigger] deps[i]).to_crate@,
            ) implies targets_of(ds, eco).contains(
            TargetModel {
                section: deps[i].section,
                name: deps[i].to_crate@,
                dir: path::parent(eco.crates@[deps[i].to_crate@].manifest_path@).unwrap(),
            },
        ) by {
            if i < rest.len() {
                assert(rest[i] == deps[i]);
            }
        }
        assert forall|t: TargetModel| #[trigger] targets_of(ds, eco).contains(t) implies exists|
            i: int,
        |
            0 <= i < deps.len() && (#[trigger] deps[i]).section == t.section && deps[i].to_crate@
                == t.name && eco.crates.has(t.name) && path::parent(
                eco.crates@[t.name].manifest_path@,
            ).unwrap() == t.dir by {
            if targets_of(ds.drop_last(), eco).contains(t) {
                let i = choose|i: int|
                    0 <= i < rest.len() && (#[trigger] rest[i]).section == t.section
                        && rest[i].to_crate@ == t.name && eco.crates.has(t.name) && path::parent(
                        eco.crates@[t.name].manifest_path@,
                    ).unwrap() == t.dir;
                assert(deps[i] == rest[i]);
            } else {
                assert(deps[deps.len() - 1] == last);
            }
        }
    }
}

/// Find the directories that the dependencies of a manifest lead to.
pub fn patch_targets(deps: &Vec<InternalDep>, eco: &Ecosystem) -> (r: Vec<PatchTarget>)
    requires
        forall|i: int|
            0 <= i < deps.len() ==> discover::is_placed((#[trigger] deps@[i]).to_crate@, *eco),
    ensures
        target_models(r@) == targets_of(discover::dep_models(deps@), *eco),
{
    let ghost ds = discover::dep_models(deps@);
    let mut out: Vec<PatchTarget> = Vec::new();
    let mut i: usize = 0;
    assert(ds.take(0) =~= Seq::<DepModel>::empty());
    assert(target_models(out@) =~= Seq::<TargetModel>::empty());
    while i < deps.len()
        invariant
            i <= deps.len(),
            ds == discover::dep_models(deps@),
            target_models(out@) == targets_of(ds.take(i as int), *eco),
        decreases deps.len() - i,
    {
        assert(ds.take(i + 1).drop_last() =~= ds.take(i as int));
        assert(ds.take(i + 1).last() == deps@[i as int]@);
        let dep = &deps[i];
        if let Some(info) = eco.crates.get(dep.to_crate.as_str()) {
            assert(discover::is_placed(deps@[i as int].to_crate@, *eco));
            if let Some(dir) = path::parent_of(info.manifest_path.as_str()) {
                let ghost sofar = target_models(out@);
                let ghost m = TargetModel {
                    section: dep.section,
                    name: dep.to_crate@,
                    dir: dir@,
                };
                out.push(PatchTarget { section: dep.section, name: dep.to_crate.clone(), dir });
                assert(target_models(out@) =~= sofar.push(m));
            }
        }
        i += 1;
    }
    assert(ds.take(i as int) =~= ds);
    out
}

/// A manifest with a path for each target, as seen from a directory.
pub open spec fn patched(node: Node, from: Seq<char>, targets: Seq<TargetModel>) -> Edited
    decreases targets.len(),
{
    if targets.len() == 0 {
        ci::unedited(node)
    } else {
        let before = patched(node, from, targets.drop_last());
        let t = targets.last();
        before.after(
            manifest::path_set(
                before.node,
                t.section.label(),
                t.name,
                path::relative(from, t.dir),
            ),
        )
    }
}

/// Add paths to the dependencies of the manifest in `from_dir`. Returns the number of changes.
pub fn patch_manifest(doc: &mut DocumentMut, from_dir: &str, targets: &Vec<PatchTarget>) -> (r:
    usize)
    ensures
        manifest::keeps_root(manifest::doc_node(*old(doc)), manifest::doc_node(*final(doc))),
        manifest::doc_node(*final(doc)) == patched(
            manifest::doc_node(*old(doc)),
            from_dir@,
            target_models(targets@),
        ).node,
        r == ci::capped(
            patched(
                manifest::doc_node(*old(doc)),
                from_dir@,
                target_models(targets@),
            ).changes,
        ),
{
    let ghost start = manifest::doc_node(*old(doc));
    let ghost ts = target_models(targets@);
    let mut changes: usize = 0;
    let mut i: usize = 0;
    assert(ts.take(0) =~= Seq::<TargetModel>::empty());
    while i < targets.len()
        invariant
            i <= targets.len(),
            ts == target_models(targets@),
            manifest::keeps_root(manifest::doc_node(*old(doc)), manifest::doc_node(*doc)),
            manifest::doc_node(*doc) == patched(start, from_dir@, ts.take(i as int)).node,
            changes == ci::capped(patched(start, from_dir@, ts.take(i as int)).changes),
        decreases targets.len() - i,
    {
        assert(ts.take(i + 1).drop_last() =~= ts.take(i as int));
        let t = &targets[i];
        assert(ts.take(i + 1).last() == (TargetModel {
            section: t.section,
            name: t.name@,
            dir: t.dir@,
        }));
        let rel_path = path::relative_path(from_dir, t.dir.as_str());
        if manifest::set_dep_path(doc, t.section.name(), t.name.as_str(), rel_path.as_str()) {
            changes = changes.saturating_add(1);
        }
        i += 1;
    }
    assert(ts.take(i as int) =~= ts);
    changes
}

/// After patching each target that can hold a path has the one that leads to its directory.
pub proof fn law_patched_paths_lead_there(
    node: Node,
    from: Seq<char>,
    targets: Seq<TargetModel>,
    i: int,
)
    requires
        0 <= i < targets.len(),
        forall|j: int|
            0 <= j < targets.len() && (#[trigger] targets[j]).section.label()
                == targets[i].section.label() && targets[j].name == targets[i].name
                ==> targets[j].dir == targets[i].dir,
    ensures
        match manifest::dep_at(
            patched(node, from, targets).node,
            targets[i].section.label(),
            targets[i].name,
        ) {
            Some(d) => !(d is Text) && (d.is_tabular() ==> manifest::entry_is(
                d,
                "path"@,
                path::relative(from, targets[i].dir),
            )),
            None => true,
        },
    decreases targets.len(),
{
    let before = patched(node, from, targets.drop_last());
    let t = targets.last();
    if i < targets.len() - 1 {
        let rest = targets.drop_last();
        assert(rest[i] == targets[i]);
        assert forall|j: int|
            0 <= j < rest.len() && (#[trigger] rest[j]).section.label() == rest[i].section.label()
                && rest[j].name == rest[i].name implies rest[j].dir == rest[i].dir by {
            assert(targets[j] == rest[j]);
        }
        law_patched_paths_lead_there(node, from, rest, i);
    }
}

// ── Unpatching ──

/// Whether a dependency's path can go: it has a version too.
pub open spec fn is_unpatched(dep: DepModel) -> bool {
    dep.has_path && dep.has_version
}

/// Whether a dependency keeps its path though it is on a publishable crate.
pub open spec fn is_blocked(dep: DepModel, eco: Ecosystem) -> bool {
    dep.has_path && !dep.has_version && publish::is_publishable(eco, dep.to_crate)
}

/// A manifest without the paths of its dual-specified dependencies.
pub open spec fn unpatched(node: Node, deps: Seq<DepModel>) -> Edited
    decreases deps.len(),
{
    if deps.len() == 0 {
        ci::unedited(node)
    } else {
        let before = unpatched(node, deps.drop_last());
        let dep = deps.last();
        if is_unpatched(dep) {
            before.after(
                manifest::path_removed(before.node, dep.section.label(), dep.to_crate),
            )
        } else {
            before
        }
    }
}

/// The dependencies of a list that block unpatching, as the crates on their two sides.
pub open spec fn blocked_in(deps: Seq<DepModel>, eco: Ecosystem) -> Seq<(Seq<char>, Seq<char>)>
    decreases deps.len(),
{
    if deps.len() == 0 {
        Seq::empty()
    } else if is_blocked(deps.last(), eco) {
        blocked_in(deps.drop_last(), eco).push((deps.last().from_crate, deps.last().to_crate))
    } else {
        blocked_in(deps.drop_last(), eco)
    }
}

/// What came of unpatching a manifest.
pub struct Unpatched {
    pub changes: usize,
    /// The path-only dependencies on publishable crates, as the crates on their two sides.
    pub blocked: Vec<(String, String)>,
}

/// Remove the paths of the dual-specified dependencies of a manifest.
pub fn unpatch_manifest(doc: &mut DocumentMut, deps: &Vec<InternalDep>, eco: &Ecosystem) -> (r:
    Unpatched)
    ensures
        manifest::keeps_root(manifest::doc_node(*old(doc)), manifest::doc_node(*final(doc))),
        manifest::doc_node(*final(doc)) == unpatched(
            manifest::doc_node(*old(doc)),
            discover::dep_models(deps@),
        ).node,
        r.changes == ci::capped(
            unpatched(manifest::doc_node(*old(doc)), discover::dep_models(deps@)).changes,
        ),
        text::pairs(r.blocked@) == blocked_in(discover::dep_models(deps@), *eco),
{
    let ghost start = manifest::doc_node(*old(doc));
    let ghost ds = discover::dep_models(deps@);
    let mut changes: usize = 0;
    let mut blocked: Vec<(String, String)> = Vec::new();
    let mut i: usize = 0;
    assert(ds.take(0) =~= Seq::<DepModel>::empty());
    assert(text::pairs(blocked@) =~= Seq::<(Seq<char>, Seq<char>)>::empty());
    while i < deps.len()
        invariant
            i <= deps.len(),
            ds == discover::dep_models(deps@),
            manifest::keeps_root(manifest::doc_node(*old(doc)), manifest::doc_node(*doc)),
            manifest::doc_node(*doc) == unpatched(start, ds.take(i as int)).node,
            changes == ci::capped(unpatched(start, ds.take(i as int)).changes),
            text::pairs(blocked@) == blocked_in(ds.take(i as int), *eco),
        decreases deps.len() - i,
    {
        assert(ds.take(i + 1).drop_last() =~= ds.take(i as int));
        assert(ds.take(i + 1).last() == deps@[i as int]@);
        let dep = &deps[i];
        if dep.has_path {
            if dep.has_version {
                if manifest::remove_dep_path(doc, dep.section.name(), dep.to_crate.as_str()) {
                    changes = changes.saturating_add(1);
                }
            } else if publish::publishable(eco, dep.to_crate.as_str()) {
                blocked.push((dep.from_crate.clone(), dep.to_crate.clone()));
            }
        }
        i += 1;
    }
    assert(ds.take(i as int) =~= ds);
    Unpatched { changes, blocked }
}

/// After unpatching no dual-specified dependency has a path left.
pub proof fn law_unpatched_has_no_path(node: Node, deps: Seq<DepModel>, i: int)
    requires
        0 <= i < deps.len(),
        is_unpatched(deps[i]),
    ensures
        !ci::has_path_at(unpatched(node, deps).node, deps[i].section.label(), deps[i].to_crate),
    decreases deps.len(),
{
    if i < deps.len() - 1 {
        assert(deps.drop_last()[i] == deps[i]);
        law_unpatched_has_no_path(node, deps.drop_last(), i);
    }
}

/// Giving two dependencies new nodes comes to the same in either order.
proof fn lemma_with_dep_commutes(
    root: Node,
    s: Seq<char>,
    d: Seq<char>,
    x: Node,
    t: Seq<char>,
    e: Seq<char>,
    y: Node,
)
    requires
        s != t || d != e,
        manifest::dep_at(root, s, d) is Some,
        manifest::dep_at(root, t, e) is Some,
    ensures
        manifest::with_dep(manifest::with_dep(root, s, d, x), t, e, y) == manifest::with_dep(
            manifest::with_dep(root, t, e, y),
            s,
            d,
            x,
        ),
{
    let a = manifest::with_dep(manifest::with_dep(root, s, d, x), t, e, y);
    let b = manifest::with_dep(manifest::with_dep(root, t, e, y), s, d, x);
    if s == t {
        let sec = root.entries()[s];
        assert(sec.entries().insert(d, x).insert(e, y) =~= sec.entries().insert(e, y).insert(d, x));
        assert(sec.with(d, x).with(e, y) == sec.with(e, y).with(d, x));
    }
    assert(a.entries() =~= b.entries());
}

/// Removing one dependency's path and setting another's comes to the same in either order.
proof fn lemma_remove_and_set_commute(
    node: Node,
    s: Seq<char>,
    d: Seq<char>,
    t: Seq<char>,
    e: Seq<char>,
    p: Seq<char>,
)
    requires
        s != t || d != e,
    ensures
        manifest::path_removed(manifest::path_set(node, t, e, p).0, s, d).0 == manifest::path_set(
            manifest::path_removed(node, s, d).0,
            t,
            e,
            p,
        ).0,
{
    if manifest::dep_at(node, s, d) is Some && manifest::dep_at(node, t, e) is Some {
        let x = manifest::dep_at(node, s, d).unwrap().without("path"@);
        let old_e = manifest::dep_at(node, t, e).unwrap();
        let y = if old_e is Text {
            manifest::versioned_path(old_e->Text_0, p)
        } else {
            old_e.with("path"@, Node::Text(p))
        };
        lemma_with_dep_commutes(node, s, d, x, t, e, y);
    }
}

/// Whether a target and a dependency stand at one place.
pub open spec fn is_at(t: TargetModel, section: Seq<char>, name: Seq<char>) -> bool {
    t.section.label() == section && t.name == name
}

/// Unpatching commutes with setting a path that none of the dependencies is at.
proof fn lemma_unpatch_and_set_commute(
    node: Node,
    deps: Seq<DepModel>,
    t: Seq<char>,
    e: Seq<char>,
    p: Seq<char>,
)
    requires
        forall|i: int|
            0 <= i < deps.len() ==> (#[trigger] deps[i]).section.label() != t || deps[i].to_crate
                != e,
    ensures
        unpatched(manifest::path_set(node, t, e, p).0, deps).node == manifest::path_set(
            unpatched(node, deps).node,
            t,
            e,
            p,
        ).0,
    decreases deps.len(),
{
    if deps.len() > 0 {
        let rest = deps.drop_last();
        assert forall|i: int| 0 <= i < rest.len() implies (#[trigger] rest[i]).section.label() != t
            || rest[i].to_crate != e by {
            assert(rest[i] == deps[i]);
        }
        lemma_unpatch_and_set_commute(node, rest, t, e, p);
        let dep = deps.last();
        assert(deps[deps.len() - 1] == dep);
        lemma_remove_and_set_commute(
            unpatched(node, rest).node,
            dep.section.label(),
            dep.to_crate,
            t,
            e,
            p,
        );
    }
}

/// Unpatching undoes patching: a manifest whose dependencies are tables without a path is the
/// same again after both.
pub proof fn law_unpatching_undoes_patching(
    node: Node,
    from: Seq<char>,
    targets: Seq<TargetModel>,
    deps: Seq<DepModel>,
)
    requires
        deps.len() == targets.len(),
        forall|i: int|
            0 <= i < targets.len() ==> is_unpatched(#[trigger] deps[i]) && is_at(
                targets[i],
                deps[i].section.label(),
                deps[i].to_crate,
            ),
        forall|i: int, j: int|
            0 <= i < j < targets.len() ==> !is_at(
                #[trigger] targets[i],
                (#[trigger] targets[j]).section.label(),
                targets[j].name,
            ),
        forall|i: int|
            0 <= i < targets.len() ==> {
                let d = manifest::dep_at(
                    node,
                    (#[trigger] targets[i]).section.label(),
                    targets[i].name,
                );
                d is Some && d.unwrap().is_tabular() && d.unwrap().lacks("path"@)
            },
    ensures
        unpatched(patched(node, from, targets).node, deps).node == node,
    decreases targets.len(),
{
    if targets.len() > 0 {
        let ts = targets.drop_last();
        let ds = deps.drop_last();
        let t = targets.last();
        let dep = deps.last();
        assert(deps[deps.len() - 1] == dep);
        assert(targets[targets.len() - 1] == t);
        assert forall|i: int| 0 <= i < ts.len() implies is_unpatched(#[trigger] ds[i]) && is_at(
            ts[i],
            ds[i].section.label(),
            ds[i].to_crate,
        ) by {
            assert(ds[i] == deps[i] && ts[i] == targets[i]);
        }
        assert forall|i: int, j: int| 0 <= i < j < ts.len() implies !is_at(
            #[trigger] ts[i],
            (#[trigger] ts[j]).section.label(),
            ts[j].name,
        ) by {
            assert(ts[i] == targets[i] && ts[j] == targets[j]);
        }
        assert forall|i: int| 0 <= i < ts.len() implies {
            let d = manifest::dep_at(node, (#[trigger] ts[i]).section.label(), ts[i].name);
            d is Some && d.unwrap().is_tabular() && d.unwrap().lacks("path"@)
        } by {
            assert(ts[i] == targets[i]);
        }
        law_unpatching_undoes_patching(node, from, ts, ds);
        let half = patched(node, from, ts).node;
        let p = path::relative(from, t.dir);
        assert forall|i: int| 0 <= i < ds.len() implies (#[trigger] ds[i]).section.label()
            != t.section.label() || ds[i].to_crate != t.name by {
            assert(ds[i] == deps[i] && ts[i] == targets[i]);
            assert(!is_at(targets[i], targets[targets.len() - 1].section.label(), t.name));
        }
        lemma_unpatch_and_set_commute(half, ds, t.section.label(), t.name, p);
        manifest::law_unpatch_undoes_patch(node, t.section.label(), t.name, p);
    }
}

/// Unpatching names each dependency on a publishable crate that has a path and no version.
pub proof fn law_blocked_deps_are_named(deps: Seq<DepModel>, eco: Ecosystem)
    ensures
        blocked_in(deps, eco) == deps.filter(
            |d: DepModel|
                d.has_path && !d.has_version && eco.crates.has(d.to_crate)
                    && eco.crates@[d.to_crate].publishable,
        ).map_values(
            |d: DepModel| (d.from_crate, d.to_crate),
        ),
    decreases deps.len(),
{
    reveal(Seq::filter);
    if deps.len() > 0 {
        law_blocked_deps_are_named(deps.drop_last(), eco);
    }
}

/// Unpatching takes the path of each dependency that has a version too, in whichever section, and
/// leaves every dependency alone that has none or that it was not given.
pub proof fn law_unpatching_takes_dual_paths(
    node: Node,
    deps: Seq<DepModel>,
    section: DepSection,
    name: Seq<char>,
)
    ensures
        ({
            let before = manifest::dep_at(node, section.label(), name);
            let after = manifest::dep_at(unpatched(node, deps).node, section.label(), name);
            if exists|i: int|
                0 <= i < deps.len() && (#[trigger] deps[i]).section.label() == section.label()
                    && deps[i].to_crate == name && deps[i].has_path && deps[i].has_version {
                after == match before {
                    Some(d) => if d.is_tabular() && d.has("path"@) {
                        Some(d.without("path"@))
                    } else {
                        Some(d)
                    },
                    None => None,
                }
            } else {
                after == before
            }
        }),
    decreases deps.len(),
{
    if deps.len() > 0 {
        let rest = deps.drop_last();
        let last = deps.last();
        law_unpatching_takes_dual_paths(node, rest, section, name);
        let hit = exists|i: int|
            0 <= i < deps.len() && (#[trigger] deps[i]).section.label() == section.label()
                && deps[i].to_crate == name && deps[i].has_path && deps[i].has_version;
        let hit_before = exists|i: int|
            0 <= i < rest.len() && (#[trigger] rest[i]).section.label() == section.label()
                && rest[i].to_crate == name && rest[i].has_path && rest[i].has_version;
        let at_last = last.section.label() == section.label() && last.to_crate == name
            && last.has_path && last.has_version;
        assert(deps[deps.len() - 1] == last);
        if hit_before {
            let i = choose|i: int|
                0 <= i < rest.len() && (#[trigger] rest[i]).section.label() == section.label()
                    && rest[i].to_crate == name && rest[i].has_path && rest[i].has_version;
            assert(deps[i] == rest[i]);
        }
        if hit && !at_last {
            let i = choose|i: int|
                0 <= i < deps.len() && (#[trigger] deps[i]).section.label() == section.label()
                    && deps[i].to_crate == name && deps[i].has_path && deps[i].has_version;
            assert(rest[i] == deps[i]);
        }
        if let Some(d) = manifest::dep_at(node, section.label(), name) {
            assert(!d.without("path"@).has("path"@));
        }
        let mid = unpatched(node, rest).node;
        if !at_last && last.has_path && last.has_version {
            manifest::law_edits_are_local(mid, last.section.label(), last.to_crate, name);
        }
    }
}

/// Patching gives each target that can hold a path the one that leads to its directory and leaves
/// every other dependency alone.
pub proof fn law_patching_touches_targets_only(
    node: Node,
    from: Seq<char>,
    targets: Seq<TargetModel>,
    section: Seq<char>,
    name: Seq<char>,
)
    requires
        forall|i: int|
            0 <= i < targets.len() ==> (#[trigger] targets[i]).section.label() != section
                || targets[i].name != name,
    ensures
        manifest::dep_at(patched(node, from, targets).node, section, name) == manifest::dep_at(
            node,
            section,
            name,
        ),
    decreases targets.len(),
{
    if targets.len() > 0 {
        let rest = targets.drop_last();
        let t = targets.last();
        assert forall|i: int| 0 <= i < rest.len() implies (#[trigger] rest[i]).section.label()
            != section || rest[i].name != name by {
            assert(rest[i] == targets[i]);
        }
        law_patching_touches_targets_only(node, from, rest, section, name);
        assert(targets[targets.len() - 1] == t);
        manifest::law_edits_are_local(
            patched(node, from, rest).node,
            t.section.label(),
            t.name,
            path::relative(from, t.dir),
        );
    }
}

/// Patching changes nothing of a dependency but its path, and neither adds nor deletes one.
pub proof fn law_patching_keeps_all_else(
    node: Node,
    from: Seq<char>,
    targets: Seq<TargetModel>,
    section: Seq<char>,
    name: Seq<char>,
    key: Seq<char>,
)
    requires
        key != "path"@,
    ensures
        ({
            let was = manifest::dep_at(node, section, name);
            let now = manifest::dep_at(patched(node, from, targets).node, section, name);
            &&& was is Some <==> now is Some
            &&& was is Some && was.unwrap().is_tabular() ==> now.unwrap().is_tabular()
                && manifest::same_entry(was.unwrap(), now.unwrap(), key)
            &&& was is Some && was.unwrap() is Text ==> now == was || manifest::entry_is(
                now.unwrap(),
                "version"@,
                was.unwrap()->Text_0,
            )
        }),
    decreases targets.len(),
{
    if targets.len() > 0 {
        let rest = targets.drop_last();
        let t = targets.last();
        law_patching_keeps_all_else(node, from, rest, section, name, key);
        let before = patched(node, from, rest).node;
        let p = path::relative(from, t.dir);
        manifest::law_edits_are_local(before, t.section.label(), t.name, p);
        manifest::law_path_is_set(before, t.section.label(), t.name, p, key);
        manifest::law_path_is_set(before, t.section.label(), t.name, p, "version"@);
        reveal_strlit("version");
        reveal_strlit("path");
        assert("version"@.len() != "path"@.len());
    }
}

} // verus!
