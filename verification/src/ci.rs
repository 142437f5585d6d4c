//! Preparing manifests for CI: paths become git URLs or versions, or go.

use toml_edit::DocumentMut;
use vstd::prelude::*;
use vstd::string::*;

use crate::config::{CiCrateOverride, CiStrategy, MergedCiOverride, SuperworkConfig};
use crate::discover;
use crate::discover::{Ecosystem, InternalDep};
use crate::group;
use crate::manifest;
use crate::manifest::Node;
use crate::path;
use crate::text;
use crate::text_map::TextMap;
use crate::value;
use crate::value::Toml;

verus! {

broadcast use {text::lemma_texts_push, text::lemma_pairs_push};

// ── Counting ──

/// A count, as far as it can be held.
pub open spec fn capped(n: nat) -> nat {
    if n > usize::MAX {
        usize::MAX as nat
    } else {
        n
    }
}

/// A document and how many changes were made to it.
pub struct Edited {
    pub node: Node,
    pub changes: nat,
}

impl Edited {
    /// After an edit that says whether it changed anything.
    pub open spec fn after(self, edit: (Node, bool)) -> Edited {
        Edited {
            node: edit.0,
            changes: if edit.1 {
                self.changes + 1
            } else {
                self.changes
            },
        }
    }

    /// After an edit that made `n` changes.
    pub open spec fn after_many(self, node: Node, n: nat) -> Edited {
        Edited { node, changes: self.changes + n }
    }
}

/// A document before any edit.
pub open spec fn unedited(node: Node) -> Edited {
    Edited { node, changes: 0 }
}

fn count_if(changes: usize, changed: bool) -> (r: usize)
    ensures
        changed ==> r == capped((changes + 1) as nat),
        !changed ==> r == changes,
{
    if changed {
        changes.saturating_add(1)
    } else {
        changes
    }
}

// ── Git URLs of dependencies ──

/// The repo that a relative path leads into: the directory beside this one.
pub open spec fn sibling_of(p: Seq<char>) -> Option<Seq<char>> {
    let pieces = text::split(p, '/');
    if pieces.len() >= 2 && pieces[0] == ".."@ {
        Some("../"@ + pieces[1])
    } else {
        None
    }
}

/// The git URL of a dependency: that of its repo, where the crate is known; that of the repo
/// its path leads into, where there is one; else that of a repo of its name.
pub open spec fn git_url(
    dep: Seq<char>,
    dep_path: Option<Seq<char>>,
    eco: Ecosystem,
    config: SuperworkConfig,
) -> Option<Seq<char>> {
    if eco.crates.has(dep) {
        config.url_of(eco.crates@[dep].repo_dir@)
    } else if dep_path is Some && sibling_of(dep_path.unwrap()) is Some {
        config.url_of(sibling_of(dep_path.unwrap()).unwrap())
    } else {
        Some("https://github.com/"@ + config.described().default_github_org@ + "/"@ + dep)
    }
}

fn sibling_in(p: &str) -> (r: Option<String>)
    ensures
        text::opt(r) == sibling_of(p@),
{
    let pieces = text::split_on(p, '/');
    let ghost ps = text::split(p@, '/');
    assert(text::texts(pieces@).len() == pieces.len());
    if pieces.len() >= 2 {
        assert(ps[0] == pieces@[0]@ && ps[1] == pieces@[1]@);
        if text::same(pieces[0].as_str(), "..") {
            return Some(text::cat2("../", pieces[1].as_str()));
        }
    }
    None
}

/// Get the git URL for a dependency crate.
/// When the crate is in the ecosystem, uses its repo_dir for URL resolution.
/// When not (CI without full checkout), infers repo from the dep's path value.
pub fn dep_git_url(
    dep_name: &str,
    dep_path: Option<&str>,
    eco: &Ecosystem,
    config: &SuperworkConfig,
) -> (r: Option<String>)
    ensures
        text::opt(r) == git_url(
            dep_name@,
            (match dep_path {
                Some(p) => Some(p@),
                None => None,
            }),
            *eco,
            *config,
        ),
{
    if let Some(info) = eco.crates.get(dep_name) {
        return config.github_url_for(info.repo_dir.as_str());
    }
    if let Some(p) = dep_path {
        if let Some(sibling) = sibling_in(p) {
            return config.github_url_for(sibling.as_str());
        }
    }
    Some(
        text::cat4(
            "https://github.com/",
            config.meta().default_github_org.as_str(),
            "/",
            dep_name,
        ),
    )
}

// ── A crate's own manifest ──

/// The inline settings of a crate.
pub open spec fn inline_of(eco: Ecosystem, crate_name: Seq<char>) -> Option<
    &'static CiCrateOverride,
> {
    if eco.crates.has(crate_name) {
        match eco.crates@[crate_name].inline_ci {
            Some(o) => Some(&o),
            None => None,
        }
    } else {
        None
    }
}

/// Whether two crates are known and lie in one repo.
pub open spec fn same_repo(eco: Ecosystem, a: Seq<char>, b: Seq<char>) -> bool {
    eco.crates.has(a) && eco.crates.has(b) && eco.crates@[a].repo_dir@ == eco.crates@[b].repo_dir@
}

/// Whether a dependency is to be transformed: one with a path, in this manifest, into another
/// repo.
pub open spec fn is_transformed(
    dep: InternalDep,
    manifest_path: Seq<char>,
    crate_name: Seq<char>,
    eco: Ecosystem,
) -> bool {
    dep.from_crate@ == crate_name && path::is_same(dep.manifest_path@, manifest_path)
        && dep.has_path && !same_repo(eco, crate_name, dep.to_crate@)
}

/// A document with a dependency deleted, and with it what `[features]` says of it.
pub open spec fn purged(e: Edited, dep: InternalDep) -> Edited {
    let one = e.after(manifest::dep_deleted(e.node, dep.section.label(), dep.to_crate@));
    let two = one.after_many(
        manifest::features_stripped(one.node, dep.to_crate@),
        manifest::referring_features(one.node, dep.to_crate@).len(),
    );
    if dep.dep_key@ != dep.to_crate@ {
        two.after_many(
            manifest::features_stripped(two.node, dep.dep_key@),
            manifest::referring_features(two.node, dep.dep_key@).len(),
        )
    } else {
        two
    }
}

/// A document with one dependency transformed by its strategy.
pub open spec fn dep_transformed(
    e: Edited,
    dep: InternalDep,
    strategy: CiStrategy,
    url: Option<Seq<char>>,
) -> Edited {
    match strategy {
        CiStrategy::GitUrl => match url {
            Some(u) => e.after(
                manifest::path_replaced(e.node, dep.section.label(), dep.to_crate@, u),
            ),
            None => e,
        },
        CiStrategy::StripPath => e.after(
            manifest::path_removed(e.node, dep.section.label(), dep.to_crate@),
        ),
        CiStrategy::Delete => purged(e, dep),
    }
}

/// What is to be said of a dependency while it is transformed.
pub open spec fn dep_warning(
    dep: InternalDep,
    strategy: CiStrategy,
    url: Option<Seq<char>>,
    crate_name: Seq<char>,
) -> Option<Seq<char>> {
    match strategy {
        CiStrategy::GitUrl => if url is None {
            Some(
                "no git URL for "@ + dep.to_crate@ + " (dep of "@ + crate_name + "), skipping"@,
            )
        } else {
            None
        },
        CiStrategy::StripPath => if !dep.has_version {
            Some(
                "strip_path on "@ + crate_name + "->"@ + dep.to_crate@
                    + " but no version specified"@,
            )
        } else {
            None
        },
        CiStrategy::Delete => None,
    }
}

/// The strategy for a dependency of a crate.
pub open spec fn strategy_for(
    dep: InternalDep,
    crate_name: Seq<char>,
    eco: Ecosystem,
    config: SuperworkConfig,
) -> CiStrategy {
    config.strategy_of(crate_name, dep.to_crate@, inline_of(eco, crate_name))
}

/// The git URL for a dependency.
pub open spec fn url_for(dep: InternalDep, eco: Ecosystem, config: SuperworkConfig) -> Option<
    Seq<char>,
> {
    git_url(dep.to_crate@, text::opt(dep.path_value), eco, config)
}

/// A document with the dependencies of a list transformed.
pub open spec fn deps_transformed(
    node: Node,
    deps: Seq<InternalDep>,
    manifest_path: Seq<char>,
    crate_name: Seq<char>,
    eco: Ecosystem,
    config: SuperworkConfig,
) -> Edited
    decreases deps.len(),
{
    if deps.len() == 0 {
        unedited(node)
    } else {
        let before = deps_transformed(
            node,
            deps.drop_last(),
            manifest_path,
            crate_name,
            eco,
            config,
        );
        let dep = deps.last();
        if is_transformed(dep, manifest_path, crate_name, eco) {
            dep_transformed(
                before,
                dep,
                strategy_for(dep, crate_name, eco, config),
                url_for(dep, eco, config),
            )
        } else {
            before
        }
    }
}

/// What is to be said of the dependencies of a list.
pub open spec fn dep_warnings(
    deps: Seq<InternalDep>,
    manifest_path: Seq<char>,
    crate_name: Seq<char>,
    eco: Ecosystem,
    config: SuperworkConfig,
) -> Seq<Seq<char>>
    decreases deps.len(),
{
    if deps.len() == 0 {
        Seq::empty()
    } else {
        let before = dep_warnings(deps.drop_last(), manifest_path, crate_name, eco, config);
        let dep = deps.last();
        let warning = dep_warning(
            dep,
            strategy_for(dep, crate_name, eco, config),
            url_for(dep, eco, config),
            crate_name,
        );
        if is_transformed(dep, manifest_path, crate_name, eco) && warning is Some {
            before.push(warning.unwrap())
        } else {
            before
        }
    }
}

/// A document without the sections of a list.
pub open spec fn sections_deleted(e: Edited, sections: Seq<String>) -> Edited
    decreases sections.len(),
{
    if sections.len() == 0 {
        e
    } else {
        let before = sections_deleted(e, sections.drop_last());
        before.after(manifest::section_deleted(before.node, sections.last()@))
    }
}

/// The sections to delete from a crate's own manifest.
pub open spec fn own_sections(
    crate_name: Seq<char>,
    eco: Ecosystem,
    config: SuperworkConfig,
) -> Seq<String> {
    match config.override_of(crate_name, inline_of(eco, crate_name)) {
        Some(o) => o.sections(),
        None => Seq::empty(),
    }
}

/// A crate's own manifest, prepared for CI.
pub open spec fn own_transformed(
    node: Node,
    manifest_path: Seq<char>,
    crate_name: Seq<char>,
    eco: Ecosystem,
    config: SuperworkConfig,
) -> Edited {
    sections_deleted(
        deps_transformed(node, eco.deps@, manifest_path, crate_name, eco, config),
        own_sections(crate_name, eco, config),
    )
}

fn delete_listed(doc: &mut DocumentMut, sections: &[String], changes: usize, e: Ghost<Edited>) -> (r:
    usize)
    requires
        e@.node == manifest::doc_node(*old(doc)),
        changes == capped(e@.changes),
    ensures
        manifest::keeps_root(manifest::doc_node(*old(doc)), manifest::doc_node(*final(doc))),
        manifest::doc_node(*final(doc)) == sections_deleted(e@, sections@).node,
        r == capped(sections_deleted(e@, sections@).changes),
{
    let mut changes = changes;
    let mut i: usize = 0;
    assert(sections@.take(0) =~= Seq::<String>::empty());
    while i < sections.len()
        invariant
            i <= sections.len(),
            manifest::keeps_root(manifest::doc_node(*old(doc)), manifest::doc_node(*doc)),
            manifest::doc_node(*doc) == sections_deleted(e@, sections@.take(i as int)).node,
            changes == capped(sections_deleted(e@, sections@.take(i as int)).changes),
        decreases sections.len() - i,
    {
        assert(sections@.take(i + 1).drop_last() =~= sections@.take(i as int));
        let changed = manifest::delete_section(doc, sections[i].as_str());
        changes = count_if(changes, changed);
        i += 1;
    }
    assert(sections@.take(i as int) =~= sections@);
    changes
}

fn purge(doc: &mut DocumentMut, dep: &InternalDep, changes: usize, e: Ghost<Edited>) -> (r: usize)
    requires
        e@.node == manifest::doc_node(*old(doc)),
        changes == capped(e@.changes),
    ensures
        manifest::keeps_root(manifest::doc_node(*old(doc)), manifest::doc_node(*final(doc))),
        manifest::doc_node(*final(doc)) == purged(e@, *dep).node,
        r == capped(purged(e@, *dep).changes),
{
    let deleted = manifest::delete_dep(doc, dep.section.name(), dep.to_crate.as_str());
    let mut changes = count_if(changes, deleted);
    let n: usize = manifest::strip_dep_from_features(doc, dep.to_crate.as_str());
    changes = changes.saturating_add(n);
    if !text::same(dep.dep_key.as_str(), dep.to_crate.as_str()) {
        let m: usize = manifest::strip_dep_from_features(doc, dep.dep_key.as_str());
        changes = changes.saturating_add(m);
    }
    changes
}

/// What came of preparing a manifest.
pub struct Prepared {
    /// How many changes were made.
    pub changes: usize,
    /// What is to be said of dependencies that could not be prepared as asked.
    pub warnings: Vec<String>,
}

fn is_wanted(dep: &InternalDep, manifest_path: &str, crate_name: &str, eco: &Ecosystem) -> (r: bool)
    ensures
        r == is_transformed(*dep, manifest_path@, crate_name@, *eco),
{
    if !text::same(dep.from_crate.as_str(), crate_name) || !dep.has_path || !path::same_path(
        dep.manifest_path.as_str(),
        manifest_path,
    ) {
        return false;
    }
    match (eco.crates.get(crate_name), eco.crates.get(dep.to_crate.as_str())) {
        (Some(a), Some(b)) => !text::same(a.repo_dir.as_str(), b.repo_dir.as_str()),
        _ => true,
    }
}

/// Apply CI transforms to a crate's own manifest.
pub fn apply_ci_transforms(
    doc: &mut DocumentMut,
    manifest_path: &str,
    crate_name: &str,
    eco: &Ecosystem,
    config: &SuperworkConfig,
) -> (r: Prepared)
    ensures
        manifest::keeps_root(manifest::doc_node(*old(doc)), manifest::doc_node(*final(doc))),
        manifest::doc_node(*final(doc)) == own_transformed(
            manifest::doc_node(*old(doc)),
            manifest_path@,
            crate_name@,
            *eco,
            *config,
        ).node,
        r.changes == capped(
            own_transformed(
                manifest::doc_node(*old(doc)),
                manifest_path@,
                crate_name@,
                *eco,
                *config,
            ).changes,
        ),
        text::texts(r.warnings@) == dep_warnings(
            eco.deps@,
            manifest_path@,
            crate_name@,
            *eco,
            *config,
        ),
{
    let ghost start = manifest::doc_node(*old(doc));
    let inline = match eco.crates.get(crate_name) {
        Some(c) => match &c.inline_ci {
            Some(o) => Some(o),
            None => None,
        },
        None => None,
    };
    assert(inline == inline_of(*eco, crate_name@));
    let mut changes: usize = 0;
    let mut warnings: Vec<String> = Vec::new();
    let mut i: usize = 0;
    assert(eco.deps@.take(0) =~= Seq::<InternalDep>::empty());
    assert(text::texts(warnings@) =~= Seq::<Seq<char>>::empty());
    while i < eco.deps.len()
        invariant
            i <= eco.deps.len(),
            manifest::keeps_root(manifest::doc_node(*old(doc)), manifest::doc_node(*doc)),
            manifest::doc_node(*doc) == deps_transformed(
                start,
                eco.deps@.take(i as int),
                manifest_path@,
                crate_name@,
                *eco,
                *config,
            ).node,
            changes == capped(
                deps_transformed(
                    start,
                    eco.deps@.take(i as int),
                    manifest_path@,
                    crate_name@,
                    *eco,
                    *config,
                ).changes,
            ),
            text::texts(warnings@) == dep_warnings(
                eco.deps@.take(i as int),
                manifest_path@,
                crate_name@,
                *eco,
                *config,
            ),
        decreases eco.deps.len() - i,
    {
        let ghost e = deps_transformed(
            start,
            eco.deps@.take(i as int),
            manifest_path@,
            crate_name@,
            *eco,
            *config,
        );
        assert(eco.deps@.take(i + 1).drop_last() =~= eco.deps@.take(i as int));
        let dep = &eco.deps[i];
        if is_wanted(dep, manifest_path, crate_name, eco) {
            let to = dep.to_crate.as_str();
            let section = dep.section.name();
            match config.ci_strategy_for(crate_name, to, inline) {
                CiStrategy::GitUrl => {
                    let dep_path = match &dep.path_value {
                        Some(p) => Some(p.as_str()),
                        None => None,
                    };
                    match dep_git_url(to, dep_path, eco, config) {
                        Some(url) => {
                            let changed = manifest::replace_path_with_git(
                                doc,
                                section,
                                to,
                                url.as_str(),
                            );
                            changes = count_if(changes, changed);
                        },
                        None => {
                            let mut warning = text::cat4(
                                "no git URL for ",
                                to,
                                " (dep of ",
                                crate_name,
                            );
                            warning.append("), skipping");
                            warnings.push(warning);
                        },
                    }
                },
                CiStrategy::StripPath => {
                    if !dep.has_version {
                        let mut warning = text::cat4("strip_path on ", crate_name, "->", to);
                        warning.append(" but no version specified");
                        warnings.push(warning);
                    }
                    let changed = manifest::remove_dep_path(doc, section, to);
                    changes = count_if(changes, changed);
                },
                CiStrategy::Delete => {
                    changes = purge(doc, dep, changes, Ghost(e));
                },
            }
        }
        i += 1;
    }
    assert(eco.deps@.take(i as int) =~= eco.deps@);
    let ghost e = deps_transformed(start, eco.deps@, manifest_path@, crate_name@, *eco, *config);
    if let Some(merged) = config.ci_override_for(crate_name, inline) {
        changes = delete_listed(doc, merged.delete_sections(), changes, Ghost(e));
    }
    Prepared { changes, warnings }
}

/// Whether a dependency of a document has a path.
pub open spec fn has_path_at(node: Node, section: Seq<char>, dep: Seq<char>) -> bool {
    manifest::dep_at(node, section, dep) is Some && manifest::dep_at(
        node,
        section,
        dep,
    ).unwrap().has("path"@)
}

/// Deleting a section gives no dependency a path.
proof fn lemma_section_keeps_pathless(
    sections: Seq<String>,
    e: Edited,
    section: Seq<char>,
    dep: Seq<char>,
)
    requires
        !has_path_at(e.node, section, dep),
    ensures
        !has_path_at(sections_deleted(e, sections).node, section, dep),
    decreases sections.len(),
{
    if sections.len() > 0 {
        lemma_section_keeps_pathless(sections.drop_last(), e, section, dep);
    }
}

/// Transforming a dependency gives no dependency a path, and takes its own.
proof fn lemma_transform_keeps_pathless(
    e: Edited,
    other: InternalDep,
    strategy: CiStrategy,
    url: Option<Seq<char>>,
    section: Seq<char>,
    dep: Seq<char>,
)
    requires
        section != "features"@,
    ensures
        !has_path_at(e.node, section, dep) ==> !has_path_at(
            dep_transformed(e, other, strategy, url).node,
            section,
            dep,
        ),
        other.section.label() == section && other.to_crate@ == dep && (strategy
            != CiStrategy::GitUrl || url is Some) ==> !has_path_at(
            dep_transformed(e, other, strategy, url).node,
            section,
            dep,
        ),
{
    reveal_strlit("git");
    reveal_strlit("path");
    assert("git"@.len() != "path"@.len());
    if strategy == CiStrategy::Delete {
        let one = e.after(manifest::dep_deleted(e.node, other.section.label(), other.to_crate@));
        let two = manifest::features_stripped(one.node, other.to_crate@);
        assert(manifest::dep_at(two, section, dep) == manifest::dep_at(one.node, section, dep));
        let three = manifest::features_stripped(two, other.dep_key@);
        assert(manifest::dep_at(three, section, dep) == manifest::dep_at(two, section, dep));
    }
}

proof fn lemma_labels_are_no_features(section: discover::DepSection)
    ensures
        section.label() != "features"@,
{
    reveal_strlit("features");
    reveal_strlit("dependencies");
    reveal_strlit("dev-dependencies");
    reveal_strlit("build-dependencies");
    reveal_strlit("workspace.dependencies");
    assert(section.label().len() != "features"@.len());
}

proof fn lemma_no_path_left(
    node: Node,
    deps: Seq<InternalDep>,
    i: int,
    manifest_path: Seq<char>,
    crate_name: Seq<char>,
    eco: Ecosystem,
    config: SuperworkConfig,
)
    requires
        0 <= i < deps.len(),
        is_transformed(deps[i], manifest_path, crate_name, eco),
        strategy_for(deps[i], crate_name, eco, config) != CiStrategy::GitUrl || url_for(
            deps[i],
            eco,
            config,
        ) is Some,
    ensures
        !has_path_at(
            deps_transformed(node, deps, manifest_path, crate_name, eco, config).node,
            deps[i].section.label(),
            deps[i].to_crate@,
        ),
    decreases deps.len(),
{
    let last = deps.last();
    let before = deps_transformed(
        node,
        deps.drop_last(),
        manifest_path,
        crate_name,
        eco,
        config,
    );
    if i < deps.len() - 1 {
        assert(deps.drop_last()[i] == deps[i]);
        lemma_no_path_left(
            node,
            deps.drop_last(),
            i,
            manifest_path,
            crate_name,
            eco,
            config,
        );
    }
    lemma_labels_are_no_features(deps[i].section);
    lemma_transform_keeps_pathless(
        before,
        last,
        strategy_for(last, crate_name, eco, config),
        url_for(last, eco, config),
        deps[i].section.label(),
        deps[i].to_crate@,
    );
}

/// Once a manifest is prepared no dependency that it declares by a path into another repo has that
/// path left there, in whichever section it stands, unless it is to get a git URL and there is
/// none.
pub proof fn law_no_path_left(
    node: Node,
    i: int,
    manifest_path: Seq<char>,
    crate_name: Seq<char>,
    eco: Ecosystem,
    config: SuperworkConfig,
)
    requires
        0 <= i < eco.deps@.len(),
        eco.deps@[i].from_crate@ == crate_name,
        path::is_same(eco.deps@[i].manifest_path@, manifest_path),
        eco.deps@[i].has_path,
        !eco.crates.has(crate_name) || !eco.crates.has(eco.deps@[i].to_crate@)
            || eco.crates@[crate_name].repo_dir@ != eco.crates@[eco.deps@[i].to_crate@].repo_dir@,
    ensures
        ({
            let dep = eco.deps@[i];
            let prepared = own_transformed(node, manifest_path, crate_name, eco, config).node;
            let left = manifest::dep_at(prepared, dep.section.label(), dep.to_crate@);
            ||| left is None
            ||| !left.unwrap().has("path"@)
            ||| config.strategy_of(crate_name, dep.to_crate@, inline_of(eco, crate_name))
                == CiStrategy::GitUrl && git_url(
                dep.to_crate@,
                text::opt(dep.path_value),
                eco,
                config,
            ) is None
        }),
{
    if strategy_for(eco.deps@[i], crate_name, eco, config) != CiStrategy::GitUrl || url_for(
        eco.deps@[i],
        eco,
        config,
    ) is Some {
        lemma_no_path_left(node, eco.deps@, i, manifest_path, crate_name, eco, config);
        lemma_section_keeps_pathless(
            own_sections(crate_name, eco, config),
            deps_transformed(node, eco.deps@, manifest_path, crate_name, eco, config),
            eco.deps@[i].section.label(),
            eco.deps@[i].to_crate@,
        );
    }
}

// ── A workspace's manifest ──

/// A document without the workspace members of a list.
pub open spec fn members_removed(e: Edited, members: Seq<String>) -> Edited
    decreases members.len(),
{
    if members.len() == 0 {
        e
    } else {
        let before = members_removed(e, members.drop_last());
        before.after(manifest::member_removed(before.node, members.last()@))
    }
}

/// A document without the entries of `[workspace.dependencies]` of a list.
pub open spec fn workspace_deps_removed(e: Edited, deps: Seq<String>) -> Edited
    decreases deps.len(),
{
    if deps.len() == 0 {
        e
    } else {
        let before = workspace_deps_removed(e, deps.drop_last());
        before.after(manifest::workspace_dep_deleted(before.node, deps.last()@))
    }
}

/// A workspace's manifest without what the settings delete.
pub open spec fn workspace_transformed(node: Node, ovr: MergedCiOverride) -> Edited {
    sections_deleted(
        workspace_deps_removed(
            members_removed(unedited(node), ovr.members()),
            ovr.workspace_deps(),
        ),
        ovr.sections(),
    )
}

/// Apply workspace-level transforms (member removal, workspace dep removal, section deletion).
/// Returns the number of changes.
pub fn apply_workspace_transforms(doc: &mut DocumentMut, ovr: &MergedCiOverride) -> (r: usize)
    ensures
        manifest::keeps_root(manifest::doc_node(*old(doc)), manifest::doc_node(*final(doc))),
        manifest::doc_node(*final(doc)) == workspace_transformed(
            manifest::doc_node(*old(doc)),
            *ovr,
        ).node,
        r == capped(workspace_transformed(manifest::doc_node(*old(doc)), *ovr).changes),
{
    let ghost start = unedited(manifest::doc_node(*old(doc)));
    let mut changes: usize = 0;
    let members = ovr.delete_members();
    let mut i: usize = 0;
    assert(members@.take(0) =~= Seq::<String>::empty());
    while i < members.len()
        invariant
            i <= members.len(),
            manifest::keeps_root(manifest::doc_node(*old(doc)), manifest::doc_node(*doc)),
            manifest::doc_node(*doc) == members_removed(start, members@.take(i as int)).node,
            changes == capped(members_removed(start, members@.take(i as int)).changes),
        decreases members.len() - i,
    {
        assert(members@.take(i + 1).drop_last() =~= members@.take(i as int));
        let changed = manifest::remove_workspace_member(doc, members[i].as_str());
        changes = count_if(changes, changed);
        i += 1;
    }
    assert(members@.take(i as int) =~= members@);
    let ghost half = members_removed(start, members@);
    let deps = ovr.delete_workspace_deps();
    let mut j: usize = 0;
    assert(deps@.take(0) =~= Seq::<String>::empty());
    while j < deps.len()
        invariant
            j <= deps.len(),
            manifest::keeps_root(manifest::doc_node(*old(doc)), manifest::doc_node(*doc)),
            manifest::doc_node(*doc) == workspace_deps_removed(half, deps@.take(j as int)).node,
            changes == capped(workspace_deps_removed(half, deps@.take(j as int)).changes),
        decreases deps.len() - j,
    {
        assert(deps@.take(j + 1).drop_last() =~= deps@.take(j as int));
        let changed = manifest::remove_workspace_dep(doc, deps[j].as_str());
        changes = count_if(changes, changed);
        j += 1;
    }
    assert(deps@.take(j as int) =~= deps@);
    delete_listed(
        doc,
        ovr.delete_sections(),
        changes,
        Ghost(workspace_deps_removed(half, deps@)),
    )
}

/// Whether a path from a workspace leads out of it.
pub open spec fn leads_out(ws_dir: Seq<char>, p: Seq<char>) -> bool {
    !path::below(path::normal(path::joined(ws_dir, p)), path::normal(ws_dir))
}

/// The git URL for an entry of `[workspace.dependencies]`, where its path leads out.
pub open spec fn workspace_url(
    row: (String, Toml),
    ws_dir: Seq<char>,
    eco: Ecosystem,
    config: SuperworkConfig,
) -> Option<Seq<char>> {
    match discover::path_of(row.1) {
        Some(p) => if leads_out(ws_dir, p) {
            git_url(discover::package_of(row.1, row.0@), Some(p), eco, config)
        } else {
            None
        },
        None => None,
    }
}

/// The entries of `[workspace.dependencies]` that get a git URL, each with it.
pub open spec fn workspace_urls(
    rows: Seq<(String, Toml)>,
    ws_dir: Seq<char>,
    eco: Ecosystem,
    config: SuperworkConfig,
) -> Seq<(Seq<char>, Seq<char>)>
    decreases rows.len(),
{
    if rows.len() == 0 {
        Seq::empty()
    } else {
        let before = workspace_urls(rows.drop_last(), ws_dir, eco, config);
        match workspace_url(rows.last(), ws_dir, eco, config) {
            Some(u) => before.push((rows.last().0@, u)),
            None => before,
        }
    }
}

/// A document with git URLs for entries of `[workspace.dependencies]`.
pub open spec fn git_urls_set(node: Node, urls: Seq<(Seq<char>, Seq<char>)>) -> Edited
    decreases urls.len(),
{
    if urls.len() == 0 {
        unedited(node)
    } else {
        let before = git_urls_set(node, urls.drop_last());
        before.after(manifest::workspace_dep_git_set(before.node, urls.last().0, urls.last().1))
    }
}

/// A workspace's manifest with git URLs, and without patches where that changed anything.
pub open spec fn workspace_deps_transformed(node: Node, urls: Seq<(Seq<char>, Seq<char>)>) -> Edited {
    let set = git_urls_set(node, urls);
    if set.changes > 0 {
        set.after(manifest::section_deleted(set.node, "patch.crates-io"@))
    } else {
        set
    }
}

fn url_of_row(
    row: &(String, Toml),
    ws_dir: &str,
    eco: &Ecosystem,
    config: &SuperworkConfig,
) -> (r: Option<String>)
    ensures
        text::opt(r) == workspace_url(*row, ws_dir@, *eco, *config),
{
    match value::as_str(row.1.get("path")) {
        None => None,
        Some(p) => {
            let resolved = path::normalize_path(path::join_path(ws_dir, p.as_str()).as_str());
            let base = path::normalize_path(ws_dir);
            if path::strip_base(resolved.as_str(), base.as_str()).is_some() {
                return None;
            }
            let name = discover::package_name(&row.1, row.0.as_str());
            dep_git_url(name.as_str(), Some(p.as_str()), eco, config)
        },
    }
}

/// The entries of `[workspace.dependencies]` with a path out of the workspace, each with the
/// git URL that is to replace it.
pub fn workspace_git_urls(
    parsed: &Toml,
    ws_dir: &str,
    eco: &Ecosystem,
    config: &SuperworkConfig,
) -> (r: Vec<(String, String)>)
    ensures
        text::pairs(r@) == (match discover::workspace_rows(*parsed) {
            Some(rows) => workspace_urls(rows, ws_dir@, *eco, *config),
            None => Seq::empty(),
        }),
{
    let mut out: Vec<(String, String)> = Vec::new();
    assert(text::pairs(out@) =~= Seq::<(Seq<char>, Seq<char>)>::empty());
    if let Some(rows) = discover::workspace_dep_table(parsed) {
        let mut i: usize = 0;
        assert(rows@.take(0) =~= Seq::<(String, Toml)>::empty());
        while i < rows.len()
            invariant
                i <= rows.len(),
                text::pairs(out@) == workspace_urls(rows@.take(i as int), ws_dir@, *eco, *config),
            decreases rows.len() - i,
        {
            assert(rows@.take(i + 1).drop_last() =~= rows@.take(i as int));
            if let Some(url) = url_of_row(&rows[i], ws_dir, eco, config) {
                out.push((rows[i].0.clone(), url));
            }
            i += 1;
        }
        assert(rows@.take(i as int) =~= rows@);
    }
    out
}

/// Put git URLs into `[workspace.dependencies]`. Returns the number of changes.
pub fn apply_workspace_urls(doc: &mut DocumentMut, urls: &Vec<(String, String)>) -> (r: usize)
    ensures
        manifest::keeps_root(manifest::doc_node(*old(doc)), manifest::doc_node(*final(doc))),
        manifest::doc_node(*final(doc)) == workspace_deps_transformed(
            manifest::doc_node(*old(doc)),
            text::pairs(urls@),
        ).node,
        r == capped(
            workspace_deps_transformed(
                manifest::doc_node(*old(doc)),
                text::pairs(urls@),
            ).changes,
        ),
{
    let ghost start = manifest::doc_node(*old(doc));
    let ghost us = text::pairs(urls@);
    let mut changes: usize = 0;
    let mut i: usize = 0;
    assert(us.take(0) =~= Seq::<(Seq<char>, Seq<char>)>::empty());
    while i < urls.len()
        invariant
            i <= urls.len(),
            us == text::pairs(urls@),
            manifest::keeps_root(manifest::doc_node(*old(doc)), manifest::doc_node(*doc)),
            manifest::doc_node(*doc) == git_urls_set(start, us.take(i as int)).node,
            changes == capped(git_urls_set(start, us.take(i as int)).changes),
        decreases urls.len() - i,
    {
        assert(us.take(i + 1).drop_last() =~= us.take(i as int));
        assert(us.take(i + 1).last() == (urls@[i as int].0@, urls@[i as int].1@));
        let changed = manifest::set_workspace_dep_git(
            doc,
            urls[i].0.as_str(),
            urls[i].1.as_str(),
        );
        changes = count_if(changes, changed);
        i += 1;
    }
    assert(us.take(i as int) =~= us);
    if changes > 0 {
        let changed = manifest::delete_section(doc, "patch.crates-io");
        changes = count_if(changes, changed);
    }
    changes
}

/// What came of transforming `[workspace.dependencies]`.
pub struct WorkspaceDeps {
    /// The manifest, where it changed.
    pub doc: Option<DocumentMut>,
    pub changes: usize,
    /// The entries with a path out of the workspace.
    pub names: Vec<String>,
}

/// The entries to give a git URL in a manifest's text.
pub open spec fn urls_in(
    parsed: Toml,
    ws_root: Seq<char>,
    eco: Ecosystem,
    config: SuperworkConfig,
) -> Seq<(Seq<char>, Seq<char>)> {
    match discover::workspace_rows(parsed) {
        Some(rows) => workspace_urls(rows, path::parent(ws_root).unwrap(), eco, config),
        None => Seq::empty(),
    }
}

fn firsts(v: &Vec<(String, String)>) -> (r: Vec<String>)
    ensures
        text::texts(r@) == text::pairs(v@).map_values(|p: (Seq<char>, Seq<char>)| p.0),
{
    let ghost all = text::pairs(v@).map_values(|p: (Seq<char>, Seq<char>)| p.0);
    let mut out: Vec<String> = Vec::new();
    let mut i: usize = 0;
    assert(text::texts(out@) =~= all.take(0));
    while i < v.len()
        invariant
            i <= v.len(),
            all == text::pairs(v@).map_values(|p: (Seq<char>, Seq<char>)| p.0),
            text::texts(out@) == all.take(i as int),
        decreases v.len() - i,
    {
        out.push(v[i].0.clone());
        assert(all.take(i + 1) =~= all.take(i as int).push(v@[i as int].0@));
        i += 1;
    }
    assert(all.take(i as int) =~= all);
    out
}

/// Transform [workspace.dependencies] path entries to git URLs.
/// Only transforms deps that reference crates in OTHER repos (not intra-workspace paths).
pub fn transform_workspace_deps(
    ws_root: &str,
    content: &str,
    eco: &Ecosystem,
    config: &SuperworkConfig,
) -> (r: Result<WorkspaceDeps, String>)
    requires
        path::parent(ws_root@) is Some,
    ensures
        match value::parsed_toml(content@) {
            Err(e) => r is Err && r->Err_0@ == value::parsing_message(ws_root@, e),
            Ok(parsed) => {
                let urls = urls_in(parsed, ws_root@, *eco, *config);
                if urls.len() == 0 {
                    r is Ok && r->Ok_0.doc is None && r->Ok_0.changes == 0
                        && r->Ok_0.names@.len() == 0
                } else {
                    match manifest::parsed_document(content@) {
                        Err(e) => r is Err && r->Err_0@ == value::parsing_message(ws_root@, e),
                        Ok(node) => {
                            let e = workspace_deps_transformed(node, urls);
                            &&& r is Ok
                            &&& r->Ok_0.changes == capped(e.changes)
                            &&& text::texts(r->Ok_0.names@) == urls.map_values(
                                |p: (Seq<char>, Seq<char>)| p.0,
                            )
                            &&& r->Ok_0.doc is Some == (e.changes > 0)
                            &&& r->Ok_0.doc is Some ==> manifest::doc_node(r->Ok_0.doc.unwrap())
                                == e.node && e.node is Table
                        },
                    }
                }
            },
        },
{
    let parsed = discover::parse_manifest(ws_root, content)?;
    let urls = match path::parent_of(ws_root) {
        Some(ws_dir) => workspace_git_urls(&parsed, ws_dir.as_str(), eco, config),
        None => Vec::new(),
    };
    assert(text::pairs(urls@).len() == urls.len());
    if urls.len() == 0 {
        return Ok(WorkspaceDeps { doc: None, changes: 0, names: Vec::new() });
    }
    let mut doc = manifest::read_manifest(ws_root, content)?;
    let changes: usize = apply_workspace_urls(&mut doc, &urls);
    let names = firsts(&urls);
    if changes > 0 {
        Ok(WorkspaceDeps { doc: Some(doc), changes, names })
    } else {
        Ok(WorkspaceDeps { doc: None, changes, names })
    }
}

// ── A member's manifest ──

/// The sections in which a member declares its dependencies.
pub open spec fn member_section(i: int) -> Seq<char> {
    if i == 0 {
        "dependencies"@
    } else if i == 1 {
        "dev-dependencies"@
    } else {
        "build-dependencies"@
    }
}

fn section_name(i: usize) -> (r: &'static str)
    requires
        i < 3,
    ensures
        r@ == member_section(i as int),
{
    if i == 0 {
        "dependencies"
    } else if i == 1 {
        "dev-dependencies"
    } else {
        "build-dependencies"
    }
}

/// A document with a dependency deleted from the first `n` sections.
pub open spec fn deleted_in(e: Edited, dep: Seq<char>, n: nat) -> Edited
    decreases n,
{
    if n == 0 {
        e
    } else {
        let before = deleted_in(e, dep, (n - 1) as nat);
        before.after(manifest::dep_deleted(before.node, member_section(n - 1), dep))
    }
}

/// A document with the dependencies of a list deleted.
pub open spec fn deps_deleted(e: Edited, deps: Seq<String>) -> Edited
    decreases deps.len(),
{
    if deps.len() == 0 {
        e
    } else {
        deleted_in(deps_deleted(e, deps.drop_last()), deps.last()@, 3)
    }
}

/// A document with a feature stripped in the first `n` sections.
pub open spec fn stripped_in(e: Edited, feature: Seq<char>, n: nat) -> Edited
    decreases n,
{
    if n == 0 {
        e
    } else {
        let before = stripped_in(e, feature, (n - 1) as nat);
        before.after_many(
            manifest::section_stripped(before.node, member_section(n - 1), feature),
            manifest::featured_deps(before.node, member_section(n - 1), feature).len(),
        )
    }
}

/// A document with the features of a list stripped.
pub open spec fn features_stripped(e: Edited, features: Seq<String>) -> Edited
    decreases features.len(),
{
    if features.len() == 0 {
        e
    } else {
        stripped_in(features_stripped(e, features.drop_last()), features.last()@, 3)
    }
}

/// A document with a value set in the first `n` sections.
pub open spec fn value_set_in(e: Edited, key: Seq<char>, raw: Seq<char>, n: nat) -> Edited
    decreases n,
{
    if n == 0 {
        e
    } else {
        let before = value_set_in(e, key, raw, (n - 1) as nat);
        before.after(manifest::value_set(before.node, member_section(n - 1), key, raw))
    }
}

/// A document with the first `n` values of a map set.
pub open spec fn values_set(e: Edited, blanks: TextMap<String>, n: nat) -> Edited
    decreases n,
{
    if n == 0 {
        e
    } else {
        value_set_in(
            values_set(e, blanks, (n - 1) as nat),
            blanks.keys()[n - 1],
            blanks.values()[n - 1]@,
            3,
        )
    }
}

/// The features to strip from a member.
pub open spec fn features_for(ovr: MergedCiOverride, member: Seq<char>) -> Seq<String> {
    if ovr.chosen() is Some && ovr.chosen().unwrap().strip_features.has(member) {
        ovr.chosen().unwrap().strip_features@[member]@
    } else {
        Seq::empty()
    }
}

/// A member's manifest, prepared for CI.
pub open spec fn member_transformed(
    node: Node,
    member: Seq<char>,
    delete_deps: Seq<String>,
    ovr: MergedCiOverride,
) -> Edited {
    let stripped = features_stripped(
        deps_deleted(unedited(node), delete_deps),
        features_for(ovr, member),
    );
    if ovr.chosen() is Some && ovr.chosen().unwrap().blank_keys.has(member) {
        let blanks = ovr.chosen().unwrap().blank_keys@[member];
        values_set(stripped, blanks, blanks.keys().len())
    } else {
        stripped
    }
}

/// Delete dependencies from a manifest.
pub(crate) fn delete_deps_in(
    doc: &mut DocumentMut,
    dep: &str,
    changes: usize,
    e: Ghost<Edited>,
) -> (r: usize)
    requires
        e@.node == manifest::doc_node(*old(doc)),
        changes == capped(e@.changes),
    ensures
        manifest::keeps_root(manifest::doc_node(*old(doc)), manifest::doc_node(*final(doc))),
        manifest::doc_node(*final(doc)) == deleted_in(e@, dep@, 3).node,
        r == capped(deleted_in(e@, dep@, 3).changes),
{
    let mut changes = changes;
    let mut i: usize = 0;
    while i < 3
        invariant
            i <= 3,
            manifest::keeps_root(manifest::doc_node(*old(doc)), manifest::doc_node(*doc)),
            manifest::doc_node(*doc) == deleted_in(e@, dep@, i as nat).node,
            changes == capped(deleted_in(e@, dep@, i as nat).changes),
        decreases 3 - i,
    {
        let changed = manifest::delete_dep(doc, section_name(i), dep);
        changes = count_if(changes, changed);
        i += 1;
    }
    changes
}

fn strip_feature_in(doc: &mut DocumentMut, feature: &str, changes: usize, e: Ghost<Edited>) -> (r:
    usize)
    requires
        e@.node == manifest::doc_node(*old(doc)),
        changes == capped(e@.changes),
    ensures
        manifest::keeps_root(manifest::doc_node(*old(doc)), manifest::doc_node(*final(doc))),
        manifest::doc_node(*final(doc)) == stripped_in(e@, feature@, 3).node,
        r == capped(stripped_in(e@, feature@, 3).changes),
{
    let mut changes = changes;
    let mut i: usize = 0;
    while i < 3
        invariant
            i <= 3,
            manifest::keeps_root(manifest::doc_node(*old(doc)), manifest::doc_node(*doc)),
            manifest::doc_node(*doc) == stripped_in(e@, feature@, i as nat).node,
            changes == capped(stripped_in(e@, feature@, i as nat).changes),
        decreases 3 - i,
    {
        let n: usize = manifest::strip_section_feature(doc, section_name(i), feature);
        changes = changes.saturating_add(n);
        i += 1;
    }
    changes
}

fn set_value_in(
    doc: &mut DocumentMut,
    key: &str,
    raw: &str,
    changes: usize,
    e: Ghost<Edited>,
) -> (r: usize)
    requires
        e@.node == manifest::doc_node(*old(doc)),
        changes == capped(e@.changes),
    ensures
        manifest::keeps_root(manifest::doc_node(*old(doc)), manifest::doc_node(*final(doc))),
        manifest::doc_node(*final(doc)) == value_set_in(e@, key@, raw@, 3).node,
        r == capped(value_set_in(e@, key@, raw@, 3).changes),
{
    let mut changes = changes;
    let mut i: usize = 0;
    while i < 3
        invariant
            i <= 3,
            manifest::keeps_root(manifest::doc_node(*old(doc)), manifest::doc_node(*doc)),
            manifest::doc_node(*doc) == value_set_in(e@, key@, raw@, i as nat).node,
            changes == capped(value_set_in(e@, key@, raw@, i as nat).changes),
        decreases 3 - i,
    {
        let changed = manifest::set_dep_value_raw(doc, section_name(i), key, raw);
        changes = count_if(changes, changed);
        i += 1;
    }
    changes
}

/// Apply per-member-crate transforms (dep deletion, feature stripping, key blanking).
/// Returns the number of changes.
pub fn apply_member_transforms(
    doc: &mut DocumentMut,
    member_name: &str,
    delete_deps: &Vec<String>,
    ovr: &MergedCiOverride,
) -> (r: usize)
    ensures
        manifest::keeps_root(manifest::doc_node(*old(doc)), manifest::doc_node(*final(doc))),
        manifest::doc_node(*final(doc)) == member_transformed(
            manifest::doc_node(*old(doc)),
            member_name@,
            delete_deps@,
            *ovr,
        ).node,
        r == capped(
            member_transformed(
                manifest::doc_node(*old(doc)),
                member_name@,
                delete_deps@,
                *ovr,
            ).changes,
        ),
{
    let ghost start = unedited(manifest::doc_node(*old(doc)));
    let mut changes: usize = 0;
    let mut i: usize = 0;
    assert(delete_deps@.take(0) =~= Seq::<String>::empty());
    while i < delete_deps.len()
        invariant
            i <= delete_deps.len(),
            manifest::keeps_root(manifest::doc_node(*old(doc)), manifest::doc_node(*doc)),
            manifest::doc_node(*doc) == deps_deleted(start, delete_deps@.take(i as int)).node,
            changes == capped(deps_deleted(start, delete_deps@.take(i as int)).changes),
        decreases delete_deps.len() - i,
    {
        let ghost e = deps_deleted(start, delete_deps@.take(i as int));
        assert(delete_deps@.take(i + 1).drop_last() =~= delete_deps@.take(i as int));
        changes = delete_deps_in(doc, delete_deps[i].as_str(), changes, Ghost(e));
        i += 1;
    }
    assert(delete_deps@.take(i as int) =~= delete_deps@);
    let ghost half = deps_deleted(start, delete_deps@);
    let features = match ovr.strip_features() {
        Some(map) => map.get(member_name),
        None => None,
    };
    if let Some(features) = features {
        let mut j: usize = 0;
        assert(features@.take(0) =~= Seq::<String>::empty());
        while j < features.len()
            invariant
                j <= features.len(),
                manifest::keeps_root(manifest::doc_node(*old(doc)), manifest::doc_node(*doc)),
                manifest::doc_node(*doc) == features_stripped(half, features@.take(j as int)).node,
                changes == capped(features_stripped(half, features@.take(j as int)).changes),
            decreases features.len() - j,
        {
            let ghost e = features_stripped(half, features@.take(j as int));
            assert(features@.take(j + 1).drop_last() =~= features@.take(j as int));
            changes = strip_feature_in(doc, features[j].as_str(), changes, Ghost(e));
            j += 1;
        }
        assert(features@.take(j as int) =~= features@);
    }
    let ghost stripped = features_stripped(half, features_for(*ovr, member_name@));
    let blanks = match ovr.blank_keys() {
        Some(map) => map.get(member_name),
        None => None,
    };
    if let Some(blanks) = blanks {
        let n: usize = blanks.len();
        let mut j: usize = 0;
        while j < n
            invariant
                j <= n,
                n == blanks.keys().len(),
                manifest::keeps_root(manifest::doc_node(*old(doc)), manifest::doc_node(*doc)),
                manifest::doc_node(*doc) == values_set(stripped, *blanks, j as nat).node,
                changes == capped(values_set(stripped, *blanks, j as nat).changes),
            decreases n - j,
        {
            let ghost e = values_set(stripped, *blanks, j as nat);
            changes = set_value_in(
                doc,
                blanks.key_at(j).as_str(),
                blanks.value_at(j).as_str(),
                changes,
                Ghost(e),
            );
            j += 1;
        }
    }
    changes
}

// ── The order of work ──

/// Whether a crate has a dependency with a path.
pub open spec fn uses_paths(eco: Ecosystem, name: Seq<char>) -> bool {
    exists|i: int|
        0 <= i < eco.deps@.len() && (#[trigger] eco.deps@[i]).has_path && eco.deps@[i].from_crate@
            == name
}

/// The message for a crate that is not there.
pub open spec fn unknown_message(name: Seq<char>) -> Seq<char> {
    "crate '"@ + name + "' not found in ecosystem"@
}

/// Determine which crates to process: the one that was asked for, or all that have dependencies
/// with a path.
pub fn crates_to_process(eco: &Ecosystem, filter_crate: Option<&str>) -> (r: Result<
    Vec<String>,
    String,
>)
    ensures
        match filter_crate {
            Some(name) => if eco.crates.has(name@) {
                r is Ok && text::texts(r->Ok_0@) == seq![name@]
            } else {
                r is Err && r->Err_0@ == unknown_message(name@)
            },
            None => r is Ok && text::strictly_ordered(text::texts(r->Ok_0@)) && forall|
                x: Seq<char>,
            | #[trigger]
                text::texts(r->Ok_0@).contains(x) <==> uses_paths(*eco, x),
        },
{
    let mut names: Vec<String> = Vec::new();
    if let Some(name) = filter_crate {
        if !eco.crates.contains_key(name) {
            return Err(text::cat3("crate '", name, "' not found in ecosystem"));
        }
        names.push(name.to_string());
        assert(text::texts(names@) =~= seq![name@]);
        return Ok(names);
    }
    let mut i: usize = 0;
    while i < eco.deps.len()
        invariant
            i <= eco.deps.len(),
            text::strictly_ordered(text::texts(names@)),
            forall|x: Seq<char>| #[trigger]
                text::texts(names@).contains(x) <==> exists|j: int|
                    0 <= j < i && (#[trigger] eco.deps@[j]).has_path && eco.deps@[j].from_crate@
                        == x,
        decreases eco.deps.len() - i,
    {
        let ghost sofar = text::texts(names@);
        let dep = &eco.deps[i];
        if dep.has_path {
            group::insert_distinct(&mut names, dep.from_crate.clone());
        }
        proof {
            let now = text::texts(names@);
            assert forall|x: Seq<char>| #[trigger] now.contains(x) <==> exists|j: int|
                0 <= j < i + 1 && (#[trigger] eco.deps@[j]).has_path && eco.deps@[j].from_crate@
                    == x by {
                if now.contains(x) {
                    if sofar.contains(x) {
                        let j = choose|j: int|
                            0 <= j < i && (#[trigger] eco.deps@[j]).has_path
                                && eco.deps@[j].from_crate@ == x;
                        assert(eco.deps@[j].has_path);
                    } else {
                        assert(eco.deps@[i as int].has_path);
                    }
                }
                if exists|j: int|
                    0 <= j < i + 1 && (#[trigger] eco.deps@[j]).has_path
                        && eco.deps@[j].from_crate@ == x {
                    let j = choose|j: int|
                        0 <= j < i + 1 && (#[trigger] eco.deps@[j]).has_path
                            && eco.deps@[j].from_crate@ == x;
                    if j < i {
                        assert(sofar.contains(x));
                    }
                }
            }
        }
        i += 1;
    }
    Ok(names)
}

/// One manifest to prepare.
pub enum CiStep {
    /// A crate's own manifest.
    Own { crate_name: String, manifest_path: String },
    /// The manifest of the workspace that a crate belongs to.
    Workspace {
        crate_name: String,
        root: String,
        /// Whether the crate's own manifest is meant.
        own: bool,
        /// Whether there are settings for the crate.
        overrides: bool,
    },
    /// The manifest of a member that the settings for a crate name.
    Member { crate_name: String, member: String },
    /// The manifest of a workspace that no crate has led to.
    Root { root: String },
}

/// What a `CiStep` says.
#[verifier::ext_equal]
pub enum StepModel {
    Own { crate_name: Seq<char>, manifest_path: Seq<char> },
    Workspace { crate_name: Seq<char>, root: Seq<char>, own: bool, overrides: bool },
    Member { crate_name: Seq<char>, member: Seq<char> },
    Root { root: Seq<char> },
}

impl CiStep {
    pub open spec fn model(self) -> StepModel {
        match self {
            CiStep::Own { crate_name, manifest_path } => StepModel::Own {
                crate_name: crate_name@,
                manifest_path: manifest_path@,
            },
            CiStep::Workspace { crate_name, root, own, overrides } => StepModel::Workspace {
                crate_name: crate_name@,
                root: root@,
                own,
                overrides,
            },
            CiStep::Member { crate_name, member } => StepModel::Member {
                crate_name: crate_name@,
                member: member@,
            },
            CiStep::Root { root } => StepModel::Root { root: root@ },
        }
    }
}

pub open spec fn step_models(v: Seq<CiStep>) -> Seq<StepModel> {
    v.map_values(|s: CiStep| s.model())
}

/// The steps so far, and the workspace manifests among them.
pub struct Plan {
    pub steps: Seq<StepModel>,
    pub roots: Seq<Seq<char>>,
}

/// Whether a list of paths holds a path.
pub open spec fn holds_path(roots: Seq<Seq<char>>, p: Seq<char>) -> bool {
    exists|i: int| 0 <= i < roots.len() && path::is_same(#[trigger] roots[i], p)
}

/// The manifest of the workspace that a crate belongs to, or its own.
pub open spec fn workspace_of(info: discover::CrateInfo) -> Seq<char> {
    match info.workspace_root {
        Some(w) => w@,
        None => info.manifest_path@,
    }
}

/// The members that the settings for a crate name.
pub open spec fn named_members(
    name: Seq<char>,
    eco: Ecosystem,
    config: SuperworkConfig,
) -> Seq<Seq<char>> {
    match config.override_of(name, inline_of(eco, name)) {
        Some(o) => match o.chosen() {
            Some(c) => c.delete_crate_deps.keys(),
            None => Seq::empty(),
        },
        None => Seq::empty(),
    }
}

/// The steps for the members of a list.
pub open spec fn member_steps(name: Seq<char>, members: Seq<Seq<char>>) -> Seq<StepModel> {
    members.map_values(|m: Seq<char>| StepModel::Member { crate_name: name, member: m })
}

impl Plan {
    /// With a workspace's manifest, unless it is there already.
    pub open spec fn visit(self, root: Seq<char>, step: StepModel) -> Plan {
        if holds_path(self.roots, root) {
            self
        } else {
            Plan { steps: self.steps.push(step), roots: self.roots.push(root) }
        }
    }

    /// With what one crate needs: its manifest, its workspace's, its members'.
    pub open spec fn with_crate(
        self,
        name: Seq<char>,
        eco: Ecosystem,
        config: SuperworkConfig,
    ) -> Plan {
        if eco.crates.has(name) {
            let info = eco.crates@[name];
            let own = Plan {
                steps: self.steps.push(
                    StepModel::Own { crate_name: name, manifest_path: info.manifest_path@ },
                ),
                roots: self.roots,
            };
            let root = workspace_of(info);
            let visited = own.visit(
                root,
                StepModel::Workspace {
                    crate_name: name,
                    root,
                    own: info.workspace_root is None,
                    overrides: config.override_of(name, inline_of(eco, name)) is Some,
                },
            );
            Plan {
                steps: visited.steps + member_steps(name, named_members(name, eco, config)),
                roots: visited.roots,
            }
        } else {
            self
        }
    }

    /// With the workspace of a crate that was not asked for.
    pub open spec fn with_rest(self, info: discover::CrateInfo) -> Plan {
        if info.workspace_root is Some || path::file_name(info.manifest_path@) == Some(
            "Cargo.toml"@,
        ) {
            self.visit(workspace_of(info), StepModel::Root { root: workspace_of(info) })
        } else {
            self
        }
    }
}

/// The steps for a list of crates.
pub open spec fn crates_planned(
    names: Seq<Seq<char>>,
    eco: Ecosystem,
    config: SuperworkConfig,
) -> Plan
    decreases names.len(),
{
    if names.len() == 0 {
        Plan { steps: Seq::empty(), roots: Seq::empty() }
    } else {
        crates_planned(names.drop_last(), eco, config).with_crate(names.last(), eco, config)
    }
}

/// The steps for a list of crates, then for the workspaces of the first `n` crates of all.
pub open spec fn rest_planned(start: Plan, eco: Ecosystem, n: nat) -> Plan
    decreases n,
{
    if n == 0 {
        start
    } else {
        rest_planned(start, eco, (n - 1) as nat).with_rest(
            eco.crates@[eco.crates.keys()[n - 1]],
        )
    }
}

/// All steps of the preparation.
pub open spec fn planned(
    names: Seq<Seq<char>>,
    eco: Ecosystem,
    config: SuperworkConfig,
) -> Seq<StepModel> {
    rest_planned(crates_planned(names, eco, config), eco, eco.crates.keys().len()).steps
}

fn list_holds_path(roots: &Vec<String>, p: &str) -> (r: bool)
    ensures
        r == holds_path(text::texts(roots@), p@),
{
    let ghost rs = text::texts(roots@);
    let mut i: usize = 0;
    while i < roots.len()
        invariant
            i <= roots.len(),
            rs == text::texts(roots@),
            forall|j: int| 0 <= j < i ==> !path::is_same(#[trigger] rs[j], p@),
        decreases roots.len() - i,
    {
        assert(rs[i as int] == roots@[i as int]@);
        if path::same_path(roots[i].as_str(), p) {
            return true;
        }
        i += 1;
    }
    false
}

fn push_step(steps: &mut Vec<CiStep>, step: CiStep)
    ensures
        step_models(final(steps)@) == step_models(old(steps)@).push(step.model()),
{
    let ghost sofar = step_models(steps@);
    let ghost m = step.model();
    steps.push(step);
    assert(step_models(steps@) =~= sofar.push(m));
}

fn plan_crate(
    name: &str,
    eco: &Ecosystem,
    config: &SuperworkConfig,
    steps: &mut Vec<CiStep>,
    roots: &mut Vec<String>,
    plan: Ghost<Plan>,
)
    requires
        step_models(old(steps)@) == plan@.steps,
        text::texts(old(roots)@) == plan@.roots,
    ensures
        step_models(final(steps)@) == plan@.with_crate(name@, *eco, *config).steps,
        text::texts(final(roots)@) == plan@.with_crate(name@, *eco, *config).roots,
{
    let info = match eco.crates.get(name) {
        Some(info) => info,
        None => return ,
    };
    push_step(
        steps,
        CiStep::Own { crate_name: name.to_string(), manifest_path: info.manifest_path.clone() },
    );
    let inline = match &info.inline_ci {
        Some(o) => Some(o),
        None => None,
    };
    assert(inline == inline_of(*eco, name@));
    let merged = config.ci_override_for(name, inline);
    let root = match &info.workspace_root {
        Some(w) => w.clone(),
        None => info.manifest_path.clone(),
    };
    if !list_holds_path(roots, root.as_str()) {
        push_step(
            steps,
            CiStep::Workspace {
                crate_name: name.to_string(),
                root: root.clone(),
                own: info.workspace_root.is_none(),
                overrides: merged.is_some(),
            },
        );
        roots.push(root);
    }
    let ghost visited = step_models(steps@);
    let ghost members = named_members(name@, *eco, *config);
    let chosen = match &merged {
        Some(m) => m.delete_crate_deps(),
        None => None,
    };
    if let Some(map) = chosen {
        let n: usize = map.len();
        let mut i: usize = 0;
        assert(members == map.keys());
        assert(step_models(steps@) =~= visited + member_steps(name@, members.take(0)));
        while i < n
            invariant
                i <= n,
                n == map.keys().len(),
                members == map.keys(),
                step_models(steps@) == visited + member_steps(name@, members.take(i as int)),
            decreases n - i,
        {
            push_step(
                steps,
                CiStep::Member { crate_name: name.to_string(), member: map.key_at(i).clone() },
            );
            assert(visited + member_steps(name@, members.take(i + 1)) =~= (visited
                + member_steps(name@, members.take(i as int))).push(
                StepModel::Member { crate_name: name@, member: members[i as int] },
            ));
            i += 1;
        }
        assert(members.take(i as int) =~= members);
    } else {
        assert(visited + member_steps(name@, members) =~= visited);
    }
}

/// The manifests to prepare, in order: for each crate of the list its own manifest, that of its
/// workspace and those of the members that its settings name; then those of the workspaces that
/// are left. No workspace's manifest comes twice.
pub fn plan_steps(names: &Vec<String>, eco: &Ecosystem, config: &SuperworkConfig) -> (r: Vec<
    CiStep,
>)
    ensures
        step_models(r@) == planned(text::texts(names@), *eco, *config),
{
    let ghost ns = text::texts(names@);
    let mut steps: Vec<CiStep> = Vec::new();
    let mut roots: Vec<String> = Vec::new();
    let mut i: usize = 0;
    assert(ns.take(0) =~= Seq::<Seq<char>>::empty());
    assert(step_models(steps@) =~= Seq::<StepModel>::empty());
    assert(text::texts(roots@) =~= Seq::<Seq<char>>::empty());
    while i < names.len()
        invariant
            i <= names.len(),
            ns == text::texts(names@),
            step_models(steps@) == crates_planned(ns.take(i as int), *eco, *config).steps,
            text::texts(roots@) == crates_planned(ns.take(i as int), *eco, *config).roots,
        decreases names.len() - i,
    {
        let ghost plan = crates_planned(ns.take(i as int), *eco, *config);
        assert(ns.take(i + 1).drop_last() =~= ns.take(i as int));
        assert(ns.take(i + 1).last() == names@[i as int]@);
        plan_crate(names[i].as_str(), eco, config, &mut steps, &mut roots, Ghost(plan));
        i += 1;
    }
    assert(ns.take(i as int) =~= ns);
    let ghost start = crates_planned(ns, *eco, *config);
    let n: usize = eco.crates.len();
    let mut k: usize = 0;
    while k < n
        invariant
            k <= n,
            n == eco.crates.keys().len(),
            step_models(steps@) == rest_planned(start, *eco, k as nat).steps,
            text::texts(roots@) == rest_planned(start, *eco, k as nat).roots,
        decreases n - k,
    {
        let info = eco.crates.value_at(k);
        let root = match &info.workspace_root {
            Some(w) => Some(w.clone()),
            None => match path::file_name_of(info.manifest_path.as_str()) {
                Some(f) => if text::same(f.as_str(), "Cargo.toml") {
                    Some(info.manifest_path.clone())
                } else {
                    None
                },
                None => None,
            },
        };
        if let Some(root) = root {
            if !list_holds_path(&roots, root.as_str()) {
                push_step(&mut steps, CiStep::Root { root: root.clone() });
                roots.push(root);
            }
        }
        k += 1;
    }
    steps
}

/// The workspace manifests that a list of steps visits.
pub open spec fn visited_roots(steps: Seq<StepModel>) -> Seq<Seq<char>>
    decreases steps.len(),
{
    if steps.len() == 0 {
        Seq::empty()
    } else {
        match steps.last() {
            StepModel::Workspace { root, .. } => visited_roots(steps.drop_last()).push(root),
            StepModel::Root { root } => visited_roots(steps.drop_last()).push(root),
            _ => visited_roots(steps.drop_last()),
        }
    }
}

/// Whether the paths of a list differ from each other.
pub open spec fn paths_differ(roots: Seq<Seq<char>>) -> bool {
    forall|i: int, j: int|
        0 <= i < j < roots.len() ==> !path::is_same(#[trigger] roots[i], #[trigger] roots[j])
}

spec fn is_sound(plan: Plan) -> bool {
    visited_roots(plan.steps) == plan.roots && paths_differ(plan.roots)
}

proof fn lemma_visit_sound(plan: Plan, root: Seq<char>, step: StepModel)
    requires
        is_sound(plan),
        match step {
            StepModel::Workspace { root: r, .. } => r == root,
            StepModel::Root { root: r } => r == root,
            _ => false,
        },
    ensures
        is_sound(plan.visit(root, step)),
        holds_path(plan.visit(root, step).roots, root),
{
    if !holds_path(plan.roots, root) {
        let now = plan.visit(root, step);
        assert(now.steps.drop_last() =~= plan.steps);
        assert(now.roots[plan.roots.len() as int] == root);
    }
}

proof fn lemma_members_sound(plan: Plan, name: Seq<char>, members: Seq<Seq<char>>)
    requires
        is_sound(plan),
    ensures
        is_sound(Plan { steps: plan.steps + member_steps(name, members), roots: plan.roots }),
    decreases members.len(),
{
    if members.len() == 0 {
        assert(plan.steps + member_steps(name, members) =~= plan.steps);
    } else {
        lemma_members_sound(plan, name, members.drop_last());
        let now = plan.steps + member_steps(name, members);
        assert(now.drop_last() =~= plan.steps + member_steps(name, members.drop_last()));
        assert(now.last() == StepModel::Member { crate_name: name, member: members.last() });
    }
}

proof fn lemma_crates_sound(names: Seq<Seq<char>>, eco: Ecosystem, config: SuperworkConfig)
    ensures
        is_sound(crates_planned(names, eco, config)),
    decreases names.len(),
{
    if names.len() > 0 {
        let name = names.last();
        let plan = crates_planned(names.drop_last(), eco, config);
        lemma_crates_sound(names.drop_last(), eco, config);
        if eco.crates.has(name) {
            let info = eco.crates@[name];
            let own = Plan {
                steps: plan.steps.push(
                    StepModel::Own { crate_name: name, manifest_path: info.manifest_path@ },
                ),
                roots: plan.roots,
            };
            assert(own.steps.drop_last() =~= plan.steps);
            let root = workspace_of(info);
            let step = StepModel::Workspace {
                crate_name: name,
                root,
                own: info.workspace_root is None,
                overrides: config.override_of(name, inline_of(eco, name)) is Some,
            };
            lemma_visit_sound(own, root, step);
            lemma_members_sound(
                own.visit(root, step),
                name,
                named_members(name, eco, config),
            );
        }
    }
}

proof fn lemma_rest_sound(start: Plan, eco: Ecosystem, n: nat)
    requires
        is_sound(start),
    ensures
        is_sound(rest_planned(start, eco, n)),
        forall|i: int|
            0 <= i < n && eco.crates@[#[trigger] eco.crates.keys()[i]].workspace_root is Some
                ==> holds_path(
                rest_planned(start, eco, n).roots,
                eco.crates@[eco.crates.keys()[i]].workspace_root.unwrap()@,
            ),
    decreases n,
{
    if n > 0 {
        let m = (n - 1) as nat;
        lemma_rest_sound(start, eco, m);
        let before = rest_planned(start, eco, m);
        let info = eco.crates@[eco.crates.keys()[n - 1]];
        lemma_visit_sound(
            before,
            workspace_of(info),
            StepModel::Root { root: workspace_of(info) },
        );
        let after = rest_planned(start, eco, n);
        assert forall|i: int|
            0 <= i < n && eco.crates@[#[trigger] eco.crates.keys()[i]].workspace_root
                is Some implies holds_path(
            after.roots,
            eco.crates@[eco.crates.keys()[i]].workspace_root.unwrap()@,
        ) by {
            let p = eco.crates@[eco.crates.keys()[i]].workspace_root.unwrap()@;
            if i < m {
                let k = choose|k: int|
                    0 <= k < before.roots.len() && path::is_same(#[trigger] before.roots[k], p);
                assert(after.roots[k] == before.roots[k]);
            }
        }
    }
}

/// No workspace's manifest is visited twice, and that of every crate with a workspace is
/// visited.
pub proof fn law_each_workspace_once(
    names: Seq<Seq<char>>,
    eco: Ecosystem,
    config: SuperworkConfig,
)
    ensures
        paths_differ(visited_roots(planned(names, eco, config))),
        forall|i: int|
            0 <= i < eco.crates.keys().len() && eco.crates@[#[trigger] eco.crates.keys()[i]].workspace_root
                is Some ==> holds_path(
                visited_roots(planned(names, eco, config)),
                eco.crates@[eco.crates.keys()[i]].workspace_root.unwrap()@,
            ),
{
    lemma_crates_sound(names, eco, config);
    lemma_rest_sound(crates_planned(names, eco, config), eco, eco.crates.keys().len());
}

/// How many files a step on a workspace's manifest counts for: the two kinds of change to a
/// workspace of its own count once, those to a crate's own manifest each for itself.
pub fn files_for_workspace(own: bool, override_changes: usize, dep_changes: usize) -> (r: usize)
    ensures
        own ==> r == (if override_changes > 0 {
            1int
        } else {
            0
        }) + (if dep_changes > 0 {
            1int
        } else {
            0
        }),
        !own ==> r == (if override_changes > 0 || dep_changes > 0 {
            1int
        } else {
            0
        }),
{
    if own {
        let first: usize = if override_changes > 0 {
            1
        } else {
            0
        };
        if dep_changes > 0 {
            first + 1
        } else {
            first
        }
    } else if override_changes > 0 || dep_changes > 0 {
        1
    } else {
        0
    }
}

/// Whether a manifest's text is that of the package `name`.
pub open spec fn is_package(content: Seq<char>, name: Seq<char>) -> bool {
    match value::parsed_toml(content) {
        Ok(doc) => value::text_of(value::step(doc.at("package"@), "name"@)) == Some(name),
        Err(_) => false,
    }
}

/// Whether a manifest's text is that of the package `name`.
pub fn names_package(content: &str, name: &str) -> (r: bool)
    ensures
        r == is_package(content@, name@),
{
    match value::parse_toml(content) {
        Ok(doc) => match value::as_str(value::step_in(doc.get("package"), "name")) {
            Some(n) => text::same(n.as_str(), name),
            None => false,
        },
        Err(_) => false,
    }
}

// ── What preparing does, seen from the dependencies ──

/// Preparing a manifest leaves every dependency alone that is declared elsewhere, has no path, or
/// lies in the same repo, as far as no section is deleted.
pub proof fn law_other_deps_stay(
    node: Node,
    deps: Seq<InternalDep>,
    manifest_path: Seq<char>,
    crate_name: Seq<char>,
    eco: Ecosystem,
    config: SuperworkConfig,
    section: Seq<char>,
    name: Seq<char>,
)
    requires
        section != "features"@,
        forall|i: int|
            0 <= i < deps.len() && (#[trigger] deps[i]).section.label() == section
                && deps[i].to_crate@ == name ==> deps[i].from_crate@ != crate_name
                || !path::is_same(deps[i].manifest_path@, manifest_path) || !deps[i].has_path || (
            eco.crates.has(crate_name) && eco.crates.has(name) && eco.crates@[crate_name].repo_dir@
                == eco.crates@[name].repo_dir@),
    ensures
        manifest::dep_at(
            deps_transformed(node, deps, manifest_path, crate_name, eco, config).node,
            section,
            name,
        ) == manifest::dep_at(node, section, name),
    decreases deps.len(),
{
    if deps.len() > 0 {
        let rest = deps.drop_last();
        let last = deps.last();
        assert(deps[deps.len() - 1] == last);
        assert forall|i: int|
            0 <= i < rest.len() && (#[trigger] rest[i]).section.label() == section
                && rest[i].to_crate@ == name implies rest[i].from_crate@ != crate_name
            || !path::is_same(rest[i].manifest_path@, manifest_path) || !rest[i].has_path || (
        eco.crates.has(crate_name) && eco.crates.has(name) && eco.crates@[crate_name].repo_dir@
            == eco.crates@[name].repo_dir@) by {
            assert(rest[i] == deps[i]);
        }
        law_other_deps_stay(
            node,
            rest,
            manifest_path,
            crate_name,
            eco,
            config,
            section,
            name,
        );
        if is_transformed(last, manifest_path, crate_name, eco) {
            let e = deps_transformed(node, rest, manifest_path, crate_name, eco, config);
            let strategy = strategy_for(last, crate_name, eco, config);
            let url = url_for(last, eco, config);
            lemma_transform_is_local(e, last, strategy, url, section, name);
        }
    }
}

proof fn lemma_transform_is_local(
    e: Edited,
    dep: InternalDep,
    strategy: CiStrategy,
    url: Option<Seq<char>>,
    section: Seq<char>,
    name: Seq<char>,
)
    requires
        section != "features"@,
        dep.section.label() != section || dep.to_crate@ != name,
    ensures
        manifest::dep_at(dep_transformed(e, dep, strategy, url).node, section, name)
            == manifest::dep_at(e.node, section, name),
{
    let own = dep.section.label();
    if let Some(u) = url {
        manifest::law_edits_are_local(e.node, own, dep.to_crate@, u);
    }
    manifest::law_edits_are_local(e.node, own, dep.to_crate@, name);
    if strategy == CiStrategy::Delete {
        let one = e.after(manifest::dep_deleted(e.node, own, dep.to_crate@));
        let two = manifest::features_stripped(one.node, dep.to_crate@);
        assert(manifest::dep_at(two, section, name) == manifest::dep_at(one.node, section, name));
        let three = manifest::features_stripped(two, dep.dep_key@);
        assert(manifest::dep_at(three, section, name) == manifest::dep_at(two, section, name));
    }
}

/// What becomes of a dependency with a path: by a git URL it keeps all but the path and gets the
/// URL; stripped, it keeps all but the path; deleted, it is gone, and so are the references to it
/// from features, by either of its names.
pub proof fn law_strategies_do_what_they_say(
    e: Edited,
    dep: InternalDep,
    strategy: CiStrategy,
    url: Option<Seq<char>>,
    key: Seq<char>,
    feature: Seq<char>,
)
    requires
        has_path_at(e.node, dep.section.label(), dep.to_crate@),
    ensures
        ({
            let was = manifest::dep_at(e.node, dep.section.label(), dep.to_crate@).unwrap();
            let after = dep_transformed(e, dep, strategy, url);
            let now = manifest::dep_at(after.node, dep.section.label(), dep.to_crate@);
            let refers = manifest::dep_at(after.node, "features"@, feature);
            &&& strategy == CiStrategy::GitUrl && url is None ==> after == e
            &&& strategy == CiStrategy::GitUrl && url is Some ==> now is Some && !now.unwrap().has(
                "path"@,
            ) && manifest::entry_is(now.unwrap(), "git"@, url.unwrap()) && (key != "path"@ && key
                != "git"@ ==> manifest::same_entry(was, now.unwrap(), key)) && after.changes
                == e.changes + 1
            &&& strategy == CiStrategy::StripPath ==> now is Some && !now.unwrap().has("path"@) && (
            key != "path"@ ==> manifest::same_entry(was, now.unwrap(), key)) && after.changes
                == e.changes + 1
            &&& strategy == CiStrategy::Delete ==> now is None && after.changes > e.changes && (
            refers matches Some(Node::Array(a)) ==> !a.contains(Node::Text("dep:"@ + dep.to_crate@))
                && !a.contains(Node::Text("dep:"@ + dep.dep_key@)))
        }),
{
    let section = dep.section.label();
    let name = dep.to_crate@;
    lemma_labels_are_no_features(dep.section);
    manifest::law_only_the_path_goes(e.node, section, name, key);
    if let Some(u) = url {
        manifest::law_git_comes_for_the_path(e.node, section, name, u, key);
    }
    if strategy == CiStrategy::Delete {
        manifest::law_deleted_is_gone(e.node, section, name);
        let one = e.after(manifest::dep_deleted(e.node, section, name));
        let two = manifest::features_stripped(one.node, name);
        assert(manifest::dep_at(two, section, name) == manifest::dep_at(one.node, section, name));
        let three = manifest::features_stripped(two, dep.dep_key@);
        assert(manifest::dep_at(three, section, name) == manifest::dep_at(two, section, name));
        manifest::law_references_are_stripped(one.node, name, key, feature);
        manifest::law_references_are_stripped(two, dep.dep_key@, key, feature);
        if let Some(Node::Array(a)) = manifest::dep_at(one.node, "features"@, feature) {
            let b = manifest::unlike(a, "dep:"@ + name);
            manifest::law_other_values_stay(a, "dep:"@ + name, Node::Text("dep:"@ + name));
            manifest::law_other_values_stay(b, "dep:"@ + dep.dep_key@, Node::Text("dep:"@ + name));
            manifest::law_other_values_stay(
                b,
                "dep:"@ + dep.dep_key@,
                Node::Text("dep:"@ + dep.dep_key@),
            );
        }
    }
}

/// A known crate goes by the URL of its repo, whatever its path says. Of the others, one with a
/// path that starts in a sibling directory goes by the URL of that, and one without by its name
/// under the default org.
pub proof fn law_git_urls(
    dep: Seq<char>,
    dep_path: Option<Seq<char>>,
    eco: Ecosystem,
    config: SuperworkConfig,
)
    ensures
        eco.crates.has(dep) ==> git_url(dep, dep_path, eco, config) == config.url_of(
            eco.crates@[dep].repo_dir@,
        ),
        !eco.crates.has(dep) && dep_path is None ==> git_url(dep, dep_path, eco, config) == Some(
            "https://github.com/"@ + config.described().default_github_org@ + "/"@ + dep,
        ),
        !eco.crates.has(dep) && dep_path is Some && text::split(dep_path.unwrap(), '/').len() >= 2
            && text::split(dep_path.unwrap(), '/')[0] == ".."@
                ==> git_url(dep, dep_path, eco, config)
            == config.url_of("../"@ + text::split(dep_path.unwrap(), '/')[1]),
        !eco.crates.has(dep) && dep_path is Some && (text::split(dep_path.unwrap(), '/').len() < 2
            ||
                text::split(dep_path.unwrap(), '/')[0] != ".."@)
                    ==> git_url(dep, dep_path, eco, config) == Some(
            "https://github.com/"@ + config.described().default_github_org@ + "/"@ + dep,
        ),
{
}

/// Preparing warns of each dependency with a path into another repo that should get a git URL and
/// has none, or should lose its path and has no version.
pub proof fn law_ci_warnings(
    deps: Seq<InternalDep>,
    manifest_path: Seq<char>,
    crate_name: Seq<char>,
    eco: Ecosystem,
    config: SuperworkConfig,
)
    ensures
        dep_warnings(deps, manifest_path, crate_name, eco, config) == deps.filter(
            |d: InternalDep|
                d.from_crate@ == crate_name && path::is_same(d.manifest_path@, manifest_path)
                    && d.has_path && !(eco.crates.has(crate_name)
                    && eco.crates.has(d.to_crate@)
                    && eco.crates@[crate_name].repo_dir@
                    == eco.crates@[d.to_crate@].repo_dir@)
                    && (match config.strategy_of(crate_name, d.to_crate@, inline_of(eco,
                    crate_name)) {
                CiStrategy::GitUrl => git_url(d.to_crate@, text::opt(d.path_value), eco,
                    config) is None,
                CiStrategy::StripPath => !d.has_version,
                CiStrategy::Delete => false,
            }),
        ).map_values(
            |d: InternalDep|
                if config.strategy_of(crate_name, d.to_crate@, inline_of(eco, crate_name))
                    == CiStrategy::GitUrl {
                "no git URL for "@ + d.to_crate@ + " (dep of "@ + crate_name + "), skipping"@
            } else {
                "strip_path on "@ + crate_name + "->"@ + d.to_crate@ + " but no version specified"@
            },
        ),
    decreases deps.len(),
{
    reveal(Seq::filter);
    if deps.len() > 0 {
        law_ci_warnings(deps.drop_last(), manifest_path, crate_name, eco, config);
    }
}

/// An entry of `[workspace.dependencies]` gets a git URL where it has a path that leads out of the
/// workspace, and a URL is known.
pub proof fn law_workspace_urls(
    rows: Seq<(String, Toml)>,
    ws_dir: Seq<char>,
    eco: Ecosystem,
    config: SuperworkConfig,
)
    ensures
        workspace_urls(rows, ws_dir, eco, config) == rows.filter(
            |row: (String, Toml)|
                discover::path_of(row.1) is Some
                    && !path::below(path::normal(path::joined(ws_dir,
                    discover::path_of(row.1).unwrap())), path::normal(ws_dir))
                    && git_url(discover::package_of(row.1, row.0@), discover::path_of(row.1),
                    eco, config) is Some,
        ).map_values(
            |row: (String, Toml)|
                (row.0@, git_url(discover::package_of(row.1, row.0@), discover::path_of(row.1),
                    eco, config).unwrap()),
        ),
    decreases rows.len(),
{
    reveal(Seq::filter);
    if rows.len() > 0 {
        law_workspace_urls(rows.drop_last(), ws_dir, eco, config);
    }
}

/// The crates to prepare are those with a dependency by path, in whichever section, wherever the
/// path leads.
pub proof fn law_crates_with_paths(eco: Ecosystem, name: Seq<char>)
    ensures
        forall|i: int|
            0 <= i < eco.deps@.len() && (#[trigger] eco.deps@[i]).has_path ==> uses_paths(
                eco,
                eco.deps@[i].from_crate@,
            ),
        uses_paths(eco, name) ==> exists|i: int|
            0 <= i < eco.deps@.len() && (#[trigger] eco.deps@[i]).from_crate@ == name
                && eco.deps@[i].has_path,
{
}

/// The sections that a list names by one key are gone from a prepared document.
pub proof fn law_named_sections_go(e: Edited, sections: Seq<String>, i: int)
    requires
        0 <= i < sections.len(),
        text::split(sections[i]@, '.').len() == 1,
        e.node.is_tabular(),
    ensures
        sections_deleted(e, sections).node.is_tabular(),
        !sections_deleted(e, sections).node.has(text::split(sections[i]@, '.')[0]),
    decreases sections.len(),
{
    let rest = sections.drop_last();
    let before = sections_deleted(e, rest);
    let gone = text::split(sections[i]@, '.')[0];
    lemma_sections_keep_tabular(e, rest);
    if i < rest.len() {
        assert(rest[i] == sections[i]);
        law_named_sections_go(e, rest, i);
        manifest::law_deleted_section_is_gone(before.node, sections.last()@, gone);
    } else {
        manifest::law_deleted_section_is_gone(before.node, sections.last()@, gone);
    }
}

proof fn lemma_sections_keep_tabular(e: Edited, sections: Seq<String>)
    requires
        e.node.is_tabular(),
    ensures
        sections_deleted(e, sections).node.is_tabular(),
    decreases sections.len(),
{
    if sections.len() > 0 {
        lemma_sections_keep_tabular(e, sections.drop_last());
    }
}

/// Deleting sections leaves every section alone that none of the names leads to.
pub proof fn law_other_sections_stay(e: Edited, sections: Seq<String>, key: Seq<char>)
    requires
        forall|i: int|
            0 <= i < sections.len() ==> text::split((#[trigger] sections[i])@, '.')[0] != key,
    ensures
        manifest::same_entry(e.node, sections_deleted(e, sections).node, key),
    decreases sections.len(),
{
    if sections.len() > 0 {
        let rest = sections.drop_last();
        assert forall|i: int| 0 <= i < rest.len() implies text::split(
            (#[trigger] rest[i])@,
            '.',
        )[0] != key by {
            assert(rest[i] == sections[i]);
        }
        law_other_sections_stay(e, rest, key);
        assert(sections[sections.len() - 1] == sections.last());
        manifest::law_deleted_section_is_gone(
            sections_deleted(e, rest).node,
            sections.last()@,
            key,
        );
    }
}

/// A dependency that the settings delete from a member is gone from all three of its sections, and
/// every other one stays.
pub proof fn law_member_deps_are_deleted(
    e: Edited,
    deps: Seq<String>,
    section: Seq<char>,
    name: Seq<char>,
)
    ensures
        ({
            let now = manifest::dep_at(deps_deleted(e, deps).node, section, name);
            let named = text::texts(deps).contains(name) && (section == "dependencies"@ || section
                == "dev-dependencies"@ || section == "build-dependencies"@);
            &&& named ==> now is None
            &&& !named ==> now == manifest::dep_at(e.node, section, name)
        }),
    decreases deps.len(),
{
    if deps.len() > 0 {
        let rest = deps.drop_last();
        law_member_deps_are_deleted(e, rest, section, name);
        assert(text::texts(deps) =~= text::texts(rest).push(deps.last()@));
        group::lemma_push_contains(text::texts(rest), deps.last()@);
        reveal_with_fuel(deleted_in, 4);
        let zero = deps_deleted(e, rest);
        let one = deleted_in(zero, deps.last()@, 1);
        let two = deleted_in(zero, deps.last()@, 2);
        manifest::law_edits_are_local(zero.node, "dependencies"@, deps.last()@, name);
        manifest::law_edits_are_local(one.node, "dev-dependencies"@, deps.last()@, name);
        manifest::law_edits_are_local(two.node, "build-dependencies"@, deps.last()@, name);
        manifest::law_deleted_is_gone(zero.node, "dependencies"@, deps.last()@);
        manifest::law_deleted_is_gone(one.node, "dev-dependencies"@, deps.last()@);
        manifest::law_deleted_is_gone(two.node, "build-dependencies"@, deps.last()@);
        reveal_strlit("dependencies");
        reveal_strlit("dev-dependencies");
        reveal_strlit("build-dependencies");
        assert("dependencies"@.len() == 12 && "dev-dependencies"@.len() == 16
            && "build-dependencies"@.len() == 18);
    }
}

/// Each crate that is to be prepared and known gets its own manifest prepared, before all else of
/// it, and so does every member that its settings name.
pub proof fn law_every_crate_is_prepared(
    names: Seq<Seq<char>>,
    eco: Ecosystem,
    config: SuperworkConfig,
    i: int,
)
    requires
        0 <= i < names.len(),
        eco.crates.has(names[i]),
    ensures
        planned(names, eco, config).contains(
            StepModel::Own {
                crate_name: names[i],
                manifest_path: eco.crates@[names[i]].manifest_path@,
            },
        ),
{
    lemma_crates_have_steps(names, eco, config, i);
    let start = crates_planned(names, eco, config);
    lemma_rest_keeps_steps(start, eco, eco.crates.keys().len());
    let own = StepModel::Own {
        crate_name: names[i],
        manifest_path: eco.crates@[names[i]].manifest_path@,
    };
    let k = start.steps.index_of(own);
    assert(planned(names, eco, config)[k] == own);
}

proof fn lemma_crates_have_steps(
    names: Seq<Seq<char>>,
    eco: Ecosystem,
    config: SuperworkConfig,
    i: int,
)
    requires
        0 <= i < names.len(),
        eco.crates.has(names[i]),
    ensures
        crates_planned(names, eco, config).steps.contains(
            StepModel::Own {
                crate_name: names[i],
                manifest_path: eco.crates@[names[i]].manifest_path@,
            },
        ),
    decreases names.len(),
{
    let rest = names.drop_last();
    let before = crates_planned(rest, eco, config);
    let now = crates_planned(names, eco, config);
    let own = StepModel::Own {
        crate_name: names[i],
        manifest_path: eco.crates@[names[i]].manifest_path@,
    };
    if i < rest.len() {
        assert(rest[i] == names[i]);
        lemma_crates_have_steps(rest, eco, config, i);
        let k = before.steps.index_of(own);
        assert(now.steps[k] == own);
    } else {
        assert(now.steps[before.steps.len() as int] == own);
    }
}

proof fn lemma_rest_keeps_steps(start: Plan, eco: Ecosystem, n: nat)
    ensures
        start.steps.is_prefix_of(rest_planned(start, eco, n).steps),
    decreases n,
{
    if n > 0 {
        lemma_rest_keeps_steps(start, eco, (n - 1) as nat);
    }
}

/// The workspace of each known crate is visited: its manifest or, where it is in none, its own.
pub proof fn law_every_workspace_is_visited(
    names: Seq<Seq<char>>,
    eco: Ecosystem,
    config: SuperworkConfig,
    i: int,
)
    requires
        0 <= i < names.len(),
        eco.crates.has(names[i]),
    ensures
        holds_path(
            crates_planned(names, eco, config).roots,
            match eco.crates@[names[i]].workspace_root {
                Some(w) => w@,
                None => eco.crates@[names[i]].manifest_path@,
            },
        ),
    decreases names.len(),
{
    let rest = names.drop_last();
    let before = crates_planned(rest, eco, config);
    let now = crates_planned(names, eco, config);
    let root = workspace_of(eco.crates@[names[i]]);
    if i < rest.len() {
        assert(rest[i] == names[i]);
        law_every_workspace_is_visited(rest, eco, config, i);
        let k = choose|k: int|
            0 <= k < before.roots.len() && path::is_same(#[trigger] before.roots[k], root);
        assert(now.roots[k] == before.roots[k]);
    } else if !holds_path(before.roots, root) {
        path::law_paths_are_ordered(root, root, root);
        assert(now.roots[before.roots.len() as int] == root);
    }
}

/// A count is told as it is as long as it can be held.
pub proof fn law_counts_are_capped(n: nat)
    ensures
        n <= usize::MAX ==> capped(n) == n,
        n > usize::MAX ==> capped(n) == usize::MAX,
{
}

/// Patches go from a workspace's manifest exactly where a git URL was set in it.
pub proof fn law_patches_go_with_git_urls(node: Node, urls: Seq<(Seq<char>, Seq<char>)>)
    ensures
        git_urls_set(node, urls).changes == 0 ==> workspace_deps_transformed(node, urls)
            == git_urls_set(node, urls),
        git_urls_set(node, urls).changes > 0 ==> workspace_deps_transformed(node, urls).node
            == manifest::section_deleted(git_urls_set(node, urls).node, "patch.crates-io"@).0,
        workspace_deps_transformed(node, urls).changes >= git_urls_set(node, urls).changes,
{
}

/// An entry of `[workspace.dependencies]` that is to get no git URL stays as it was.
pub proof fn law_other_workspace_deps_stay(
    node: Node,
    urls: Seq<(Seq<char>, Seq<char>)>,
    name: Seq<char>,
)
    requires
        forall|i: int| 0 <= i < urls.len() ==> (#[trigger] urls[i]).0 != name,
    ensures
        manifest::workspace_dep_at(git_urls_set(node, urls).node, name)
            == manifest::workspace_dep_at(node, name),
    decreases urls.len(),
{
    if urls.len() > 0 {
        let rest = urls.drop_last();
        let last = urls.last();
        assert(urls[urls.len() - 1] == last);
        assert forall|i: int| 0 <= i < rest.len() implies (#[trigger] rest[i]).0 != name by {
            assert(rest[i] == urls[i]);
        }
        law_other_workspace_deps_stay(node, rest, name);
        manifest::law_workspace_edits_are_local(
            git_urls_set(node, rest).node,
            last.0,
            last.1,
            name,
        );
    }
}

/// Each entry of `[workspace.dependencies]` that is to get a git URL and is a table has it, and no
/// path.
pub proof fn law_git_urls_are_set(node: Node, urls: Seq<(Seq<char>, Seq<char>)>, i: int)
    requires
        0 <= i < urls.len(),
        forall|j: int| 0 <= j < urls.len() && j != i ==> (#[trigger] urls[j]).0 != urls[i].0,
        manifest::workspace_dep_at(node, urls[i].0) is Some,
        manifest::workspace_dep_at(node, urls[i].0).unwrap().is_tabular(),
    ensures
        ({
            let now = manifest::workspace_dep_at(git_urls_set(node, urls).node, urls[i].0);
            now is Some && manifest::entry_is(now.unwrap(), "git"@, urls[i].1) && !now.unwrap().has(
                "path"@,
            )
        }),
    decreases urls.len(),
{
    let rest = urls.drop_last();
    let last = urls.last();
    let before = git_urls_set(node, rest).node;
    let name = urls[i].0;
    assert(urls[urls.len() - 1] == last);
    assert forall|j: int| 0 <= j < rest.len() implies #[trigger] rest[j] == urls[j] by {}
    if i < rest.len() {
        assert forall|j: int| 0 <= j < rest.len() && j != i implies (#[trigger] rest[j]).0
            != rest[i].0 by {
            assert(rest[j] == urls[j]);
        }
        law_git_urls_are_set(node, rest, i);
        assert(last.0 != name);
        manifest::law_workspace_edits_are_local(before, last.0, last.1, name);
    } else {
        assert forall|j: int| 0 <= j < rest.len() implies (#[trigger] rest[j]).0 != name by {
            assert(rest[j] == urls[j]);
        }
        law_other_workspace_deps_stay(node, rest, name);
        manifest::law_workspace_git_is_set(before, last.0, last.1, name);
    }
}

/// The settings delete members and entries of the workspace as well as sections: a deleted entry is
/// gone from `[workspace.dependencies]`, and every other one stays.
pub proof fn law_workspace_deps_are_deleted(e: Edited, deps: Seq<String>, name: Seq<char>)
    ensures
        ({
            let was = manifest::workspace_dep_at(e.node, name);
            let now = manifest::workspace_dep_at(workspace_deps_removed(e, deps).node, name);
            &&& text::texts(deps).contains(name) ==> now is None
            &&& !text::texts(deps).contains(name) ==> now == was
        }),
    decreases deps.len(),
{
    if deps.len() > 0 {
        let rest = deps.drop_last();
        law_workspace_deps_are_deleted(e, rest, name);
        assert(text::texts(deps) =~= text::texts(rest).push(deps.last()@));
        group::lemma_push_contains(text::texts(rest), deps.last()@);
        let before = workspace_deps_removed(e, rest).node;
        manifest::law_deleted_is_gone(before, "dependencies"@, deps.last()@);
        if name != deps.last()@ {
            manifest::law_workspace_edits_are_local(before, deps.last()@, name, name);
        }
    }
}

/// The inline settings of a crate are those of its manifest; an unknown crate has none.
pub proof fn law_inline_settings(eco: Ecosystem, name: Seq<char>)
    ensures
        eco.crates.has(name) && eco.crates@[name].inline_ci is Some ==> inline_of(eco, name) is Some
            && *inline_of(eco, name).unwrap() == eco.crates@[name].inline_ci.unwrap(),
        !eco.crates.has(name) || eco.crates@[name].inline_ci is None ==> inline_of(eco, name)
            is None,
{
}

/// The features to strip from a member are those that the settings in force list for it.
pub proof fn law_features_to_strip(ovr: MergedCiOverride, member: Seq<char>)
    ensures
        ovr.chosen() is Some && ovr.chosen().unwrap().strip_features.has(member) ==> features_for(
            ovr,
            member,
        ) == ovr.chosen().unwrap().strip_features@[member]@,
        ovr.chosen() is None || !ovr.chosen().unwrap().strip_features.has(member) ==> features_for(
            ovr,
            member,
        ).len() == 0,
{
}

/// A workspace that was not asked for is visited where the crate belongs to one, or has a manifest
/// of the usual name.
pub proof fn law_rest_is_visited(plan: Plan, info: discover::CrateInfo)
    ensures
        info.workspace_root matches Some(w) ==> holds_path(plan.with_rest(info).roots, w@),
        info.workspace_root is None && path::file_name(info.manifest_path@) == Some("Cargo.toml"@)
            ==> holds_path(plan.with_rest(info).roots, info.manifest_path@),
        plan.steps.is_prefix_of(plan.with_rest(info).steps),
        plan.with_rest(info).steps.len() <= plan.steps.len() + 1,
{
    let root = workspace_of(info);
    path::law_paths_are_ordered(root, root, root);
    let now = plan.with_rest(info);
    if now.roots.len() > plan.roots.len() {
        assert(now.roots[plan.roots.len() as int] == root);
    }
}

/// The manifest of each member that the settings of a crate name is prepared, behind that of the
/// workspace.
pub proof fn law_named_members_are_prepared(
    plan: Plan,
    name: Seq<char>,
    eco: Ecosystem,
    config: SuperworkConfig,
    i: int,
)
    requires
        eco.crates.has(name),
        0 <= i < named_members(name, eco, config).len(),
    ensures
        plan.with_crate(name, eco, config).steps.contains(
            StepModel::Member { crate_name: name, member: named_members(name, eco, config)[i] },
        ),
        config.override_of(name, inline_of(eco, name)) is Some && config.override_of(
            name,
            inline_of(eco, name),
        ).unwrap().chosen() is Some && named_members(name, eco, config) == config.override_of(
            name,
            inline_of(eco, name),
        ).unwrap().chosen().unwrap().delete_crate_deps.keys(),
{
    let now = plan.with_crate(name, eco, config);
    let members = named_members(name, eco, config);
    let at = now.steps.len() - members.len() + i;
    assert(now.steps[at] == StepModel::Member { crate_name: name, member: members[i] });
}

/// A manifest's text is that of a package where it reads and the package has that name.
pub proof fn law_package_names(content: Seq<char>, name: Seq<char>)
    ensures
        is_package(content, name) <==> value::parsed_toml(content) is Ok && (value::step(
            value::parsed_toml(content)->Ok_0.at("package"@),
            "name"@,
        ) matches Some(Toml::Text(t)) && t@ == name),
{
}

} // verus!
