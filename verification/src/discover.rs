//! Crates, their dependencies on each other, and how both are read from manifests.

use vstd::prelude::*;
use vstd::string::*;

use crate::config::{CiCrateOverride, CrateClass, SuperworkConfig};
use crate::group;
use crate::group::Group;
use crate::path;
use crate::text;
use crate::text_map::TextMap;
use crate::value;
use crate::value::Toml;

verus! {

broadcast use text::lemma_texts_push;

/// A crate discovered in the ecosystem
pub struct CrateInfo {
    pub name: String,
    pub version: String,
    pub manifest_path: String,
    /// Repo directory relative to ecosystem root (e.g., "zencodecs" or "../archmage")
    pub repo_dir: String,
    /// Whether this crate can be published to crates.io
    pub publishable: bool,
    /// GitHub URL for this repo
    pub github_url: Option<String>,
    /// If this crate is a workspace member, the workspace root Cargo.toml path
    pub workspace_root: Option<String>,
    /// CI overrides from [package.metadata.superwork.ci] in this crate's Cargo.toml
    pub inline_ci: Option<CiCrateOverride>,
    /// Check overrides from [package.metadata.superwork.checks]
    pub inline_checks: Option<TextMap<String>>,
    /// Release classification (library, binary, abi)
    pub class: CrateClass,
}

/// Which section a dependency appears in
#[derive(Debug, Clone, Copy, PartialEq, Eq, Structural)]
pub enum DepSection {
    Dependencies,
    DevDependencies,
    BuildDependencies,
    WorkspaceDependencies,
}

impl DepSection {
    pub open spec fn label(self) -> Seq<char> {
        match self {
            DepSection::Dependencies => "dependencies"@,
            DepSection::DevDependencies => "dev-dependencies"@,
            DepSection::BuildDependencies => "build-dependencies"@,
            DepSection::WorkspaceDependencies => "workspace.dependencies"@,
        }
    }

    /// The section as a manifest names it.
    pub fn name(&self) -> (r: &'static str)
        ensures
            r@ == self.label(),
    {
        match self {
            DepSection::Dependencies => "dependencies",
            DepSection::DevDependencies => "dev-dependencies",
            DepSection::BuildDependencies => "build-dependencies",
            DepSection::WorkspaceDependencies => "workspace.dependencies",
        }
    }
}

/// A dependency relationship between ecosystem crates
#[derive(Debug, Clone)]
pub struct InternalDep {
    /// The crate that has the dependency
    pub from_crate: String,
    /// The dependency crate name (resolved from `package` rename if present)
    pub to_crate: String,
    /// The key name as written in the TOML (may differ from to_crate when `package` is used)
    pub dep_key: String,
    pub section: DepSection,
    pub has_version: bool,
    pub has_path: bool,
    pub is_optional: bool,
    /// The path value as written in Cargo.toml
    pub path_value: Option<String>,
    /// The version value as written in Cargo.toml
    pub version_value: Option<String>,
    /// The manifest file this dep is declared in
    pub manifest_path: String,
}

/// What an `InternalDep` says.
#[verifier::ext_equal]
pub struct DepModel {
    pub from_crate: Seq<char>,
    pub to_crate: Seq<char>,
    pub dep_key: Seq<char>,
    pub section: DepSection,
    pub has_version: bool,
    pub has_path: bool,
    pub is_optional: bool,
    pub path_value: Option<Seq<char>>,
    pub version_value: Option<Seq<char>>,
    pub manifest_path: Seq<char>,
}

impl View for InternalDep {
    type V = DepModel;

    open spec fn view(&self) -> DepModel {
        DepModel {
            from_crate: self.from_crate@,
            to_crate: self.to_crate@,
            dep_key: self.dep_key@,
            section: self.section,
            has_version: self.has_version,
            has_path: self.has_path,
            is_optional: self.is_optional,
            path_value: text::opt(self.path_value),
            version_value: text::opt(self.version_value),
            manifest_path: self.manifest_path@,
        }
    }
}

/// What a list of dependencies says.
pub open spec fn dep_models(deps: Seq<InternalDep>) -> Seq<DepModel> {
    deps.map_values(|d: InternalDep| d@)
}

/// Complete ecosystem state
pub struct Ecosystem {
    pub root: String,
    pub crates: TextMap<CrateInfo>,
    pub deps: Vec<InternalDep>,
}

// ── Dependencies in a manifest ──

/// The version that a dependency entry names, bare or in a table.
pub open spec fn version_of(v: Toml) -> Option<Seq<char>> {
    match v {
        Toml::Text(t) => Some(t@),
        _ => value::text_of(v.at("version"@)),
    }
}

/// The path that a dependency entry names.
pub open spec fn path_of(v: Toml) -> Option<Seq<char>> {
    value::text_of(v.at("path"@))
}

/// The crate that an entry means: its `package`, or the key.
pub open spec fn package_of(v: Toml, key: Seq<char>) -> Seq<char> {
    match value::text_of(v.at("package"@)) {
        Some(t) => t,
        None => key,
    }
}

/// Whether an entry is internal: a known crate, or a path that leads out of the repo.
pub open spec fn is_internal(v: Toml, key: Seq<char>, known: Set<Seq<char>>) -> bool {
    known.contains(package_of(v, key)) || match path_of(v) {
        Some(p) => ".."@.is_prefix_of(p),
        None => false,
    }
}

pub open spec fn is_true(v: Option<Toml>) -> bool {
    value::flag_of(v) == Some(true)
}

/// The dependency that an entry declares, its version and path taken from `spec`.
pub open spec fn declared(
    crate_name: Seq<char>,
    manifest_path: Seq<char>,
    section: DepSection,
    key: Seq<char>,
    v: Toml,
    spec_value: Toml,
) -> DepModel {
    DepModel {
        from_crate: crate_name,
        to_crate: package_of(spec_value, key),
        dep_key: key,
        section,
        has_version: version_of(spec_value) is Some,
        has_path: path_of(spec_value) is Some,
        is_optional: is_true(v.at("optional"@)),
        path_value: path_of(spec_value),
        version_value: version_of(spec_value),
        manifest_path,
    }
}

/// The internal dependency that an entry stands for; `workspace = true` is resolved from the
/// workspace's own table.
pub open spec fn entry_dep(
    crate_name: Seq<char>,
    manifest_path: Seq<char>,
    section: DepSection,
    key: Seq<char>,
    v: Toml,
    known: Set<Seq<char>>,
    ws: Option<Seq<(String, Toml)>>,
) -> Option<DepModel> {
    if !is_internal(v, key, known) {
        None
    } else if !is_true(v.at("workspace"@)) {
        Some(declared(crate_name, manifest_path, section, key, v, v))
    } else if ws is None {
        None
    } else {
        match value::lookup(ws.unwrap(), key) {
            Some(w) => if is_internal(w, key, known) {
                Some(declared(crate_name, manifest_path, section, key, v, w))
            } else {
                None
            },
            None => None,
        }
    }
}

/// The internal dependencies among the first `n` entries of a section.
pub open spec fn section_deps(
    crate_name: Seq<char>,
    manifest_path: Seq<char>,
    section: DepSection,
    rows: Seq<(String, Toml)>,
    known: Set<Seq<char>>,
    ws: Option<Seq<(String, Toml)>>,
    n: nat,
) -> Seq<DepModel>
    decreases n,
{
    if n == 0 {
        Seq::empty()
    } else {
        let before = section_deps(
            crate_name,
            manifest_path,
            section,
            rows,
            known,
            ws,
            (n - 1) as nat,
        );
        match entry_dep(
            crate_name,
            manifest_path,
            section,
            rows[n - 1].0@,
            rows[n - 1].1,
            known,
            ws,
        ) {
            Some(d) => before.push(d),
            None => before,
        }
    }
}

/// The internal dependencies of one section.
pub open spec fn whole_section_deps(
    doc: Toml,
    crate_name: Seq<char>,
    manifest_path: Seq<char>,
    section: DepSection,
    known: Set<Seq<char>>,
    ws: Option<Seq<(String, Toml)>>,
) -> Seq<DepModel> {
    match value::rows_of(doc.at(section.label())) {
        Some(rows) => section_deps(
            crate_name,
            manifest_path,
            section,
            rows,
            known,
            ws,
            rows.len(),
        ),
        None => Seq::empty(),
    }
}

/// The internal dependencies of a manifest, section by section.
pub open spec fn manifest_deps(
    doc: Toml,
    crate_name: Seq<char>,
    manifest_path: Seq<char>,
    known: Set<Seq<char>>,
    ws: Option<Seq<(String, Toml)>>,
) -> Seq<DepModel> {
    whole_section_deps(doc, crate_name, manifest_path, DepSection::Dependencies, known, ws)
        + whole_section_deps(
        doc,
        crate_name,
        manifest_path,
        DepSection::DevDependencies,
        known,
        ws,
    ) + whole_section_deps(
        doc,
        crate_name,
        manifest_path,
        DepSection::BuildDependencies,
        known,
        ws,
    )
}

fn extract_version(v: &Toml) -> (r: (bool, Option<String>))
    ensures
        text::opt(r.1) == version_of(*v),
        r.0 == version_of(*v) is Some,
{
    if let Toml::Text(t) = v {
        return (true, Some(t.clone()));
    }
    match value::as_str(v.get("version")) {
        Some(t) => (true, Some(t.clone())),
        None => (false, None),
    }
}

fn extract_path(v: &Toml) -> (r: (bool, Option<String>))
    ensures
        text::opt(r.1) == path_of(*v),
        r.0 == path_of(*v) is Some,
{
    match value::as_str(v.get("path")) {
        Some(t) => (true, Some(t.clone())),
        None => (false, None),
    }
}

/// The crate that an entry means: its `package`, or the key.
pub fn package_name(v: &Toml, key: &str) -> (r: String)
    ensures
        r@ == package_of(*v, key@),
{
    match value::as_str(v.get("package")) {
        Some(t) => t.clone(),
        None => key.to_string(),
    }
}

fn internal(v: &Toml, actual: &str, known: &TextMap<CrateInfo>) -> (r: bool)
    ensures
        r == (known@.dom().contains(actual@) || match path_of(*v) {
            Some(p) => ".."@.is_prefix_of(p),
            None => false,
        }),
{
    if known.contains_key(actual) {
        return true;
    }
    match value::as_str(v.get("path")) {
        Some(p) => text::leads_with(p.as_str(), ".."),
        None => false,
    }
}

fn truth(v: Option<&Toml>) -> (r: bool)
    ensures
        r == is_true(value::plain(v)),
{
    match value::as_bool(v) {
        Some(b) => b,
        None => false,
    }
}

fn read_entry(
    crate_name: &str,
    manifest_path: &str,
    section: DepSection,
    key: &str,
    v: &Toml,
    known: &TextMap<CrateInfo>,
    ws_deps: Option<&Vec<(String, Toml)>>,
) -> (r: Option<InternalDep>)
    ensures
        match r {
            Some(d) => entry_dep(
                crate_name@,
                manifest_path@,
                section,
                key@,
                *v,
                known@.dom(),
                rows_in(ws_deps),
            ) == Some(d@),
            None => entry_dep(
                crate_name@,
                manifest_path@,
                section,
                key@,
                *v,
                known@.dom(),
                rows_in(ws_deps),
            ) is None,
        },
{
    let actual = package_name(v, key);
    if !internal(v, actual.as_str(), known) {
        return None;
    }
    let is_optional = truth(v.get("optional"));
    if truth(v.get("workspace")) {
        let table = match ws_deps {
            Some(t) => t,
            None => return None,
        };
        let w = match value::find_entry(table, key) {
            Some(w) => w,
            None => return None,
        };
        let actual = package_name(w, key);
        if !internal(w, actual.as_str(), known) {
            return None;
        }
        let (has_version, version_value) = extract_version(w);
        let (has_path, path_value) = extract_path(w);
        return Some(
            InternalDep {
                from_crate: crate_name.to_string(),
                to_crate: actual,
                dep_key: key.to_string(),
                section,
                has_version,
                has_path,
                is_optional,
                path_value,
                version_value,
                manifest_path: manifest_path.to_string(),
            },
        );
    }
    let (has_version, version_value) = extract_version(v);
    let (has_path, path_value) = extract_path(v);
    Some(
        InternalDep {
            from_crate: crate_name.to_string(),
            to_crate: actual,
            dep_key: key.to_string(),
            section,
            has_version,
            has_path,
            is_optional,
            path_value,
            version_value,
            manifest_path: manifest_path.to_string(),
        },
    )
}

/// The rows behind a reference that may be missing.
pub open spec fn rows_in(t: Option<&Vec<(String, Toml)>>) -> Option<Seq<(String, Toml)>> {
    match t {
        Some(v) => Some(v@),
        None => None,
    }
}

fn read_section(
    doc: &Toml,
    crate_name: &str,
    manifest_path: &str,
    section: DepSection,
    known: &TextMap<CrateInfo>,
    ws_deps: Option<&Vec<(String, Toml)>>,
    deps: &mut Vec<InternalDep>,
)
    ensures
        dep_models(final(deps)@) == dep_models(old(deps)@) + whole_section_deps(
            *doc,
            crate_name@,
            manifest_path@,
            section,
            known@.dom(),
            rows_in(ws_deps),
        ),
{
    let ghost start = dep_models(deps@);
    let rows = match value::as_table(doc.get(section.name())) {
        Some(rows) => rows,
        None => {
            assert(dep_models(deps@) =~= start + Seq::<DepModel>::empty());
            return;
        },
    };
    let mut i: usize = 0;
    assert(dep_models(deps@) =~= start + Seq::<DepModel>::empty());
    while i < rows.len()
        invariant
            i <= rows.len(),
            dep_models(deps@) == start + section_deps(
                crate_name@,
                manifest_path@,
                section,
                rows@,
                known@.dom(),
                rows_in(ws_deps),
                i as nat,
            ),
        decreases rows.len() - i,
    {
        let ghost sofar = dep_models(deps@);
        if let Some(d) = read_entry(
            crate_name,
            manifest_path,
            section,
            rows[i].0.as_str(),
            &rows[i].1,
            known,
            ws_deps,
        ) {
            deps.push(d);
            assert(dep_models(deps@) =~= sofar.push(d@));
        }
        i += 1;
    }
}

/// Scan a parsed manifest for dependencies on internal crates.
pub fn scan_deps_in_value(
    doc: &Toml,
    manifest_path: &str,
    crate_name: &str,
    known_crates: &TextMap<CrateInfo>,
    ws_deps: Option<&Vec<(String, Toml)>>,
    deps: &mut Vec<InternalDep>,
)
    ensures
        dep_models(final(deps)@) == dep_models(old(deps)@) + manifest_deps(
            *doc,
            crate_name@,
            manifest_path@,
            known_crates@.dom(),
            rows_in(ws_deps),
        ),
{
    let ghost start = dep_models(deps@);
    read_section(
        doc,
        crate_name,
        manifest_path,
        DepSection::Dependencies,
        known_crates,
        ws_deps,
        deps,
    );
    read_section(
        doc,
        crate_name,
        manifest_path,
        DepSection::DevDependencies,
        known_crates,
        ws_deps,
        deps,
    );
    read_section(
        doc,
        crate_name,
        manifest_path,
        DepSection::BuildDependencies,
        known_crates,
        ws_deps,
        deps,
    );
    assert(dep_models(deps@) =~= start + manifest_deps(
        *doc,
        crate_name@,
        manifest_path@,
        known_crates@.dom(),
        rows_in(ws_deps),
    ));
}

/// Parse the contents of a manifest, naming the file in the message where that fails.
pub fn parse_manifest(path: &str, content: &str) -> (r: Result<Toml, String>)
    ensures
        match r {
            Ok(v) => value::parsed_toml(content@) == Ok::<Toml, Seq<char>>(v),
            Err(m) => value::parsed_toml(content@) is Err && m@ == value::parsing_message(
                path@,
                value::parsed_toml(content@)->Err_0,
            ),
        },
{
    match value::parse_toml(content) {
        Ok(v) => Ok(v),
        Err(e) => Err(text::cat4("parsing ", path, ": ", e.as_str())),
    }
}

/// Scan the contents of a Cargo.toml for dependencies on internal crates
pub fn scan_deps_in_manifest(
    content: &str,
    manifest_path: &str,
    crate_name: &str,
    known_crates: &TextMap<CrateInfo>,
    ws_deps: Option<&Vec<(String, Toml)>>,
    deps: &mut Vec<InternalDep>,
) -> (r: Result<(), String>)
    ensures
        match value::parsed_toml(content@) {
            Ok(doc) => r is Ok && dep_models(final(deps)@) == dep_models(old(deps)@)
                + manifest_deps(
                doc,
                crate_name@,
                manifest_path@,
                known_crates@.dom(),
                rows_in(ws_deps),
            ),
            Err(e) => r is Err && r->Err_0@ == value::parsing_message(manifest_path@, e)
                && *final(deps) == *old(deps),
        },
{
    let doc = parse_manifest(manifest_path, content)?;
    scan_deps_in_value(&doc, manifest_path, crate_name, known_crates, ws_deps, deps);
    Ok(())
}

/// The entries of `[workspace.dependencies]`.
pub open spec fn workspace_rows(doc: Toml) -> Option<Seq<(String, Toml)>> {
    value::rows_of(value::step(doc.at("workspace"@), "dependencies"@))
}

/// The entries of `[workspace.dependencies]` of a parsed manifest.
pub fn workspace_dep_table(doc: &Toml) -> (r: Option<&Vec<(String, Toml)>>)
    ensures
        rows_in(r) == workspace_rows(*doc),
{
    value::as_table(value::step_in(doc.get("workspace"), "dependencies"))
}

// ── A crate's own manifest ──

/// Where the metadata of a manifest is looked for.
#[derive(Debug, Clone, Copy, PartialEq, Eq, Structural)]
pub enum MetadataBase {
    Package,
    Workspace,
}

/// The `superwork` table in the metadata under a base key.
pub open spec fn metadata_under(doc: Toml, base: Seq<char>) -> Option<Seq<(String, Toml)>> {
    value::rows_of(value::step(value::step(doc.at(base), "metadata"@), "superwork"@))
}

/// The `superwork` metadata that counts: the package's own; for what is no workspace member,
/// the workspace's where the package has none.
pub open spec fn metadata_base(doc: Toml, is_member: bool) -> Option<MetadataBase> {
    if metadata_under(doc, "package"@) is Some {
        Some(MetadataBase::Package)
    } else if !is_member && metadata_under(doc, "workspace"@) is Some {
        Some(MetadataBase::Workspace)
    } else {
        None
    }
}

pub open spec fn metadata_rows(doc: Toml, is_member: bool) -> Option<Seq<(String, Toml)>> {
    match metadata_base(doc, is_member) {
        Some(MetadataBase::Package) => metadata_under(doc, "package"@),
        Some(MetadataBase::Workspace) => metadata_under(doc, "workspace"@),
        None => None,
    }
}

/// Whether the manifest rules publishing out.
pub open spec fn publish_ruled_out(pkg: Toml) -> bool {
    match pkg.at("publish"@) {
        Some(Toml::Boolean(b)) => !b,
        Some(Toml::Array(a)) => a@.len() == 0,
        _ => false,
    }
}

/// Whether a name is that of a crate for foreign callers.
pub open spec fn is_abi_name(name: Seq<char>) -> bool {
    "_abi"@.is_suffix_of(name) || "-ffi"@.is_suffix_of(name) || "_ffi"@.is_suffix_of(name)
}

/// The class of a crate: configured, or guessed from its name and targets.
pub open spec fn class_of(
    doc: Toml,
    name: Seq<char>,
    config: SuperworkConfig,
    has_lib_file: bool,
) -> CrateClass {
    if config.release.crate_class.has(name) {
        config.release.crate_class@[name]
    } else if is_abi_name(name) {
        CrateClass::Abi
    } else if value::items_of(doc.at("bin"@)) is Some && value::items_of(
        doc.at("bin"@),
    ).unwrap().len() > 0 && doc.at("lib"@) is None && !has_lib_file {
        CrateClass::Binary
    } else {
        CrateClass::Library
    }
}

/// The entries among the first `n` that are texts, later ones winning.
pub open spec fn text_entries(rows: Seq<(String, Toml)>, n: nat) -> Map<Seq<char>, Seq<char>>
    decreases n,
{
    if n == 0 {
        Map::empty()
    } else {
        let before = text_entries(rows, (n - 1) as nat);
        match rows[n - 1].1 {
            Toml::Text(t) => before.insert(rows[n - 1].0@, t@),
            _ => before,
        }
    }
}

/// What a map of strings holds.
pub open spec fn map_texts(m: Map<Seq<char>, String>) -> Map<Seq<char>, Seq<char>> {
    m.map_values(|s: String| s@)
}

/// The check overrides of a manifest.
pub open spec fn inline_checks_of(doc: Toml, is_member: bool) -> Option<Map<Seq<char>, Seq<char>>> {
    match metadata_rows(doc, is_member) {
        Some(m) => match value::rows_of(value::lookup(m, "checks"@)) {
            Some(rows) => Some(text_entries(rows, rows.len())),
            None => None,
        },
        None => None,
    }
}

/// Whether `info` is what the manifest of a package says.
pub open spec fn describes(
    info: CrateInfo,
    doc: Toml,
    manifest_path: Seq<char>,
    repo_dir: Seq<char>,
    config: SuperworkConfig,
    workspace_root: Option<Seq<char>>,
    has_lib_file: bool,
    inline_ci: Option<CiCrateOverride>,
) -> bool {
    let pkg = doc.at("package"@).unwrap();
    let name = value::text_of(pkg.at("name"@)).unwrap();
    &&& info.name@ == name
    &&& info.version@ == match value::text_of(pkg.at("version"@)) {
        Some(v) => v,
        None => "0.0.0"@,
    }
    &&& info.manifest_path@ == manifest_path
    &&& info.repo_dir@ == repo_dir
    &&& info.publishable == (!publish_ruled_out(pkg) && !text::lists(
        config.unpublished.crates@,
        name,
    ))
    &&& text::opt(info.github_url) == config.url_of(repo_dir)
    &&& text::opt(info.workspace_root) == workspace_root
    &&& info.inline_ci == inline_ci
    &&& match info.inline_checks {
        Some(m) => inline_checks_of(doc, workspace_root is Some) == Some(map_texts(m@)),
        None => inline_checks_of(doc, workspace_root is Some) is None,
    }
    &&& info.class == class_of(doc, name, config, has_lib_file)
}

fn under<'a>(doc: &'a Toml, base: &str) -> (r: Option<&'a Vec<(String, Toml)>>)
    ensures
        rows_in(r) == metadata_under(*doc, base@),
{
    value::as_table(value::step_in(value::step_in(doc.get(base), "metadata"), "superwork"))
}

/// Where the `superwork` metadata of a manifest stands.
pub fn inline_metadata_base(doc: &Toml, is_member: bool) -> (r: Option<MetadataBase>)
    ensures
        r == metadata_base(*doc, is_member),
{
    if under(doc, "package").is_some() {
        Some(MetadataBase::Package)
    } else if !is_member && under(doc, "workspace").is_some() {
        Some(MetadataBase::Workspace)
    } else {
        None
    }
}

fn read_inline_checks(doc: &Toml, is_member: bool) -> (r: Option<TextMap<String>>)
    ensures
        match r {
            Some(m) => inline_checks_of(*doc, is_member) == Some(map_texts(m@)),
            None => inline_checks_of(*doc, is_member) is None,
        },
{
    let meta = match inline_metadata_base(doc, is_member) {
        Some(MetadataBase::Package) => under(doc, "package"),
        Some(MetadataBase::Workspace) => under(doc, "workspace"),
        None => None,
    };
    let meta = match meta {
        Some(m) => m,
        None => return None,
    };
    let rows = match value::as_table(value::find_entry(meta, "checks")) {
        Some(rows) => rows,
        None => return None,
    };
    let mut out: TextMap<String> = TextMap::new();
    let mut i: usize = 0;
    assert(map_texts(out@) =~= Map::<Seq<char>, Seq<char>>::empty());
    while i < rows.len()
        invariant
            i <= rows.len(),
            map_texts(out@) == text_entries(rows@, i as nat),
        decreases rows.len() - i,
    {
        let ghost sofar = out@;
        if let Toml::Text(t) = &rows[i].1 {
            let copy = t.clone();
            out.insert(rows[i].0.clone(), copy);
            assert(map_texts(out@) =~= map_texts(sofar).insert(rows@[i as int].0@, t@));
        }
        i += 1;
    }
    Some(out)
}

fn guess_class(doc: &Toml, name: &str, config: &SuperworkConfig, has_lib_file: bool) -> (r:
    CrateClass)
    ensures
        r == class_of(*doc, name@, *config, has_lib_file),
{
    if let Some(c) = config.release.crate_class.get(name) {
        return *c;
    }
    if text::ends_with(name, "_abi") || text::ends_with(name, "-ffi") || text::ends_with(
        name,
        "_ffi",
    ) {
        return CrateClass::Abi;
    }
    let has_bin = match value::as_array(doc.get("bin")) {
        Some(a) => a.len() > 0,
        None => false,
    };
    let has_lib = doc.get("lib").is_some() || has_lib_file;
    if has_bin && !has_lib {
        CrateClass::Binary
    } else {
        CrateClass::Library
    }
}

/// The message for a package without a name.
pub open spec fn nameless_message(manifest_path: Seq<char>) -> Seq<char> {
    "no package.name in "@ + manifest_path
}

/// Read a crate's parsed Cargo.toml and add it to the registry.
pub fn scan_crate_value(
    doc: &Toml,
    manifest_path: &str,
    repo_dir: &str,
    config: &SuperworkConfig,
    workspace_root: Option<&str>,
    has_lib_file: bool,
    inline_ci: Option<CiCrateOverride>,
    crates: &mut TextMap<CrateInfo>,
) -> (r: Result<(), String>)
    ensures
        match value::rows_of(doc.at("package"@)) {
            None => r is Ok && final(crates)@ == old(crates)@,
            Some(pkg) => match value::text_of(value::lookup(pkg, "name"@)) {
                None => r is Err && r->Err_0@ == nameless_message(manifest_path@)
                    && final(crates)@ == old(crates)@,
                Some(name) => r is Ok && final(crates)@.dom().contains(name) && final(crates)@
                    == old(crates)@.insert(name, final(crates)@[name]) && describes(
                    final(crates)@[name],
                    *doc,
                    manifest_path@,
                    repo_dir@,
                    *config,
                    match workspace_root {
                        Some(w) => Some(w@),
                        None => None,
                    },
                    has_lib_file,
                    inline_ci,
                ),
            },
        },
{
    let pkg = match value::as_table(doc.get("package")) {
        Some(p) => p,
        None => return Ok(()),
    };
    let name = match value::as_str(value::find_entry(pkg, "name")) {
        Some(n) => n.clone(),
        None => return Err(text::cat2("no package.name in ", manifest_path)),
    };
    let version = match value::as_str(value::find_entry(pkg, "version")) {
        Some(v) => v.clone(),
        None => "0.0.0".to_string(),
    };
    let ruled_out = match value::find_entry(pkg, "publish") {
        Some(Toml::Boolean(b)) => !*b,
        Some(Toml::Array(a)) => a.len() == 0,
        _ => false,
    };
    let publishable = !ruled_out && !text::holds(&config.unpublished.crates, name.as_str());
    let github_url = config.github_url_for(repo_dir);
    let inline_checks = read_inline_checks(doc, workspace_root.is_some());
    let class = guess_class(doc, name.as_str(), config, has_lib_file);
    let workspace_root = match workspace_root {
        Some(w) => Some(w.to_string()),
        None => None,
    };
    let key = name.clone();
    let info = CrateInfo {
        name,
        version,
        manifest_path: manifest_path.to_string(),
        repo_dir: repo_dir.to_string(),
        publishable,
        github_url,
        workspace_root,
        inline_ci,
        inline_checks,
        class,
    };
    crates.insert(key, info);
    Ok(())
}

/// Parse a single crate's Cargo.toml and add to registry
pub fn scan_single_crate(
    content: &str,
    manifest_path: &str,
    repo_dir: &str,
    config: &SuperworkConfig,
    workspace_root: Option<&str>,
    has_lib_file: bool,
    inline_ci: Option<CiCrateOverride>,
    crates: &mut TextMap<CrateInfo>,
) -> (r: Result<(), String>)
    ensures
        match value::parsed_toml(content@) {
            Err(e) => r is Err && r->Err_0@ == value::parsing_message(manifest_path@, e) && final(crates)@ == old(crates)@,
            Ok(doc) => match value::rows_of(doc.at("package"@)) {
                None => r is Ok && final(crates)@ == old(crates)@,
                Some(pkg) => match value::text_of(value::lookup(pkg, "name"@)) {
                    None => r is Err && r->Err_0@ == nameless_message(manifest_path@)
                        && final(crates)@ == old(crates)@,
                    Some(name) => r is Ok && final(crates)@.dom().contains(name) && final(crates)@ == old(crates)@.insert(name, final(crates)@[name]) && describes(
                        final(crates)@[name],
                        doc,
                        manifest_path@,
                        repo_dir@,
                        *config,
                        match workspace_root {
                            Some(w) => Some(w@),
                            None => None,
                        },
                        has_lib_file,
                        inline_ci,
                    ),
                },
            },
        },
{
    let doc = parse_manifest(manifest_path, content)?;
    scan_crate_value(
        &doc,
        manifest_path,
        repo_dir,
        config,
        workspace_root,
        has_lib_file,
        inline_ci,
        crates,
    )
}

// ── Repos ──

/// What a repo's root manifest holds: member patterns, and whether it is a package too.
pub struct RepoContents {
    pub members: Vec<String>,
    pub is_package: bool,
}

/// The member patterns of a workspace.
pub open spec fn member_patterns(doc: Toml) -> Seq<Seq<char>> {
    match value::items_of(value::step(doc.at("workspace"@), "members"@)) {
        Some(a) => value::texts_among(a),
        None => Seq::empty(),
    }
}

/// The member patterns of a parsed manifest.
pub fn workspace_members(doc: &Toml) -> (r: Vec<String>)
    ensures
        text::texts(r@) == member_patterns(*doc),
{
    match value::as_array(value::step_in(doc.get("workspace"), "members")) {
        Some(a) => value::texts_in(a),
        None => {
            let none: Vec<String> = Vec::new();
            assert(text::texts(none@) =~= Seq::<Seq<char>>::empty());
            none
        },
    }
}

/// Scan a repo's root manifest for crates.
pub fn scan_repo_manifest(path: &str, content: &str) -> (r: Result<RepoContents, String>)
    ensures
        match value::parsed_toml(content@) {
            Ok(doc) => r is Ok && text::texts(r->Ok_0.members@) == member_patterns(doc)
                && r->Ok_0.is_package == doc.at("package"@) is Some,
            Err(e) => r is Err && r->Err_0@ == value::parsing_message(path@, e),
        },
{
    let doc = parse_manifest(path, content)?;
    Ok(RepoContents { members: workspace_members(&doc), is_package: doc.get("package").is_some() })
}

/// Whether a directory of the root is left out of the scan.
pub open spec fn is_skipped_dir(name: Seq<char>) -> bool {
    name == "target"@ || name == ".cargo"@ || name == "retired"@
}

/// Whether a directory of the root is left out of the scan.
pub fn skips_dir(name: &str) -> (r: bool)
    ensures
        r == is_skipped_dir(name@),
{
    text::same(name, "target") || text::same(name, ".cargo") || text::same(name, "retired")
}

/// The directory of a repo as seen from the root, given what both resolve to.
pub open spec fn repo_dir_of(
    path_text: Seq<char>,
    root: Seq<char>,
    resolved: Option<(Seq<char>, Seq<char>)>,
) -> Seq<char> {
    match path::beneath(path_text, root) {
        Some(rel) => rel,
        None => match resolved {
            Some((abs_path, abs_root)) => match path::beneath(abs_path, abs_root) {
                Some(rel) => rel,
                None => path::relative(abs_root, abs_path),
            },
            None => path_text,
        },
    }
}

/// Compute relative directory from ecosystem root
pub fn relative_dir(path_text: &str, root: &str, resolved: Option<(String, String)>) -> (r: String)
    ensures
        r@ == repo_dir_of(
            path_text@,
            root@,
            match resolved {
                Some((p, q)) => Some((p@, q@)),
                None => None,
            },
        ),
{
    if let Some(rel) = path::strip_base(path_text, root) {
        return rel;
    }
    match resolved {
        Some((abs_path, abs_root)) => match path::strip_base(abs_path.as_str(), abs_root.as_str()) {
            Some(rel) => rel,
            None => path::relative_path(abs_root.as_str(), abs_path.as_str()),
        },
        None => path_text.to_string(),
    }
}

/// How a member pattern is expanded.
pub enum GlobPlan {
    /// The path itself, where it exists.
    Literal,
    /// Nothing: the pattern is too complex.
    Nothing,
    /// The subdirectories of `parent` below which `suffix` exists.
    Walk { parent: String, suffix: String },
}

/// The text without its leading slashes.
pub open spec fn without_slashes(s: Seq<char>) -> Seq<char>
    decreases s.len(),
{
    if s.len() > 0 && s[0] == '/' {
        without_slashes(s.drop_first())
    } else {
        s
    }
}

/// The directory that a pattern's lead names, or lies in.
pub open spec fn glob_parent(lead: Seq<char>) -> Option<Seq<char>> {
    if lead.len() > 0 && (lead.last() == '/' || lead.last() == '\\') {
        Some(lead)
    } else {
        path::parent(lead)
    }
}

fn strip_slashes(s: &str) -> (r: String)
    ensures
        r@ == without_slashes(s@),
{
    let cs = text::chars_of(s);
    let mut i: usize = 0;
    assert(cs@.skip(0) =~= cs@);
    while i < cs.len() && cs[i] == '/'
        invariant
            i <= cs.len(),
            without_slashes(cs@.skip(i as int)) == without_slashes(cs@),
        decreases cs.len() - i,
    {
        assert(cs@.skip(i as int).drop_first() =~= cs@.skip(i + 1));
        i += 1;
    }
    assert(cs@.subrange(i as int, cs.len() as int) =~= cs@.skip(i as int));
    text::slice_text(&cs, i, cs.len())
}

/// Expand glob patterns in paths (handles one `*` wildcard in workspace member declarations)
pub fn glob_paths(pattern: &str) -> (r: GlobPlan)
    ensures
        r is Literal <==> !pattern@.contains('*') && !pattern@.contains('?'),
        r is Walk <==> !(r is Literal) && text::split(pattern@, '*').len() == 2 && glob_parent(
            text::split(pattern@, '*')[0],
        ) is Some,
        match r {
            GlobPlan::Walk { parent, suffix } => glob_parent(text::split(pattern@, '*')[0])
                == Some(parent@) && suffix@ == without_slashes(text::split(pattern@, '*')[1]),
            _ => true,
        },
{
    if !text::contains_char(pattern, '*') && !text::contains_char(pattern, '?') {
        return GlobPlan::Literal;
    }
    let parts = text::split_on(pattern, '*');
    assert(text::texts(parts@) == text::split(pattern@, '*'));
    if parts.len() != 2 {
        return GlobPlan::Nothing;
    }
    let lead = parts[0].as_str();
    assert(lead@ == text::split(pattern@, '*')[0]);
    assert(parts@[1]@ == text::split(pattern@, '*')[1]);
    let cs = text::chars_of(lead);
    let suffix = strip_slashes(parts[1].as_str());
    if cs.len() > 0 && (cs[cs.len() - 1] == '/' || cs[cs.len() - 1] == '\\') {
        return GlobPlan::Walk { parent: parts[0].clone(), suffix };
    }
    match path::parent_of(lead) {
        Some(parent) => GlobPlan::Walk { parent, suffix },
        None => GlobPlan::Nothing,
    }
}

// ── Overview ──

/// The number of the first `n` dependencies of a kind.
pub open spec fn count_deps(deps: Seq<InternalDep>, version: bool, path: bool, n: nat) -> nat
    decreases n,
{
    if n == 0 {
        0
    } else {
        count_deps(deps, version, path, (n - 1) as nat) + if deps[n - 1].has_version == version
            && deps[n - 1].has_path == path {
            1nat
        } else {
            0nat
        }
    }
}

/// How many dependencies have this pair of settings.
pub fn count_specified(deps: &Vec<InternalDep>, version: bool, path: bool) -> (r: usize)
    ensures
        r == count_deps(deps@, version, path, deps@.len()),
{
    let mut n: usize = 0;
    let mut i: usize = 0;
    while i < deps.len()
        invariant
            i <= deps.len(),
            n <= i,
            n == count_deps(deps@, version, path, i as nat),
        decreases deps.len() - i,
    {
        if deps[i].has_version == version && deps[i].has_path == path {
            n += 1;
        }
        i += 1;
    }
    n
}

/// The repo directories of the crates, crate by crate.
pub open spec fn repo_dirs(crates: TextMap<CrateInfo>) -> Seq<Seq<char>> {
    crates.values().map_values(|c: CrateInfo| c.repo_dir@)
}

/// The crates grouped by repo: places among the crates in the order of their names.
pub fn crates_by_repo(eco: &Ecosystem) -> (r: Vec<Group>)
    ensures
        group::is_grouping(repo_dirs(eco.crates), r@),
{
    let n: usize = eco.crates.len();
    let mut dirs: Vec<String> = Vec::new();
    let mut i: usize = 0;
    assert(text::texts(dirs@) =~= repo_dirs(eco.crates).take(0));
    while i < n
        invariant
            i <= n,
            n == eco.crates.keys().len(),
            n == eco.crates.values().len(),
            text::texts(dirs@) == repo_dirs(eco.crates).take(i as int),
        decreases n - i,
    {
        let info = eco.crates.value_at(i);
        dirs.push(info.repo_dir.clone());
        assert(repo_dirs(eco.crates).take(i + 1) =~= repo_dirs(eco.crates).take(i as int).push(
            info.repo_dir@,
        ));
        i += 1;
    }
    assert(repo_dirs(eco.crates).take(n as int) =~= repo_dirs(eco.crates));
    group::groups_of(&dirs)
}

/// A crate and how many dependencies lead to it.
pub struct Popularity {
    pub name: String,
    pub dependents: usize,
}

/// The targets of the dependencies.
pub open spec fn dep_targets(deps: Seq<InternalDep>) -> Seq<Seq<char>> {
    deps.map_values(|d: InternalDep| d.to_crate@)
}

/// Whether the list holds each target with its number of dependencies, most first, then by
/// name.
pub open spec fn is_popularity(deps: Seq<InternalDep>, list: Seq<Popularity>) -> bool {
    &&& forall|i: int|
        0 <= i < list.len() ==> dep_targets(deps).contains((#[trigger] list[i]).name@)
            && list[i].dependents == group::places(
            dep_targets(deps),
            list[i].name@,
            deps.len(),
        ).len()
    &&& forall|i: int, j: int|
        0 <= i < j < list.len() ==> (#[trigger] list[i]).dependents > (
        #[trigger] list[j]).dependents || (list[i].dependents == list[j].dependents
            && text::precedes(list[i].name@, list[j].name@))
    &&& forall|x: Seq<char>| #[trigger]
        dep_targets(deps).contains(x) ==> exists|i: int|
            0 <= i < list.len() && (#[trigger] list[i]).name@ == x
}

/// The most-depended-on crates, most first.
pub fn most_depended_on(deps: &Vec<InternalDep>) -> (r: Vec<Popularity>)
    ensures
        is_popularity(deps@, r@),
{
    let ghost ts = dep_targets(deps@);
    let mut keys: Vec<String> = Vec::new();
    let mut i: usize = 0;
    assert(text::texts(keys@) =~= ts.take(0));
    while i < deps.len()
        invariant
            i <= deps.len(),
            ts == dep_targets(deps@),
            text::texts(keys@) == ts.take(i as int),
        decreases deps.len() - i,
    {
        keys.push(deps[i].to_crate.clone());
        assert(ts.take(i + 1) =~= ts.take(i as int).push(deps@[i as int].to_crate@));
        i += 1;
    }
    assert(ts.take(i as int) =~= ts);
    let groups = group::groups_of(&keys);
    let ghost gk = group::group_keys(groups@);
    let mut scores: Vec<usize> = Vec::new();
    let mut g: usize = 0;
    while g < groups.len()
        invariant
            g <= groups.len(),
            scores.len() == g,
            forall|k: int|
                0 <= k < g ==> (#[trigger] scores@[k]) == groups@[k].members@.len(),
        decreases groups.len() - g,
    {
        scores.push(groups[g].members.len());
        g += 1;
    }
    let order = group::ranked(&scores);
    let mut out: Vec<Popularity> = Vec::new();
    let mut p: usize = 0;
    while p < order.len()
        invariant
            p <= order.len(),
            out.len() == p,
            order.len() == groups.len(),
            group::is_ranking(scores@, order@),
            forall|k: int|
                0 <= k < p ==> (#[trigger] out@[k]).name@ == groups@[order@[k] as int].key@
                    && out@[k].dependents == scores@[order@[k] as int],
        decreases order.len() - p,
    {
        let at: usize = order[p];
        out.push(Popularity { name: groups[at].key.clone(), dependents: scores[at] });
        p += 1;
    }
    proof {
        assert forall|k: int| 0 <= k < out.len() implies ts.contains((#[trigger] out@[k]).name@)
            && out@[k].dependents == group::places(ts, out@[k].name@, deps@.len()).len() by {
            let at = order@[k] as int;
            assert(gk[at] == groups@[at].key@);
            assert(gk.contains(gk[at]));
            assert(group::ints(groups@[at].members@).len() == groups@[at].members@.len());
        }
        assert forall|a: int, b: int| 0 <= a < b < out.len() implies (
        #[trigger] out@[a]).dependents > (#[trigger] out@[b]).dependents || (out@[a].dependents
            == out@[b].dependents && text::precedes(out@[a].name@, out@[b].name@)) by {
            let (x, y) = (order@[a] as int, order@[b] as int);
            assert(group::ranks_before(scores@, x, y));
            if scores@[x] == scores@[y] {
                assert(gk[x] == groups@[x].key@ && gk[y] == groups@[y].key@);
                assert(text::precedes(gk[x], gk[y]));
            }
        }
        assert forall|x: Seq<char>| #[trigger] ts.contains(x) implies exists|i: int|
            0 <= i < out.len() && (#[trigger] out@[i]).name@ == x by {
            assert(gk.contains(x));
            let at = gk.index_of(x);
            assert(gk[at] == groups@[at].key@);
            group::law_ranking_is_complete(scores@, order@, at);
            let k = choose|k: int| 0 <= k < order.len() && #[trigger] order@[k] == at;
            assert(out@[k].name@ == x);
        }
    }
    out
}

/// Whether the manifest of a crate, where it is known, lies in a directory.
pub open spec fn is_placed(name: Seq<char>, eco: Ecosystem) -> bool {
    eco.crates.has(name) ==> path::parent(eco.crates@[name].manifest_path@) is Some
}

/// Whether the manifests of the known crates of a list lie in directories.
pub open spec fn are_placed(names: Seq<Seq<char>>, eco: Ecosystem) -> bool {
    forall|i: int| 0 <= i < names.len() ==> is_placed(#[trigger] names[i], eco)
}

/// Whether the manifests of the known crates of a list lie in directories.
pub fn all_placed(names: &Vec<String>, eco: &Ecosystem) -> (r: bool)
    ensures
        r == are_placed(text::texts(names@), *eco),
{
    let ghost ns = text::texts(names@);
    let mut i: usize = 0;
    while i < names.len()
        invariant
            i <= names.len(),
            ns == text::texts(names@),
            forall|k: int| 0 <= k < i ==> is_placed(#[trigger] ns[k], *eco),
        decreases names.len() - i,
    {
        assert(ns[i as int] == names@[i as int]@);
        if let Some(info) = eco.crates.get(names[i].as_str()) {
            if path::parent_of(info.manifest_path.as_str()).is_none() {
                assert(!is_placed(ns[i as int], *eco));
                return false;
            }
        }
        i += 1;
    }
    true
}

// ── Dependencies by manifest ──

/// The dependencies that one manifest declares.
pub struct ManifestDeps {
    pub manifest_path: String,
    pub deps: Vec<InternalDep>,
}

/// The dependencies of a list that a manifest declares, in order.
pub open spec fn declared_in(deps: Seq<DepModel>, manifest_path: Seq<char>) -> Seq<DepModel>
    decreases deps.len(),
{
    if deps.len() == 0 {
        Seq::empty()
    } else if path::is_same(deps.last().manifest_path, manifest_path) {
        declared_in(deps.drop_last(), manifest_path).push(deps.last())
    } else {
        declared_in(deps.drop_last(), manifest_path)
    }
}

/// Whether a list of manifests holds each that declares a dependency once, in the order of their
/// paths, with all dependencies that it declares.
pub open spec fn is_by_manifest(deps: Seq<DepModel>, list: Seq<ManifestDeps>) -> bool {
    &&& forall|i: int, j: int|
        0 <= i < j < list.len() ==> path::comes_before(
            (#[trigger] list[i]).manifest_path@,
            (#[trigger] list[j]).manifest_path@,
        )
    &&& forall|i: int|
        0 <= i < list.len() ==> dep_models((#[trigger] list[i]).deps@) == declared_in(
            deps,
            list[i].manifest_path@,
        )
    &&& forall|i: int| 0 <= i < list.len() ==> (#[trigger] list[i]).deps@.len() > 0
    &&& forall|k: int| 0 <= k < deps.len() ==> is_listed((#[trigger] deps[k]).manifest_path, list)
}

pub proof fn lemma_declared_in(deps: Seq<DepModel>, manifest_path: Seq<char>)
    ensures
        forall|d: DepModel| #[trigger]
            declared_in(deps, manifest_path).contains(d) <==> deps.contains(d) && path::is_same(
                d.manifest_path,
                manifest_path,
            ),
    decreases deps.len(),
{
    if deps.len() > 0 {
        lemma_declared_in(deps.drop_last(), manifest_path);
        assert(deps =~= deps.drop_last().push(deps.last()));
        group::lemma_push_contains(deps.drop_last(), deps.last());
        group::lemma_push_contains(declared_in(deps.drop_last(), manifest_path), deps.last());
    }
}

proof fn lemma_declared_some(deps: Seq<DepModel>, manifest_path: Seq<char>, k: int)
    requires
        0 <= k < deps.len(),
        path::is_same(deps[k].manifest_path, manifest_path),
    ensures
        declared_in(deps, manifest_path).len() > 0,
    decreases deps.len(),
{
    if k < deps.len() - 1 {
        lemma_declared_some(deps.drop_last(), manifest_path, k);
    }
}

/// Whether a list of manifests holds the one at a path.
pub open spec fn is_listed(manifest_path: Seq<char>, list: Seq<ManifestDeps>) -> bool {
    exists|i: int|
        0 <= i < list.len() && path::is_same(manifest_path, (#[trigger] list[i]).manifest_path@)
}

/// A copy of a dependency.
pub fn copy_dep(dep: &InternalDep) -> (r: InternalDep)
    ensures
        r@ == dep@,
{
    InternalDep {
        from_crate: dep.from_crate.clone(),
        to_crate: dep.to_crate.clone(),
        dep_key: dep.dep_key.clone(),
        section: dep.section,
        has_version: dep.has_version,
        has_path: dep.has_path,
        is_optional: dep.is_optional,
        path_value: text::opt_clone(&dep.path_value),
        version_value: text::opt_clone(&dep.version_value),
        manifest_path: dep.manifest_path.clone(),
    }
}

fn insert_path(paths: &mut Vec<String>, p: String)
    requires
        forall|i: int, j: int|
            0 <= i < j < old(paths)@.len() ==> path::comes_before(
                (#[trigger] old(paths)@[i])@,
                (#[trigger] old(paths)@[j])@,
            ),
    ensures
        forall|i: int, j: int|
            0 <= i < j < final(paths)@.len() ==> path::comes_before(
                (#[trigger] final(paths)@[i])@,
                (#[trigger] final(paths)@[j])@,
            ),
        forall|i: int|
            0 <= i < old(paths)@.len() ==> final(paths)@.contains(#[trigger] old(paths)@[i]),
        exists|i: int|
            0 <= i < final(paths)@.len() && path::is_same(p@, (#[trigger] final(paths)@[i])@),
        forall|i: int|
            0 <= i < final(paths)@.len() ==> old(paths)@.contains(#[trigger] final(paths)@[i])
                || final(paths)@[i] == p,
{
    let ghost was = paths@;
    let mut k: usize = 0;
    while k < paths.len() && path::path_before(paths[k].as_str(), p.as_str())
        invariant
            k <= paths.len(),
            was == paths@,
            forall|j: int| 0 <= j < k ==> path::comes_before((#[trigger] was[j])@, p@),
        decreases paths.len() - k,
    {
        k += 1;
    }
    if k < paths.len() && path::same_path(p.as_str(), paths[k].as_str()) {
        assert(forall|i: int| 0 <= i < was.len() ==> was.contains(#[trigger] was[i]));
        return;
    }
    let ghost new = p@;
    let ghost put = p;
    paths.insert(k, p);
    proof {
        let now = paths@;
        assert forall|i: int| 0 <= i < now.len() implies was.contains(#[trigger] now[i]) || now[i]
            == put by {
            if i != k {
                assert(was[if i < k { i } else { i - 1 }] == now[i]);
            }
        }
        if k < was.len() {
            path::law_paths_are_ordered(was[k as int]@, new, new);
        }
        assert forall|j: int| k <= j < was.len() implies path::comes_before(
            new,
            (#[trigger] was[j])@,
        ) by {
            path::law_paths_are_ordered(new, was[k as int]@, was[j]@);
            path::law_paths_are_ordered(was[k as int]@, new, new);
        }
        assert forall|i: int, j: int| 0 <= i < j < now.len() implies path::comes_before(
            (#[trigger] now[i])@,
            (#[trigger] now[j])@,
        ) by {
            let i0 = if i < k { i } else { i - 1 };
            let j0 = if j < k { j } else { j - 1 };
            assert(i != k ==> now[i] == was[i0]);
            assert(j != k ==> now[j] == was[j0]);
        }
        assert forall|i: int| 0 <= i < was.len() implies now.contains(#[trigger] was[i]) by {
            assert(now[if i < k { i } else { i + 1 }] == was[i]);
        }
        assert(now[k as int]@ == new);
        assert(path::is_same(new, now[k as int]@));
    }
}

fn deps_in(deps: &Vec<InternalDep>, manifest_path: &str) -> (r: Vec<InternalDep>)
    ensures
        dep_models(r@) == declared_in(dep_models(deps@), manifest_path@),
{
    let ghost ds = dep_models(deps@);
    let mut out: Vec<InternalDep> = Vec::new();
    let mut i: usize = 0;
    assert(ds.take(0) =~= Seq::<DepModel>::empty());
    assert(dep_models(out@) =~= Seq::<DepModel>::empty());
    while i < deps.len()
        invariant
            i <= deps.len(),
            ds == dep_models(deps@),
            dep_models(out@) == declared_in(ds.take(i as int), manifest_path@),
        decreases deps.len() - i,
    {
        assert(ds.take(i + 1).drop_last() =~= ds.take(i as int));
        assert(ds.take(i + 1).last() == deps@[i as int]@);
        if path::same_path(deps[i].manifest_path.as_str(), manifest_path) {
            let ghost sofar = dep_models(out@);
            let dep = copy_dep(&deps[i]);
            let ghost m = dep@;
            out.push(dep);
            assert(dep_models(out@) =~= sofar.push(m));
        }
        i += 1;
    }
    assert(ds.take(i as int) =~= ds);
    out
}

/// Whether a list of paths holds each path of another once, in order.
pub open spec fn are_ordered_paths(list: Seq<String>, paths: Seq<String>) -> bool {
    &&& forall|i: int, j: int|
        0 <= i < j < list.len() ==> path::comes_before(
            (#[trigger] list[i])@,
            (#[trigger] list[j])@,
        )
    &&& forall|i: int| 0 <= i < list.len() ==> paths.contains(#[trigger] list[i])
    &&& forall|k: int| 0 <= k < paths.len() ==> is_among((#[trigger] paths[k])@, list)
}

/// Whether a list of paths holds a path.
pub open spec fn is_among(p: Seq<char>, list: Seq<String>) -> bool {
    exists|i: int| 0 <= i < list.len() && path::is_same(p, (#[trigger] list[i])@)
}

/// The paths of a list in order, each once.
pub fn ordered_paths(paths: &Vec<String>) -> (r: Vec<String>)
    ensures
        are_ordered_paths(r@, paths@),
{
    let mut list: Vec<String> = Vec::new();
    let mut i: usize = 0;
    while i < paths.len()
        invariant
            i <= paths.len(),
            are_ordered_paths(list@, paths@.take(i as int)),
        decreases paths.len() - i,
    {
        let ghost was = list@;
        let ghost sofar = paths@.take(i as int);
        let ghost next = paths@.take(i + 1);
        insert_path(&mut list, paths[i].clone());
        proof {
            assert(next =~= sofar.push(paths@[i as int]));
            group::lemma_push_contains(sofar, paths@[i as int]);
            assert forall|k: int| 0 <= k < next.len() implies is_among(
                (#[trigger] next[k])@,
                list@,
            ) by {
                if k < i {
                    assert(sofar[k] == next[k]);
                    let a = choose|a: int|
                        0 <= a < was.len() && path::is_same(sofar[k]@, (#[trigger] was[a])@);
                    assert(list@.contains(was[a]));
                    let b = list@.index_of(was[a]);
                    assert(path::is_same(next[k]@, list@[b]@));
                }
            }
        }
        i += 1;
    }
    assert(paths@.take(i as int) =~= paths@);
    list
}

/// Group dependencies by the manifest that declares them.
pub fn deps_by_manifest(deps: &Vec<InternalDep>) -> (r: Vec<ManifestDeps>)
    ensures
        is_by_manifest(dep_models(deps@), r@),
{
    let ghost ds = dep_models(deps@);
    let mut paths: Vec<String> = Vec::new();
    let mut i: usize = 0;
    while i < deps.len()
        invariant
            i <= deps.len(),
            paths.len() == i,
            forall|k: int| 0 <= k < i ==> (#[trigger] paths@[k])@ == deps@[k].manifest_path@,
        decreases deps.len() - i,
    {
        paths.push(deps[i].manifest_path.clone());
        i += 1;
    }
    let list = ordered_paths(&paths);
    let mut out: Vec<ManifestDeps> = Vec::new();
    let mut j: usize = 0;
    while j < list.len()
        invariant
            j <= list.len(),
            ds == dep_models(deps@),
            out.len() == j,
            forall|a: int|
                0 <= a < j ==> (#[trigger] out@[a]).manifest_path@ == list@[a]@ && dep_models(
                    out@[a].deps@,
                ) == declared_in(ds, list@[a]@),
        decreases list.len() - j,
    {
        out.push(
            ManifestDeps {
                manifest_path: list[j].clone(),
                deps: deps_in(deps, list[j].as_str()),
            },
        );
        j += 1;
    }
    proof {
        assert forall|a: int| 0 <= a < out.len() implies (#[trigger] out@[a]).deps@.len() > 0 by {
            assert(paths@.contains(list@[a]));
            let k = paths@.index_of(list@[a]);
            assert(ds[k].manifest_path == paths@[k]@);
            lemma_declared_some(ds, list@[a]@, k);
            assert(dep_models(out@[a].deps@).len() == out@[a].deps@.len());
        }
        assert forall|k: int| 0 <= k < ds.len() implies is_listed(
            (#[trigger] ds[k]).manifest_path,
            out@,
        ) by {
            assert(is_among(paths@[k]@, list@));
            let a = choose|a: int|
                0 <= a < list@.len() && path::is_same(paths@[k]@, (#[trigger] list@[a])@);
            assert(path::is_same(ds[k].manifest_path, out@[a].manifest_path@));
        }
    }
    out
}

// ── What a scan finds ──

/// An entry is internal where the crate that it means is known, whether or not it has a path, and
/// where it has a path that starts upwards, whether or not the crate is known.
pub proof fn law_internal_entries(v: Toml, key: Seq<char>, known: Set<Seq<char>>)
    ensures
        is_internal(v, key, known) <==> (match v.at("package"@) {
            Some(Toml::Text(t)) => known.contains(t@),
            _ => known.contains(key),
        }) || (v.at("path"@) matches Some(Toml::Text(p)) && ".."@.is_prefix_of(p@)),
{
}

/// The version of an entry is the text itself, or the one in its table; its path, its package and
/// its optionality stand in the table only.
pub proof fn law_entry_is_read(
    crate_name: Seq<char>,
    manifest_path: Seq<char>,
    section: DepSection,
    key: Seq<char>,
    v: Toml,
    w: Toml,
)
    ensures
        ({
            let d = declared(crate_name, manifest_path, section, key, v, w);
            &&& d.from_crate == crate_name && d.dep_key == key && d.section == section
                && d.manifest_path == manifest_path
            &&& d.has_version <==> w is Text || (w.at("version"@) is Some && w.at(
                "version"@,
            ).unwrap() is Text)
            &&& d.has_path <==> w.at("path"@) is Some && w.at("path"@).unwrap() is Text
            &&& d.has_version <==> d.version_value is Some
            &&& d.has_path <==> d.path_value is Some
            &&& w matches Toml::Text(t) ==> d.version_value == Some(t@) && !d.has_path && d.to_crate
                == key
            &&& w.at("version"@) matches Some(Toml::Text(t)) ==> d.version_value == Some(t@)
            &&& w.at("path"@) matches Some(Toml::Text(t)) ==> d.path_value == Some(t@)
            &&& w.at("package"@) matches Some(Toml::Text(t)) ==> d.to_crate == t@
            &&& w.at("package"@) is None ==> d.to_crate == key
            &&& d.is_optional <==> v.at("optional"@) == Some(Toml::Boolean(true))
        }),
{
}

/// An internal entry is taken as it stands, or, where it says `workspace = true`, as the workspace
/// has it under the same key, with the optionality of its own; what the workspace does not have, or
/// has as something else, is left out.
pub proof fn law_inherited_entries(
    crate_name: Seq<char>,
    manifest_path: Seq<char>,
    section: DepSection,
    key: Seq<char>,
    v: Toml,
    known: Set<Seq<char>>,
    ws: Option<Seq<(String, Toml)>>,
)
    ensures
        ({
            let dep = entry_dep(crate_name, manifest_path, section, key, v, known, ws);
            let inherits = v.at("workspace"@) == Some(Toml::Boolean(true));
            &&& !is_internal(v, key, known) ==> dep is None
            &&& is_internal(v, key, known) && !inherits ==> dep == Some(
                declared(crate_name, manifest_path, section, key, v, v),
            )
            &&& is_internal(v, key, known) && inherits ==> (dep is Some <==> ws is Some
                && value::lookup(ws.unwrap(), key) is Some && is_internal(
                value::lookup(ws.unwrap(), key).unwrap(),
                key,
                known,
            ))
            &&& is_internal(v, key, known) && inherits && dep is Some ==> dep == Some(
                declared(
                    crate_name,
                    manifest_path,
                    section,
                    key,
                    v,
                    value::lookup(ws.unwrap(), key).unwrap(),
                ),
            )
        }),
{
}

/// The scan of a section takes in each of its entries that stands for an internal dependency, in
/// their order.
pub proof fn law_section_is_scanned(
    crate_name: Seq<char>,
    manifest_path: Seq<char>,
    section: DepSection,
    rows: Seq<(String, Toml)>,
    known: Set<Seq<char>>,
    ws: Option<Seq<(String, Toml)>>,
    n: nat,
)
    ensures
        section_deps(crate_name, manifest_path, section, rows, known, ws, n)
            == Seq::new(n, |i: int| i).filter(
            |i: int|
                entry_dep(crate_name, manifest_path, section, rows[i].0@, rows[i].1, known,
                    ws) is Some,
        ).map_values(
            |i: int|
                entry_dep(crate_name, manifest_path, section, rows[i].0@, rows[i].1, known,
                    ws).unwrap(),
        ),
    decreases n,
{
    reveal(Seq::filter);
    let all = Seq::new(n, |i: int| i);
    if n > 0 {
        law_section_is_scanned(crate_name, manifest_path, section, rows, known, ws, (n - 1) as nat);
        assert(all.drop_last() =~= Seq::new((n - 1) as nat, |i: int| i));
        assert(all.last() == n - 1);
    } else {
        assert(all =~= Seq::<int>::empty());
    }
}

/// Each dependency counts under whether it has a version and whether it has a path.
pub proof fn law_specifications_are_counted(
    deps: Seq<InternalDep>,
    version: bool,
    path: bool,
    n: nat,
)
    ensures
        count_deps(deps, version, path, n) == Seq::new(n, |i: int| i).filter(
            |i: int| deps[i].has_version == version && deps[i].has_path == path,
        ).len(),
    decreases n,
{
    reveal(Seq::filter);
    let all = Seq::new(n, |i: int| i);
    if n > 0 {
        law_specifications_are_counted(deps, version, path, (n - 1) as nat);
        assert(all.drop_last() =~= Seq::new((n - 1) as nat, |i: int| i));
        assert(all.last() == n - 1);
    } else {
        assert(all =~= Seq::<int>::empty());
    }
}

/// A scan goes through the ordinary, the dev and the build dependencies of a manifest, in this
/// order.
pub proof fn law_all_sections_are_scanned(
    doc: Toml,
    crate_name: Seq<char>,
    manifest_path: Seq<char>,
    known: Set<Seq<char>>,
    ws: Option<Seq<(String, Toml)>>,
    section: DepSection,
    rows: Seq<(String, Toml)>,
    i: int,
)
    requires
        section != DepSection::WorkspaceDependencies,
        doc.at(section.label()) matches Some(Toml::Table(t)) && t@ == rows,
        0 <= i < rows.len(),
    ensures
        entry_dep(crate_name, manifest_path, section, rows[i].0@, rows[i].1, known,
            ws) matches Some(
            d,
        ) ==> manifest_deps(doc, crate_name, manifest_path, known, ws).contains(d),
{
    lemma_section_has(crate_name, manifest_path, section, rows, known, ws, rows.len(), i);
    let one = whole_section_deps(
        doc,
        crate_name,
        manifest_path,
        DepSection::Dependencies,
        known,
        ws,
    );
    let two = whole_section_deps(
        doc,
        crate_name,
        manifest_path,
        DepSection::DevDependencies,
        known,
        ws,
    );
    let three = whole_section_deps(
        doc,
        crate_name,
        manifest_path,
        DepSection::BuildDependencies,
        known,
        ws,
    );
    if let Some(d) = entry_dep(
        crate_name,
        manifest_path,
        section,
        rows[i].0@,
        rows[i].1,
        known,
        ws,
    ) {
        group::lemma_concat_contains(one, two, d);
        group::lemma_concat_contains(one + two, three, d);
    }
}

proof fn lemma_section_has(
    crate_name: Seq<char>,
    manifest_path: Seq<char>,
    section: DepSection,
    rows: Seq<(String, Toml)>,
    known: Set<Seq<char>>,
    ws: Option<Seq<(String, Toml)>>,
    n: nat,
    i: int,
)
    requires
        0 <= i < n,
    ensures
        entry_dep(crate_name, manifest_path, section, rows[i].0@, rows[i].1, known,
            ws) matches Some(
            d,
        ) ==> section_deps(crate_name, manifest_path, section, rows, known, ws, n).contains(d),
    decreases n,
{
    let k = (n - 1) as nat;
    let before = section_deps(crate_name, manifest_path, section, rows, known, ws, k);
    if i < k {
        lemma_section_has(crate_name, manifest_path, section, rows, known, ws, k, i);
    }
    if let Some(last) = entry_dep(
        crate_name,
        manifest_path,
        section,
        rows[n - 1].0@,
        rows[n - 1].1,
        known,
        ws,
    ) {
        group::lemma_push_contains(before, last);
    }
}

/// Every dependency that a scan finds stands in one of the three sections, and none is found in a
/// manifest without them.
pub proof fn law_nothing_else_is_found(
    doc: Toml,
    crate_name: Seq<char>,
    manifest_path: Seq<char>,
    known: Set<Seq<char>>,
    ws: Option<Seq<(String, Toml)>>,
    d: DepModel,
)
    requires
        manifest_deps(doc, crate_name, manifest_path, known, ws).contains(d),
    ensures
        d.section != DepSection::WorkspaceDependencies,
        d.from_crate == crate_name,
        d.manifest_path == manifest_path,
        value::rows_of(doc.at(d.section.label())) matches Some(rows) && exists|i: int|
            0 <= i < rows.len() && entry_dep(
                crate_name,
                manifest_path,
                d.section,
                (#[trigger] rows[i]).0@,
                rows[i].1,
                known,
                ws,
            ) == Some(d),
{
    let one = whole_section_deps(
        doc,
        crate_name,
        manifest_path,
        DepSection::Dependencies,
        known,
        ws,
    );
    let two = whole_section_deps(
        doc,
        crate_name,
        manifest_path,
        DepSection::DevDependencies,
        known,
        ws,
    );
    let three = whole_section_deps(
        doc,
        crate_name,
        manifest_path,
        DepSection::BuildDependencies,
        known,
        ws,
    );
    group::lemma_concat_contains(one, two, d);
    group::lemma_concat_contains(one + two, three, d);
    let section = if one.contains(d) {
        DepSection::Dependencies
    } else if two.contains(d) {
        DepSection::DevDependencies
    } else {
        DepSection::BuildDependencies
    };
    let rows = value::rows_of(doc.at(section.label())).unwrap();
    lemma_section_only_has(crate_name, manifest_path, section, rows, known, ws, rows.len(), d);
}

proof fn lemma_section_only_has(
    crate_name: Seq<char>,
    manifest_path: Seq<char>,
    section: DepSection,
    rows: Seq<(String, Toml)>,
    known: Set<Seq<char>>,
    ws: Option<Seq<(String, Toml)>>,
    n: nat,
    d: DepModel,
)
    requires
        section_deps(crate_name, manifest_path, section, rows, known, ws, n).contains(d),
        n <= rows.len(),
    ensures
        d.section == section,
        d.from_crate == crate_name,
        d.manifest_path == manifest_path,
        exists|i: int|
            0 <= i < n && entry_dep(
                crate_name,
                manifest_path,
                section,
                (#[trigger] rows[i]).0@,
                rows[i].1,
                known,
                ws,
            ) == Some(d),
    decreases n,
{
    if n > 0 {
        let k = (n - 1) as nat;
        let before = section_deps(crate_name, manifest_path, section, rows, known, ws, k);
        let last = entry_dep(
            crate_name,
            manifest_path,
            section,
            rows[n - 1].0@,
            rows[n - 1].1,
            known,
            ws,
        );
        if let Some(x) = last {
            group::lemma_push_contains(before, x);
        }
        if before.contains(d) {
            lemma_section_only_has(crate_name, manifest_path, section, rows, known, ws, k, d);
        } else {
            assert(last == Some(d));
            assert(rows[n - 1] == rows[n - 1]);
        }
    }
}

/// A crate can be published unless its manifest says `publish = false` or lists no registry, or
/// the configuration names it as unpublished.
pub proof fn law_publishable_crates(
    info: CrateInfo,
    doc: Toml,
    manifest_path: Seq<char>,
    repo_dir: Seq<char>,
    config: SuperworkConfig,
    workspace_root: Option<Seq<char>>,
    has_lib_file: bool,
    inline_ci: Option<CiCrateOverride>,
)
    requires
        describes(
            info,
            doc,
            manifest_path,
            repo_dir,
            config,
            workspace_root,
            has_lib_file,
            inline_ci,
        ),
    ensures
        ({
            let pkg = doc.at("package"@).unwrap();
            let publish = pkg.at("publish"@);
            &&& publish == Some(Toml::Boolean(false)) ==> !info.publishable
            &&& (publish matches Some(Toml::Array(a)) && a@.len() == 0) ==> !info.publishable
            &&& text::texts(config.unpublished.crates@).contains(info.name@) ==> !info.publishable
            &&& publish is None && !text::texts(config.unpublished.crates@).contains(info.name@)
                ==> info.publishable
            &&& publish == Some(Toml::Boolean(true)) && !text::texts(
                config.unpublished.crates@,
            ).contains(info.name@) ==> info.publishable
            &&& (publish matches Some(Toml::Array(a)) && a@.len() > 0) && !text::texts(
                config.unpublished.crates@,
            ).contains(info.name@) ==> info.publishable
            &&& pkg.at("version"@) matches Some(Toml::Text(t)) ==> info.version@ == t@
            &&& pkg.at("version"@) is None ==> info.version@ == "0.0.0"@
            &&& pkg.at("name"@) matches Some(Toml::Text(t)) ==> info.name@ == t@
            &&& info.manifest_path@ == manifest_path && info.repo_dir@ == repo_dir
            &&& text::opt(info.workspace_root) == workspace_root
            &&& text::opt(info.github_url) == config.url_of(repo_dir)
            &&& info.inline_ci == inline_ci
        }),
{
    text::lemma_lists_texts(config.unpublished.crates@, info.name@);
}

/// The class that the configuration gives a crate counts. Without one, the name of a crate for
/// foreign callers tells, and a crate with a binary and no library is a binary.
pub proof fn law_classes(doc: Toml, name: Seq<char>, config: SuperworkConfig, has_lib_file: bool)
    ensures
        ({
            let class = class_of(doc, name, config, has_lib_file);
            let configured = config.release.crate_class.has(name);
            let foreign = "_abi"@.is_suffix_of(name) || "-ffi"@.is_suffix_of(name)
                || "_ffi"@.is_suffix_of(name);
            let only_bins = (doc.at("bin"@) matches Some(Toml::Array(a)) && a@.len() > 0)
                && doc.at("lib"@) is None && !has_lib_file;
            &&& configured ==> class == config.release.crate_class@[name]
            &&& !configured ==> (class is Abi <==> foreign)
            &&& !configured ==> (class is Binary <==> !foreign && only_bins)
            &&& !configured ==> (class is Library <==> !foreign && !only_bins)
        }),
{
}

/// A member goes by its own metadata only; what is no member goes by its own where there is some,
/// else by that of the workspace in the same manifest.
pub proof fn law_metadata_of_members(doc: Toml)
    ensures
        metadata_base(doc, true) is Some ==> metadata_under(doc, "package"@) is Some,
        metadata_under(doc, "package"@) is Some ==> metadata_rows(doc, true) == metadata_under(
            doc,
            "package"@,
        ) && metadata_rows(doc, false) == metadata_under(doc, "package"@),
        metadata_under(doc, "package"@) is None ==> metadata_rows(doc, true) is None
            && metadata_rows(doc, false) == metadata_under(doc, "workspace"@),
{
}

/// The scan leaves out the build directory, cargo's own and the retired repos, and no other.
pub proof fn law_skipped_dirs(name: Seq<char>)
    ensures
        is_skipped_dir(name) <==> seq!["target"@, ".cargo"@, "retired"@].contains(name),
{
    let all = seq!["target"@, ".cargo"@, "retired"@];
    assert(all[0] == "target"@ && all[1] == ".cargo"@ && all[2] == "retired"@);
}

/// The directory of a repo leads there: it is what lies between the root and the repo, or the way
/// from the one to the other once both are resolved.
pub proof fn law_repo_dirs_lead_there(
    p: Seq<char>,
    root: Seq<char>,
    resolved: Option<(Seq<char>, Seq<char>)>,
)
    ensures
        path::beneath(p, root) is Some ==> Some(repo_dir_of(p, root, resolved)) == path::beneath(
            p,
            root,
        ),
        path::beneath(p, root) is None && resolved is None ==> repo_dir_of(p, root, resolved) == p,
        path::beneath(p, root) is None && resolved is Some ==> repo_dir_of(p, root, resolved) == (
        match path::beneath(resolved.unwrap().0, resolved.unwrap().1) {
            Some(rel) => rel,
            None => path::relative(resolved.unwrap().1, resolved.unwrap().0),
        }),
{
}

/// A model says all that a dependency says.
pub proof fn law_models_are_faithful(d: InternalDep)
    ensures
        d@.from_crate == d.from_crate@ && d@.to_crate == d.to_crate@ && d@.dep_key == d.dep_key@
            && d@.section == d.section && d@.manifest_path == d.manifest_path@,
        d@.has_version == d.has_version && d@.has_path == d.has_path && d@.is_optional
            == d.is_optional,
        d.path_value matches Some(p) ==> d@.path_value == Some(p@),
        d.path_value is None ==> d@.path_value is None,
        d.version_value matches Some(v) ==> d@.version_value == Some(v@),
        d.version_value is None ==> d@.version_value is None,
{
}

/// The entries of a table of texts are all its texts; of two with one key the later one counts.
pub proof fn law_text_entries(rows: Seq<(String, Toml)>, n: nat, key: Seq<char>)
    requires
        n <= rows.len(),
    ensures
        text_entries(rows, n).dom().contains(key) <==> exists|i: int|
            0 <= i < n && (#[trigger] rows[i]).0@ == key && rows[i].1 is Text,
        text_entries(rows, n).dom().contains(key) ==> exists|i: int|
            0 <= i < n && (#[trigger] rows[i]).0@ == key && rows[i].1 == Toml::Text(
                rows[i].1->Text_0,
            ) && rows[i].1->Text_0@ == text_entries(rows, n)[key] && forall|j: int|
                i < j < n ==> (#[trigger] rows[j]).0@ != key || !(rows[j].1 is Text),
    decreases n,
{
    if n > 0 {
        let m = (n - 1) as nat;
        law_text_entries(rows, m, key);
        let last = rows[n - 1];
        if last.1 is Text && last.0@ == key {
            assert(rows[n - 1].0@ == key);
        } else if text_entries(rows, m).dom().contains(key) {
            let i = choose|i: int|
                0 <= i < m && (#[trigger] rows[i]).0@ == key && rows[i].1 == Toml::Text(
                    rows[i].1->Text_0,
                ) && rows[i].1->Text_0@ == text_entries(rows, m)[key] && forall|j: int|
                    i < j < m ==> (#[trigger] rows[j]).0@ != key || !(rows[j].1 is Text);
            assert(rows[i].0@ == key);
        }
    }
}

/// The lead of a pattern names a directory where it ends in a slash, and lies in one where it does
/// not.
pub proof fn law_pattern_leads(lead: Seq<char>)
    ensures
        lead.len() > 0 && lead.last() == '/' ==> glob_parent(lead) == Some(lead),
        lead.len() > 0 && lead.last() != '/' && lead.last() != '\\' ==> glob_parent(lead)
            == path::parent(lead),
{
}

/// Without its leading slashes a text starts with another character, and is the end of the text.
pub proof fn law_leading_slashes_go(s: Seq<char>)
    ensures
        without_slashes(s).is_suffix_of(s),
        without_slashes(s).len() > 0 ==> without_slashes(s)[0] != '/',
        forall|i: int| 0 <= i < s.len() - without_slashes(s).len() ==> #[trigger] s[i] == '/',
    decreases s.len(),
{
    if s.len() > 0 && s[0] == '/' {
        let rest = s.drop_first();
        law_leading_slashes_go(rest);
        let t = without_slashes(s);
        assert(s.subrange(s.len() - t.len(), s.len() as int) =~= rest.subrange(
            rest.len() - t.len(),
            rest.len() as int,
        ));
        assert forall|i: int| 0 <= i < s.len() - t.len() implies #[trigger] s[i] == '/' by {
            if i > 0 {
                assert(rest[i - 1] == s[i]);
            }
        }
    } else {
        assert(s.subrange(0, s.len() as int) =~= s);
    }
}

/// A workspace's members are the texts that its list holds, in order.
pub proof fn law_member_patterns(doc: Toml)
    ensures
        value::step(doc.at("workspace"@), "members"@) matches Some(Toml::Array(a))
            ==> member_patterns(doc) == a@.filter(|v: Toml| v is Text).map_values(
            |v: Toml| v->Text_0@,
        ),
        !(value::step(doc.at("workspace"@), "members"@) matches Some(Toml::Array(_)))
            ==> member_patterns(doc).len() == 0,
{
    if let Some(Toml::Array(a)) = value::step(doc.at("workspace"@), "members"@) {
        value::law_texts_are_picked(a@);
    }
}

/// Of the crates that are depended on, one with more dependents comes first, and each is counted
/// over all dependencies.
pub proof fn law_popular_crates_come_first(
    deps: Seq<InternalDep>,
    list: Seq<Popularity>,
    i: int,
    j: int,
)
    requires
        is_popularity(deps, list),
        0 <= i < j < list.len(),
    ensures
        list[i].dependents >= list[j].dependents,
        list[i].name@ != list[j].name@,
        list[i].dependents == list[j].dependents ==> text::precedes(
            list[i].name@,
            list[j].name@,
        ),
        list[i].dependents == group::places(dep_targets(deps), list[i].name@, deps.len()).len(),
        forall|k: int|
            0 <= k < deps.len() ==> exists|m: int|
                0 <= m < list.len() && (#[trigger] list[m]).name@ == (#[trigger] deps[k]).to_crate@,
{
    text::lemma_precedes_irreflexive(list[i].name@);
    assert forall|k: int| 0 <= k < deps.len() implies exists|m: int|
        0 <= m < list.len() && (#[trigger] list[m]).name@ == (#[trigger] deps[k]).to_crate@ by {
        assert(dep_targets(deps)[k] == deps[k].to_crate@);
        assert(dep_targets(deps).contains(deps[k].to_crate@));
    }
}

/// Grouping by manifest loses no dependency and makes none up: each stands with the manifest that
/// declares it, and each manifest comes once, in the order of the paths.
pub proof fn law_each_dep_stands_with_its_manifest(
    deps: Seq<DepModel>,
    list: Seq<ManifestDeps>,
    k: int,
)
    requires
        is_by_manifest(deps, list),
        0 <= k < deps.len(),
    ensures
        exists|i: int|
            0 <= i < list.len() && path::is_same(
                deps[k].manifest_path,
                (#[trigger] list[i]).manifest_path@,
            ) && dep_models(list[i].deps@).contains(deps[k]),
        forall|i: int, m: int|
            0 <= i < list.len() && 0 <= m < list[i].deps@.len() ==> deps.contains(
                (#[trigger] list[i].deps@[m])@,
            ) && path::is_same(list[i].deps@[m].manifest_path@, list[i].manifest_path@),
        forall|i: int, j: int|
            0 <= i < j < list.len() ==> !path::is_same(
                (#[trigger] list[i]).manifest_path@,
                (#[trigger] list[j]).manifest_path@,
            ),
{
    assert(is_listed(deps[k].manifest_path, list));
    let i = choose|i: int|
        0 <= i < list.len() && path::is_same(
            deps[k].manifest_path,
            (#[trigger] list[i]).manifest_path@,
        );
    lemma_declared_in(deps, list[i].manifest_path@);
    assert(deps.contains(deps[k]));
    assert(declared_in(deps, list[i].manifest_path@).contains(deps[k]));
    assert forall|i: int, m: int|
        0 <= i < list.len() && 0 <= m < list[i].deps@.len() implies deps.contains(
        (#[trigger] list[i].deps@[m])@,
    ) && path::is_same(list[i].deps@[m].manifest_path@, list[i].manifest_path@) by {
        lemma_declared_in(deps, list[i].manifest_path@);
        let models = dep_models(list[i].deps@);
        assert(models == declared_in(deps, list[i].manifest_path@));
        assert(models[m] == list[i].deps@[m]@);
        assert(models.contains(models[m]));
    }
    assert forall|i: int, j: int| 0 <= i < j < list.len() implies !path::is_same(
        (#[trigger] list[i]).manifest_path@,
        (#[trigger] list[j]).manifest_path@,
    ) by {
        path::law_paths_are_ordered(
            list[i].manifest_path@,
            list[j].manifest_path@,
            list[j].manifest_path@,
        );
    }
}

/// The check overrides of a crate are the texts of the `checks` table in the metadata that counts for
/// it; without such a table there are none.
pub proof fn law_inline_checks(
    doc: Toml,
    is_member: bool,
    meta: Seq<(String, Toml)>,
    rows: Seq<(String, Toml)>,
    key: Seq<char>,
)
    requires
        metadata_rows(doc, is_member) == Some(meta),
    ensures
        inline_checks_of(doc, is_member) is Some <==> value::rows_of(
            value::lookup(meta, "checks"@),
        ) is Some,
        value::rows_of(value::lookup(meta, "checks"@)) == Some(rows) ==> (inline_checks_of(
            doc,
            is_member,
        ).unwrap().dom().contains(key) <==> exists|i: int|
            0 <= i < rows.len() && (#[trigger] rows[i]).0@ == key && rows[i].1 is Text),
{
    law_text_entries(rows, rows.len(), key);
}

/// Paths in order lose none and make none up: each path of the list they come from is there once.
pub proof fn law_ordered_paths(list: Seq<String>, paths: Seq<String>, k: int, i: int, j: int)
    requires
        are_ordered_paths(list, paths),
    ensures
        0 <= k < paths.len() ==> exists|m: int|
            0 <= m < list.len() && path::is_same(paths[k]@, (#[trigger] list[m])@),
        0 <= i < list.len() ==> paths.contains(list[i]),
        0 <= i < j < list.len() ==> path::comes_before(list[i]@, list[j]@) && !path::is_same(
            list[i]@,
            list[j]@,
        ),
{
    if 0 <= k < paths.len() {
        assert(is_among(paths[k]@, list));
    }
    if 0 <= i < j < list.len() {
        path::law_paths_are_ordered(list[i]@, list[j]@, list[j]@);
    }
}

} // verus!
