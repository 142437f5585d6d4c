//! Format-preserving edits of `Cargo.toml` files.

use toml_edit::{DocumentMut, Item};
use vstd::prelude::*;
use vstd::string::*;

use crate::text;
use crate::text_map::TextMap;
use crate::value;

verus! {

/// toml_edit's document.
#[verifier::external_type_specification]
#[verifier::external_body]
pub struct ExDocumentMut(DocumentMut);

/// toml_edit's item.
#[verifier::external_type_specification]
#[verifier::external_body]
pub struct ExItem(Item);

/// What an item of a document holds, apart from its formatting.
pub enum Node {
    Text(Seq<char>),
    Integer(int),
    Boolean(bool),
    /// A float, as it is displayed.
    Float(Seq<char>),
    /// A date or a time, as it is displayed.
    Datetime(Seq<char>),
    Array(Seq<Node>),
    /// An inline table: its entries and the order of its keys.
    Inline(Map<Seq<char>, Node>, Seq<Seq<char>>),
    /// A table: its entries and the order of its keys, with those of entries that are hidden as
    /// they are no items.
    Table(Map<Seq<char>, Node>, Seq<Seq<char>>),
    /// An array of tables.
    Tables(Seq<Node>),
    /// No item at all.
    Nothing,
}

/// What an item holds.
pub uninterp spec fn item_node(item: Item) -> Node;

/// What the root of a document holds.
pub uninterp spec fn doc_node(doc: DocumentMut) -> Node;

impl Node {
    /// The entries, where the item is a table of either kind.
    pub open spec fn entries(self) -> Map<Seq<char>, Node> {
        match self {
            Node::Inline(m, _) => m,
            Node::Table(m, _) => m,
            _ => Map::empty(),
        }
    }

    /// The keys in their order, where the item is a table of either kind.
    pub open spec fn order(self) -> Seq<Seq<char>> {
        match self {
            Node::Inline(_, o) => o,
            Node::Table(_, o) => o,
            _ => Seq::empty(),
        }
    }

    /// Whether the item is a value, which can stand in an inline table.
    pub open spec fn is_value(self) -> bool {
        self is Text || self is Integer || self is Boolean || self is Float || self is Datetime
            || self is Array || self is Inline
    }

    pub open spec fn is_tabular(self) -> bool {
        self is Inline || self is Table
    }

    pub open spec fn has(self, key: Seq<char>) -> bool {
        self.entries().dom().contains(key)
    }

    /// Whether the item has no entry with a key, not even a hidden one.
    pub open spec fn lacks(self, key: Seq<char>) -> bool {
        !self.has(key) && !self.order().contains(key)
    }

    /// The table with other entries, in another order.
    pub open spec fn arranged(self, m: Map<Seq<char>, Node>, o: Seq<Seq<char>>) -> Node {
        match self {
            Node::Inline(_, _) => Node::Inline(m, o),
            Node::Table(_, _) => Node::Table(m, o),
            _ => self,
        }
    }

    /// The table with other entries for its keys.
    pub open spec fn with_entries(self, m: Map<Seq<char>, Node>) -> Node {
        self.arranged(m, self.order())
    }

    /// The table with an entry set: in its place where the key is there, else at the end.
    pub open spec fn with(self, key: Seq<char>, child: Node) -> Node {
        self.arranged(
            self.entries().insert(key, child),
            if self.has(key) || self.order().contains(key) {
                self.order()
            } else {
                self.order().push(key)
            },
        )
    }

    /// The table without an entry, the others in their order.
    pub open spec fn without(self, key: Seq<char>) -> Node {
        self.arranged(
            self.entries().remove(key),
            if self.order().contains(key) {
                self.order().remove(self.order().index_of(key))
            } else {
                self.order()
            },
        )
    }
}

/// Setting an entry to what it is changes nothing.
pub proof fn lemma_with_same(n: Node, key: Seq<char>)
    requires
        n.has(key),
    ensures
        n.with(key, n.entries()[key]) == n,
{
    assert(n.entries().insert(key, n.entries()[key]) =~= n.entries());
}

// ── Edits, on what a document holds ──

/// The node of a dependency in a section of a document.
pub open spec fn dep_at(root: Node, section: Seq<char>, dep: Seq<char>) -> Option<Node> {
    if root.has(section) && root.entries()[section].has(dep) {
        Some(root.entries()[section].entries()[dep])
    } else {
        None
    }
}

/// The document with another node for a dependency.
pub open spec fn with_dep(root: Node, section: Seq<char>, dep: Seq<char>, node: Node) -> Node {
    root.with(section, root.entries()[section].with(dep, node))
}

/// The node of an entry of `[workspace.dependencies]`.
pub open spec fn workspace_dep_at(root: Node, dep: Seq<char>) -> Option<Node> {
    if root.has("workspace"@) && root.entries()["workspace"@] is Table {
        dep_at(root.entries()["workspace"@], "dependencies"@, dep)
    } else {
        None
    }
}

/// The document with another node for an entry of `[workspace.dependencies]`.
pub open spec fn with_workspace_dep(root: Node, dep: Seq<char>, node: Node) -> Node {
    root.with(
        "workspace"@,
        with_dep(root.entries()["workspace"@], "dependencies"@, dep, node),
    )
}

/// Whether an entry of the table is the text `t`.
pub open spec fn entry_is(n: Node, key: Seq<char>, t: Seq<char>) -> bool {
    n.has(key) && n.entries()[key] == Node::Text(t)
}

/// A dependency without its path.
pub open spec fn path_removed(root: Node, section: Seq<char>, dep: Seq<char>) -> (Node, bool) {
    match dep_at(root, section, dep) {
        Some(d) => if d.is_tabular() && d.has("path"@) {
            (with_dep(root, section, dep, d.without("path"@)), true)
        } else {
            (root, false)
        },
        None => (root, false),
    }
}

/// A dependency with a git URL in place of its path.
pub open spec fn path_replaced(
    root: Node,
    section: Seq<char>,
    dep: Seq<char>,
    url: Seq<char>,
) -> (Node, bool) {
    match dep_at(root, section, dep) {
        Some(d) => if d.is_tabular() && d.has("path"@) {
            (
                with_dep(root, section, dep, d.without("path"@).with("git"@, Node::Text(url))),
                true,
            )
        } else {
            (root, false)
        },
        None => (root, false),
    }
}

/// A table with a version and a path.
pub open spec fn versioned_path(version: Seq<char>, path: Seq<char>) -> Node {
    Node::Inline(
        Map::empty().insert("version"@, Node::Text(version)).insert("path"@, Node::Text(path)),
        seq!["version"@, "path"@],
    )
}

/// A dependency with the given path; a bare version becomes a table.
pub open spec fn path_set(
    root: Node,
    section: Seq<char>,
    dep: Seq<char>,
    path: Seq<char>,
) -> (Node, bool) {
    match dep_at(root, section, dep) {
        Some(d) => match d {
            Node::Text(v) => (with_dep(root, section, dep, versioned_path(v, path)), true),
            _ => if d.is_tabular() && !entry_is(d, "path"@, path) {
                (with_dep(root, section, dep, d.with("path"@, Node::Text(path))), true)
            } else {
                (root, false)
            },
        },
        None => (root, false),
    }
}

/// A section without one of its dependencies.
pub open spec fn dep_deleted(root: Node, section: Seq<char>, dep: Seq<char>) -> (Node, bool) {
    if dep_at(root, section, dep) is Some {
        (root.with(section, root.entries()[section].without(dep)), true)
    } else {
        (root, false)
    }
}

/// A document without a section, named by one key or by two with a dot between them.
/// A parent that is left empty goes too.
pub open spec fn section_deleted(root: Node, section_path: Seq<char>) -> (Node, bool) {
    let keys = text::split(section_path, '.');
    if keys.len() == 1 && root.has(keys[0]) {
        (root.without(keys[0]), true)
    } else if keys.len() == 2 && root.has(keys[0]) && root.entries()[keys[0]] is Table
        && root.entries()[keys[0]].has(keys[1]) {
        let rest = root.entries()[keys[0]].without(keys[1]);
        if rest.entries().dom() == Set::<Seq<char>>::empty() {
            (root.without(keys[0]), true)
        } else {
            (root.with(keys[0], rest), true)
        }
    } else {
        (root, false)
    }
}

/// An array without the elements that are the text `t`, or no values at all.
pub open spec fn unlike(a: Seq<Node>, t: Seq<char>) -> Seq<Node> {
    a.filter(|n: Node| n.is_value() && n != Node::Text(t))
}

/// `[workspace]` without a member.
pub open spec fn member_removed(root: Node, member: Seq<char>) -> (Node, bool) {
    if root.has("workspace"@) && root.entries()["workspace"@] is Table {
        let ws = root.entries()["workspace"@];
        if ws.has("members"@) {
            match ws.entries()["members"@] {
                Node::Array(a) => (
                    root.with("workspace"@, ws.with("members"@, Node::Array(unlike(a, member)))),
                    unlike(a, member).len() < a.len(),
                ),
                _ => (root, false),
            }
        } else {
            (root, false)
        }
    } else {
        (root, false)
    }
}

/// `[workspace.dependencies]` without an entry.
pub open spec fn workspace_dep_deleted(root: Node, dep: Seq<char>) -> (Node, bool) {
    if workspace_dep_at(root, dep) is Some {
        (
            root.with(
                "workspace"@,
                dep_deleted(root.entries()["workspace"@], "dependencies"@, dep).0,
            ),
            true,
        )
    } else {
        (root, false)
    }
}

/// A dependency without one of its features.
pub open spec fn feature_stripped(
    root: Node,
    section: Seq<char>,
    dep: Seq<char>,
    feature: Seq<char>,
) -> (Node, bool) {
    match dep_at(root, section, dep) {
        Some(d) => if d.has("features"@) {
            match d.entries()["features"@] {
                Node::Array(a) => (
                    with_dep(
                        root,
                        section,
                        dep,
                        d.with("features"@, Node::Array(unlike(a, feature))),
                    ),
                    unlike(a, feature).len() < a.len(),
                ),
                _ => (root, false),
            }
        } else {
            (root, false)
        },
        None => (root, false),
    }
}

/// A dependency's node without one of its features.
pub open spec fn dep_stripped(d: Node, feature: Seq<char>) -> Node {
    if d.has("features"@) && d.entries()["features"@] is Array {
        d.with("features"@, list_stripped(d.entries()["features"@], feature))
    } else {
        d
    }
}

/// Whether a dependency's node has a feature.
pub open spec fn dep_features(d: Node, feature: Seq<char>) -> bool {
    d.has("features"@) && list_refers(d.entries()["features"@], feature)
}

/// A section with a feature taken from all its dependencies.
pub open spec fn section_stripped(root: Node, section: Seq<char>, feature: Seq<char>) -> Node {
    if root.has(section) && root.entries()[section].is_tabular() {
        let deps = root.entries()[section];
        root.with(
            section,
            deps.with_entries(deps.entries().map_values(|d: Node| dep_stripped(d, feature))),
        )
    } else {
        root
    }
}

/// The dependencies of a section that have a feature.
pub open spec fn featured_deps(root: Node, section: Seq<char>, feature: Seq<char>) -> Set<
    Seq<char>,
> {
    if root.has(section) {
        let entries = root.entries()[section].entries();
        entries.dom().filter(|k: Seq<char>| dep_features(entries[k], feature))
    } else {
        Set::empty()
    }
}

/// A feature list without a reference.
pub open spec fn list_stripped(n: Node, reference: Seq<char>) -> Node {
    match n {
        Node::Array(a) => Node::Array(unlike(a, reference)),
        other => other,
    }
}

/// Whether a feature list holds a reference.
pub open spec fn list_refers(n: Node, reference: Seq<char>) -> bool {
    n is Array && unlike(n->Array_0, reference).len() < n->Array_0.len()
}

/// The text by which a feature refers to an optional dependency.
pub open spec fn dep_reference(dep: Seq<char>) -> Seq<char> {
    "dep:"@ + dep
}

/// `[features]` without references to a dependency.
pub open spec fn features_stripped(root: Node, dep: Seq<char>) -> Node {
    if root.has("features"@) && root.entries()["features"@].is_tabular() {
        let features = root.entries()["features"@];
        root.with(
            "features"@,
            features.with_entries(
                features.entries().map_values(|n: Node| list_stripped(n, dep_reference(dep))),
            ),
        )
    } else {
        root
    }
}

/// The features that refer to a dependency.
pub open spec fn referring_features(root: Node, dep: Seq<char>) -> Set<Seq<char>> {
    if root.has("features"@) {
        let entries = root.entries()["features"@].entries();
        entries.dom().filter(|k: Seq<char>| list_refers(entries[k], dep_reference(dep)))
    } else {
        Set::empty()
    }
}

/// What a TOML value reads as, where the text is one.
pub uninterp spec fn parsed_value(raw: Seq<char>) -> Option<Node>;

/// The value that a raw text stands for.
pub open spec fn raw_value_node(raw: Seq<char>) -> Option<Node> {
    if raw == "[]"@ {
        Some(Node::Array(Seq::empty()))
    } else {
        parsed_value(raw)
    }
}

/// A section with another value for one of its keys.
pub open spec fn value_set(
    root: Node,
    section: Seq<char>,
    dep: Seq<char>,
    raw: Seq<char>,
) -> (Node, bool) {
    if dep_at(root, section, dep) is Some {
        match raw_value_node(raw) {
            Some(n) => (with_dep(root, section, dep, n), true),
            None => (root, false),
        }
    } else {
        (root, false)
    }
}

/// `[package]` with the given version.
pub open spec fn package_version_set(root: Node, version: Seq<char>) -> (Node, bool) {
    if root.has("package"@) && root.entries()["package"@] is Table && !entry_is(
        root.entries()["package"@],
        "version"@,
        version,
    ) {
        (
            root.with(
                "package"@,
                root.entries()["package"@].with("version"@, Node::Text(version)),
            ),
            true,
        )
    } else {
        (root, false)
    }
}

/// `[workspace.package]` with the given version, where it has one.
pub open spec fn workspace_version_set(root: Node, version: Seq<char>) -> (Node, bool) {
    if root.has("workspace"@) && root.entries()["workspace"@] is Table {
        let ws = root.entries()["workspace"@];
        if ws.has("package"@) && ws.entries()["package"@] is Table && ws.entries()["package"@].has(
            "version"@,
        ) {
            (
                root.with(
                    "workspace"@,
                    ws.with(
                        "package"@,
                        ws.entries()["package"@].with("version"@, Node::Text(version)),
                    ),
                ),
                true,
            )
        } else {
            (root, false)
        }
    } else {
        (root, false)
    }
}

/// A dependency with the given version, written as a table entry or bare.
pub open spec fn version_set(
    root: Node,
    section: Seq<char>,
    dep: Seq<char>,
    version: Seq<char>,
) -> (Node, bool) {
    match dep_at(root, section, dep) {
        Some(d) => match d {
            Node::Text(v) => if v == version {
                (root, false)
            } else {
                (with_dep(root, section, dep, Node::Text(version)), true)
            },
            _ => if d.is_tabular() && !entry_is(d, "version"@, version) {
                (with_dep(root, section, dep, d.with("version"@, Node::Text(version))), true)
            } else {
                (root, false)
            },
        },
        None => (root, false),
    }
}

/// An entry of `[workspace.dependencies]` with the given version, where it is a table.
pub open spec fn workspace_dep_version_set(
    root: Node,
    dep: Seq<char>,
    version: Seq<char>,
) -> (Node, bool) {
    match workspace_dep_at(root, dep) {
        Some(d) => if d.is_tabular() && !entry_is(d, "version"@, version) {
            (with_workspace_dep(root, dep, d.with("version"@, Node::Text(version))), true)
        } else {
            (root, false)
        },
        None => (root, false),
    }
}

/// An entry of `[workspace.dependencies]` with the given version, whatever it was.
pub open spec fn workspace_dep_version_forced(
    root: Node,
    dep: Seq<char>,
    version: Seq<char>,
) -> (Node, bool) {
    match workspace_dep_at(root, dep) {
        Some(d) => if d.is_tabular() {
            (with_workspace_dep(root, dep, d.with("version"@, Node::Text(version))), true)
        } else if d is Text {
            (with_workspace_dep(root, dep, Node::Text(version)), true)
        } else {
            (root, false)
        },
        None => (root, false),
    }
}

/// An entry of `[workspace.dependencies]` with a git URL and no path.
pub open spec fn workspace_dep_git_set(root: Node, dep: Seq<char>, url: Seq<char>) -> (Node, bool) {
    match workspace_dep_at(root, dep) {
        Some(d) => if d.is_tabular() {
            (
                with_workspace_dep(root, dep, d.without("path"@).with("git"@, Node::Text(url))),
                true,
            )
        } else {
            (root, false)
        },
        None => (root, false),
    }
}

/// An entry of `[workspace.dependencies]` with a path from the map, where it had none.
pub open spec fn path_given(key: Seq<char>, d: Node, paths: Map<Seq<char>, String>) -> Node {
    if takes_path(key, d, paths) {
        d.with("path"@, Node::Text(paths[key]@)).with("version"@, Node::Text("*"@))
    } else {
        d
    }
}

/// Whether an entry gets a path from the map.
pub open spec fn takes_path(key: Seq<char>, d: Node, paths: Map<Seq<char>, String>) -> bool {
    paths.dom().contains(key) && d.is_tabular() && !d.has("path"@)
}

/// Whether a document has a table `[workspace.dependencies]` that is not inline.
pub open spec fn has_workspace_table(root: Node) -> bool {
    root.has("workspace"@) && root.entries()["workspace"@] is Table
        && root.entries()["workspace"@].has("dependencies"@)
        && root.entries()["workspace"@].entries()["dependencies"@] is Table
}

/// The entries of `[workspace.dependencies]`.
pub open spec fn workspace_entries(root: Node) -> Map<Seq<char>, Node> {
    root.entries()["workspace"@].entries()["dependencies"@].entries()
}

/// `[workspace.dependencies]` with paths from a map for the entries that had none.
pub open spec fn workspace_paths_added(root: Node, paths: Map<Seq<char>, String>) -> Node {
    if has_workspace_table(root) {
        let ws = root.entries()["workspace"@];
        let entries = workspace_entries(root);
        root.with(
            "workspace"@,
            ws.with(
                "dependencies"@,
                Node::Table(
                    Map::new(
                        |k: Seq<char>| entries.dom().contains(k),
                        |k: Seq<char>| path_given(k, entries[k], paths),
                    ),
                    ws.entries()["dependencies"@].order(),
                ),
            ),
        )
    } else {
        root
    }
}

/// The entries of `[workspace.dependencies]` that get a path from a map.
pub open spec fn workspace_paths_taken(root: Node, paths: Map<Seq<char>, String>) -> Set<
    Seq<char>,
> {
    if has_workspace_table(root) {
        let entries = workspace_entries(root);
        entries.dom().filter(|k: Seq<char>| takes_path(k, entries[k], paths))
    } else {
        Set::empty()
    }
}

// ── What is believed of toml_edit ──

/// `DocumentMut::as_item_mut`: the root of the document, for reading and writing.
#[verifier::external_body]
fn root_mut(doc: &mut DocumentMut) -> (r: &mut Item)
    ensures
        item_node(*r) == doc_node(*old(doc)),
        doc_node(*final(doc)) == item_node(*final(r)),
{
    doc.as_item_mut()
}

/// `TableLike::get_mut`, through `Item::as_table_like_mut`: the entry of a table of either kind,
/// for reading and writing. A table hides an entry that is no item, an inline table does not.
#[verifier::external_body]
fn child_mut<'a>(item: &'a mut Item, key: &str) -> (r: Option<&'a mut Item>)
    ensures
        match r {
            Some(c) => item_node(*old(item)).has(key@) && item_node(*c) == item_node(
                *old(item),
            ).entries()[key@] && (item_node(*old(item)) is Table ==> item_node(*c) != Node::Nothing)
                && (item_node(*old(item)) is Inline || item_node(*final(c)) != Node::Nothing
                ==> item_node(*final(item)) == item_node(*old(item)).with(
                key@,
                item_node(*final(c)),
            )),
            None => !item_node(*old(item)).has(key@) && item_node(*final(item)) == item_node(
                *old(item),
            ),
        },
{
    item.as_table_like_mut()?.get_mut(key)
}

fn dep_mut<'a>(doc: &'a mut DocumentMut, section: &str, dep_name: &str) -> (r: Option<
    &'a mut Item,
>)
    ensures
        match r {
            Some(d) => dep_at(doc_node(*old(doc)), section@, dep_name@) == Some(item_node(*d)) && (
            item_node(*final(d)) != Node::Nothing || item_node(*final(d)) == item_node(*d)
                ==> doc_node(*final(doc)) == with_dep(
                doc_node(*old(doc)),
                section@,
                dep_name@,
                item_node(*final(d)),
            )),
            None => dep_at(doc_node(*old(doc)), section@, dep_name@) is None && doc_node(
                *final(doc),
            ) == doc_node(*old(doc)),
        },
{
    let ghost before = doc_node(*old(doc));
    let root = root_mut(doc);
    match child_mut(root, section) {
        None => None,
        Some(deps) => {
            proof {
                lemma_with_same(before, section@);
            }
            match child_mut(deps, dep_name) {
                None => None,
                Some(dep) => Some(dep),
            }
        },
    }
}

fn workspace_dep_mut<'a>(doc: &'a mut DocumentMut, dep_name: &str) -> (r: Option<&'a mut Item>)
    ensures
        match r {
            Some(d) => workspace_dep_at(doc_node(*old(doc)), dep_name@) == Some(item_node(*d)) && (
            item_node(*final(d)) != Node::Nothing || item_node(*final(d)) == item_node(*d)
                ==> doc_node(*final(doc)) == with_workspace_dep(
                doc_node(*old(doc)),
                dep_name@,
                item_node(*final(d)),
            )),
            None => workspace_dep_at(doc_node(*old(doc)), dep_name@) is None && doc_node(
                *final(doc),
            ) == doc_node(*old(doc)),
        },
{
    let ghost before = doc_node(*old(doc));
    let root = root_mut(doc);
    match child_mut(root, "workspace") {
        None => None,
        Some(ws) => {
            let ghost ws_before = item_node(*ws);
            proof {
                lemma_with_same(before, "workspace"@);
            }
            if !is_table(ws) {
                return None;
            }
            match child_mut(ws, "dependencies") {
                None => None,
                Some(deps) => {
                    proof {
                        lemma_with_same(ws_before, "dependencies"@);
                    }
                    match child_mut(deps, dep_name) {
                        None => None,
                        Some(dep) => Some(dep),
                    }
                },
            }
        },
    }
}

/// `Item::is_table`: whether the item is a table that is not inline.
#[verifier::external_body]
fn is_table(item: &Item) -> (r: bool)
    ensures
        r == (item_node(*item) is Table),
{
    item.is_table()
}

/// `Item::is_table_like`: whether the item is a table of either kind.
#[verifier::external_body]
fn is_tabular(item: &Item) -> (r: bool)
    ensures
        r == item_node(*item).is_tabular(),
{
    item.is_table_like()
}

/// `Item::as_str`: the text, where the item is a string.
#[verifier::external_body]
fn item_text(item: &Item) -> (r: Option<String>)
    ensures
        match r {
            Some(t) => item_node(*item) == Node::Text(t@),
            None => !(item_node(*item) is Text),
        },
{
    item.as_str().map(String::from)
}

/// `TableLike::get`, through `Item::as_table_like`: the entry of a table of either kind.
#[verifier::external_body]
fn child<'a>(item: &'a Item, key: &str) -> (r: Option<&'a Item>)
    ensures
        match r {
            Some(c) => item_node(*item).has(key@) && item_node(*c) == item_node(
                *item,
            ).entries()[key@],
            None => !item_node(*item).has(key@),
        },
{
    item.as_table_like()?.get(key)
}

/// `TableLike::remove`, through `Item::as_table_like_mut`: the table without an entry, the other
/// keys in their order.
#[verifier::external_body]
fn remove_child(item: &mut Item, key: &str)
    ensures
        item_node(*final(item)) == item_node(*old(item)).without(key@),
{
    item.as_table_like_mut().map(|t| t.remove(key));
}

/// `TableLike::insert`, through `Item::as_table_like_mut`: the table with an entry set, in the place
/// of the key where it is there, else at the end. An inline table panics on what is no value.
#[verifier::external_body]
fn set_child(item: &mut Item, key: &str, value: Item)
    requires
        item_node(value).is_value(),
    ensures
        item_node(*final(item)) == item_node(*old(item)).with(key@, item_node(value)),
{
    item.as_table_like_mut().map(|t| t.insert(key, value));
}

/// `toml_edit::value`: a string.
#[verifier::external_body]
fn text_item(t: &str) -> (r: Item)
    ensures
        item_node(r) == Node::Text(t@),
{
    toml_edit::value(t)
}

/// `Array::new`: an array without elements.
#[verifier::external_body]
fn empty_array() -> (r: Item)
    ensures
        item_node(r) == Node::Array(Seq::empty()),
{
    toml_edit::value(toml_edit::Array::new())
}

/// `Value::from_str`: the value that a text writes down, named by
/// `parsed_value`.
#[verifier::external_body]
fn parse_item(raw: &str) -> (r: Option<Item>)
    ensures
        match r {
            Some(i) => parsed_value(raw@) == Some(item_node(i)) && item_node(i).is_value(),
            None => parsed_value(raw@) is None,
        },
{
    raw.parse::<toml_edit::Value>().ok().map(Item::Value)
}

/// Whether an array element stays when the text `t` is taken out.
fn differs(element: Option<&str>, t: &str) -> (r: bool)
    ensures
        r == !(element is Some && element.unwrap()@ == t@),
{
    match element {
        Some(e) => !text::same(e, t),
        None => true,
    }
}

/// `Array::retain` with `Value::as_str`, through `Item::as_array_mut`: the array without the
/// elements that are the text `t`, and without those that are no values, which `retain` drops. An
/// item that is no array stays as it is.
#[verifier::external_body]
fn retain_unlike(item: &mut Item, t: &str)
    ensures
        item_node(*final(item)) == (match item_node(*old(item)) {
            Node::Array(a) => Node::Array(unlike(a, t@)),
            other => other,
        }),
{
    item.as_array_mut().map(|a| a.retain(|v| differs(v.as_str(), t)));
}

/// `Array::len`, through `Item::as_array`: the number of elements, where the item is an array.
#[verifier::external_body]
fn array_len(item: &Item) -> (r: Option<usize>)
    ensures
        match r {
            Some(n) => item_node(*item) is Array && n == item_node(*item)->Array_0.len(),
            None => !(item_node(*item) is Array),
        },
{
    item.as_array().map(|a| a.len())
}

/// `TableLike::iter`, through `Item::as_table_like`: the keys of a table of either kind, each
/// once, in their order.
#[verifier::external_body]
fn item_keys(item: &Item) -> (r: Vec<String>)
    ensures
        text::texts(r@).no_duplicates(),
        forall|k: Seq<char>| #[trigger]
            text::texts(r@).contains(k) <==> item_node(*item).entries().dom().contains(k),
        text::texts(r@) == item_node(*item).order().filter(
            |k: Seq<char>| item_node(*item).has(k),
        ),
{
    match item.as_table_like() {
        Some(t) => t.iter().map(|(k, _)| k.to_string()).collect(),
        None => Vec::new(),
    }
}

/// `InlineTable::new`: an inline table without entries.
#[verifier::external_body]
fn empty_inline() -> (r: Item)
    ensures
        item_node(r) == Node::Inline(Map::empty(), Seq::empty()),
{
    toml_edit::value(toml_edit::InlineTable::new())
}

/// Giving a dependency the node it has changes nothing.
proof fn lemma_with_dep_same(root: Node, section: Seq<char>, dep: Seq<char>)
    ensures
        dep_at(root, section, dep) is Some ==> with_dep(
            root,
            section,
            dep,
            dep_at(root, section, dep).unwrap(),
        ) == root,
{
    if dep_at(root, section, dep) is Some {
        lemma_with_same(root.entries()[section], dep);
        lemma_with_same(root, section);
    }
}

/// Giving an entry of `[workspace.dependencies]` the node it has changes nothing.
proof fn lemma_with_workspace_dep_same(root: Node, dep: Seq<char>)
    ensures
        workspace_dep_at(root, dep) is Some ==> with_workspace_dep(
            root,
            dep,
            workspace_dep_at(root, dep).unwrap(),
        ) == root,
{
    if workspace_dep_at(root, dep) is Some {
        lemma_with_dep_same(root.entries()["workspace"@], "dependencies"@, dep);
        lemma_with_same(root, "workspace"@);
    }
}

/// Whether an entry of the item is the text `t`.
fn entry_has_text(item: &Item, key: &str, t: &str) -> (r: bool)
    ensures
        r == entry_is(item_node(*item), key@, t@),
{
    match child(item, key) {
        Some(c) => match item_text(c) {
            Some(x) => text::same(x.as_str(), t),
            None => false,
        },
        None => false,
    }
}

// ── Edits ──

/// Remove the `path` key from a dependency entry in a specific section.
/// Returns true if the key was found and removed.
pub fn remove_dep_path(doc: &mut DocumentMut, section: &str, dep_name: &str) -> (r: bool)
    ensures
        (doc_node(*final(doc)), r) == path_removed(doc_node(*old(doc)), section@, dep_name@),
{
    proof {
        lemma_with_dep_same(doc_node(*old(doc)), section@, dep_name@);
    }
    match dep_mut(doc, section, dep_name) {
        None => false,
        Some(dep) => {
            if is_tabular(dep) && child(dep, "path").is_some() {
                remove_child(dep, "path");
                true
            } else {
                false
            }
        },
    }
}

/// Replace the `path` key with a `git` key in a dependency entry.
/// Returns true if the replacement was made.
pub fn replace_path_with_git(
    doc: &mut DocumentMut,
    section: &str,
    dep_name: &str,
    git_url: &str,
) -> (r: bool)
    ensures
        (doc_node(*final(doc)), r) == path_replaced(
            doc_node(*old(doc)),
            section@,
            dep_name@,
            git_url@,
        ),
{
    proof {
        lemma_with_dep_same(doc_node(*old(doc)), section@, dep_name@);
    }
    match dep_mut(doc, section, dep_name) {
        None => false,
        Some(dep) => {
            if is_tabular(dep) && child(dep, "path").is_some() {
                remove_child(dep, "path");
                set_child(dep, "git", text_item(git_url));
                true
            } else {
                false
            }
        },
    }
}

/// Add or update a `path` key on a dependency entry.
/// Returns true if a change was made.
pub fn set_dep_path(doc: &mut DocumentMut, section: &str, dep_name: &str, path: &str) -> (r: bool)
    ensures
        (doc_node(*final(doc)), r) == path_set(doc_node(*old(doc)), section@, dep_name@, path@),
{
    proof {
        lemma_with_dep_same(doc_node(*old(doc)), section@, dep_name@);
    }
    match dep_mut(doc, section, dep_name) {
        None => false,
        Some(dep) => {
            if is_tabular(dep) {
                if entry_has_text(dep, "path", path) {
                    return false;
                }
                set_child(dep, "path", text_item(path));
                return true;
            }
            match item_text(dep) {
                Some(version) => {
                    let mut table = empty_inline();
                    set_child(&mut table, "version", text_item(version.as_str()));
                    set_child(&mut table, "path", text_item(path));
                    proof {
                        reveal_strlit("version");
                        reveal_strlit("path");
                        assert("version"@.len() != "path"@.len());
                        assert(item_node(table) =~= versioned_path(version@, path@)) by {
                            assert(item_node(table).order() =~= seq!["version"@, "path"@]);
                        }
                    }
                    *dep = table;
                    true
                },
                None => false,
            }
        },
    }
}

/// Delete an entire dependency entry from a section.
/// Returns true if the entry was found and removed.
pub fn delete_dep(doc: &mut DocumentMut, section: &str, dep_name: &str) -> (r: bool)
    ensures
        (doc_node(*final(doc)), r) == dep_deleted(doc_node(*old(doc)), section@, dep_name@),
{
    let ghost before = doc_node(*old(doc));
    let root = root_mut(doc);
    match child_mut(root, section) {
        None => false,
        Some(deps) => {
            proof {
                lemma_with_same(before, section@);
            }
            if child(deps, dep_name).is_some() {
                remove_child(deps, dep_name);
                true
            } else {
                false
            }
        },
    }
}

/// Delete a TOML section (e.g., "patch.crates-io").
/// Handles dotted section paths like "patch.crates-io".
/// Returns true if the section was found and removed.
pub fn delete_section(doc: &mut DocumentMut, section_path: &str) -> (r: bool)
    ensures
        (doc_node(*final(doc)), r) == section_deleted(doc_node(*old(doc)), section_path@),
{
    let ghost before = doc_node(*old(doc));
    let keys = text::split_on(section_path, '.');
    let ghost ks = text::split(section_path@, '.');
    assert(forall|i: int| 0 <= i < keys.len() ==> ks[i] == (#[trigger] keys@[i])@);
    let root = root_mut(doc);
    if keys.len() == 1 {
        if child(root, keys[0].as_str()).is_some() {
            remove_child(root, keys[0].as_str());
            return true;
        }
        false
    } else if keys.len() == 2 {
        let mut emptied = false;
        match child_mut(root, keys[0].as_str()) {
            None => {
                return false;
            },
            Some(parent) => {
                proof {
                    lemma_with_same(before, ks[0]);
                }
                let ghost parent_node = item_node(*parent);
                if !is_table(parent) || child(parent, keys[1].as_str()).is_none() {
                    return false;
                }
                remove_child(parent, keys[1].as_str());
                let left = item_keys(parent);
                emptied = left.len() == 0;
                proof {
                    let rest = parent_node.without(ks[1]);
                    assert(item_node(*parent) == rest);
                    if emptied {
                        assert forall|k: Seq<char>| !rest.entries().dom().contains(k) by {
                            assert(text::texts(left@).contains(k) <==> rest.entries().dom().contains(
                                k,
                            ));
                        }
                        assert(rest.entries().dom() =~= Set::<Seq<char>>::empty());
                    } else {
                        assert(text::texts(left@).contains(text::texts(left@)[0]));
                        assert(rest.entries().dom().contains(text::texts(left@)[0]));
                    }
                }
            },
        }
        if emptied {
            remove_child(root, keys[0].as_str());
            assert(before.entries().insert(ks[0], before.entries()[ks[0]].without(ks[1])).remove(
                ks[0],
            ) =~= before.entries().remove(ks[0]));
        }
        true
    } else {
        false
    }
}

/// Remove a member from the [workspace] members array.
/// Returns true if the member was found and removed.
pub fn remove_workspace_member(doc: &mut DocumentMut, member: &str) -> (r: bool)
    ensures
        (doc_node(*final(doc)), r) == member_removed(doc_node(*old(doc)), member@),
{
    let ghost before = doc_node(*old(doc));
    let root = root_mut(doc);
    match child_mut(root, "workspace") {
        None => false,
        Some(ws) => {
            let ghost ws_before = item_node(*ws);
            proof {
                lemma_with_same(before, "workspace"@);
            }
            if !is_table(ws) {
                return false;
            }
            match child_mut(ws, "members") {
                None => false,
                Some(members) => {
                    proof {
                        lemma_with_same(ws_before, "members"@);
                    }
                    match array_len(members) {
                        None => false,
                        Some(initial) => {
                            retain_unlike(members, member);
                            match array_len(members) {
                                Some(left) => left < initial,
                                None => false,
                            }
                        },
                    }
                },
            }
        },
    }
}

/// Remove a key from [workspace.dependencies].
/// Returns true if the key was found and removed.
pub fn remove_workspace_dep(doc: &mut DocumentMut, dep_name: &str) -> (r: bool)
    ensures
        (doc_node(*final(doc)), r) == workspace_dep_deleted(doc_node(*old(doc)), dep_name@),
{
    let ghost before = doc_node(*old(doc));
    let root = root_mut(doc);
    match child_mut(root, "workspace") {
        None => false,
        Some(ws) => {
            let ghost ws_before = item_node(*ws);
            proof {
                lemma_with_same(before, "workspace"@);
            }
            if !is_table(ws) {
                return false;
            }
            match child_mut(ws, "dependencies") {
                None => false,
                Some(deps) => {
                    proof {
                        lemma_with_same(ws_before, "dependencies"@);
                    }
                    if child(deps, dep_name).is_some() {
                        remove_child(deps, dep_name);
                        true
                    } else {
                        false
                    }
                },
            }
        },
    }
}

/// Strip a specific feature from a dependency's features list.
/// Returns true if the feature was found and removed.
pub fn strip_dep_feature(
    doc: &mut DocumentMut,
    section: &str,
    dep_name: &str,
    feature: &str,
) -> (r: bool)
    ensures
        (doc_node(*final(doc)), r) == feature_stripped(
            doc_node(*old(doc)),
            section@,
            dep_name@,
            feature@,
        ),
{
    proof {
        lemma_with_dep_same(doc_node(*old(doc)), section@, dep_name@);
    }
    match dep_mut(doc, section, dep_name) {
        None => false,
        Some(dep) => {
            let ghost before = item_node(*dep);
            match child_mut(dep, "features") {
                None => false,
                Some(features) => {
                    proof {
                        lemma_with_same(before, "features"@);
                    }
                    match array_len(features) {
                        None => false,
                        Some(initial) => {
                            retain_unlike(features, feature);
                            match array_len(features) {
                                Some(left) => left < initial,
                                None => false,
                            }
                        },
                    }
                },
            }
        },
    }
}

/// Strip a feature from the features lists of all dependencies of a section.
/// Returns the number of dependencies that had it.
pub fn strip_section_feature(doc: &mut DocumentMut, section: &str, feature: &str) -> (r: usize)
    ensures
        doc_node(*final(doc)) == section_stripped(doc_node(*old(doc)), section@, feature@),
        r == featured_deps(doc_node(*old(doc)), section@, feature@).len(),
{
    let ghost before = doc_node(*old(doc));
    let root = root_mut(doc);
    match child_mut(root, section) {
        None => 0,
        Some(deps) => {
            let ghost start = item_node(*deps);
            let ghost having = featured_deps(before, section@, feature@);
            proof {
                lemma_with_same(before, section@);
            }
            if !is_tabular(deps) {
                assert(having =~= Set::empty());
                return 0;
            }
            let keys = item_keys(deps);
            let ghost ks = text::texts(keys@);
            let mut count: usize = 0;
            let ghost mut counted: Set<Seq<char>> = Set::empty();
            let mut i: usize = 0;
            while i < keys.len()
                invariant
                    i <= keys.len(),
                    count <= i,
                    counted.finite(),
                    counted.len() == count,
                    forall|k: Seq<char>| #[trigger]
                        counted.contains(k) <==> ks.take(i as int).contains(k) && dep_features(
                            start.entries()[k],
                            feature@,
                        ),
                    item_node(*deps).is_tabular(),
                    start is Inline == item_node(*deps) is Inline,
                    item_node(*deps).order() == start.order(),
                    item_node(*deps).entries().dom() == start.entries().dom(),
                    forall|k: Seq<char>| #[trigger]
                        start.entries().dom().contains(k) ==> item_node(*deps).entries()[k]
                            == if ks.take(i as int).contains(k) {
                            dep_stripped(start.entries()[k], feature@)
                        } else {
                            start.entries()[k]
                        },
                decreases keys.len() - i,
            {
                let ghost key = keys@[i as int]@;
                let ghost now = item_node(*deps);
                proof {
                    assert(ks[i as int] == key);
                    assert(ks.contains(key));
                    assert(ks.take(i + 1) =~= ks.take(i as int).push(key));
                    crate::group::lemma_push_contains(ks.take(i as int), key);
                    if ks.take(i as int).contains(key) {
                        let j = ks.take(i as int).index_of(key);
                        assert(ks[j] == ks[i as int]);
                    }
                }
                if let Some(dep) = child_mut(deps, keys[i].as_str()) {
                    let ghost dep_before = item_node(*dep);
                    proof {
                        lemma_with_same(now, key);
                    }
                    if let Some(list) = child_mut(dep, "features") {
                        proof {
                            lemma_with_same(dep_before, "features"@);
                        }
                        if let Some(initial) = array_len(list) {
                            retain_unlike(list, feature);
                            if let Some(left) = array_len(list) {
                                if left < initial {
                                    count += 1;
                                    proof {
                                        counted = counted.insert(key);
                                    }
                                }
                            }
                        }
                    }
                }
                i += 1;
            }
            proof {
                assert(ks.take(i as int) =~= ks);
                assert(counted =~= having);
                assert(item_node(*deps).entries() =~= start.entries().map_values(
                    |d: Node| dep_stripped(d, feature@),
                ));
            }
            count
        },
    }
}

/// Give the entries of [workspace.dependencies] that have no path one from a map, with any
/// version. Returns the number of entries that got one.
pub fn add_workspace_paths(doc: &mut DocumentMut, paths: &TextMap<String>) -> (r: usize)
    ensures
        doc_node(*final(doc)) == workspace_paths_added(doc_node(*old(doc)), paths@),
        r == workspace_paths_taken(doc_node(*old(doc)), paths@).len(),
{
    let ghost before = doc_node(*old(doc));
    let ghost taken = workspace_paths_taken(before, paths@);
    let root = root_mut(doc);
    let ws = match child_mut(root, "workspace") {
        None => return 0,
        Some(ws) => ws,
    };
    let ghost ws_before = item_node(*ws);
    proof {
        lemma_with_same(before, "workspace"@);
    }
    if !is_table(ws) {
        return 0;
    }
    let deps = match child_mut(ws, "dependencies") {
        None => return 0,
        Some(deps) => deps,
    };
    let ghost start = item_node(*deps);
    proof {
        lemma_with_same(ws_before, "dependencies"@);
    }
    if !is_table(deps) {
        return 0;
    }
    let keys = item_keys(deps);
    let ghost ks = text::texts(keys@);
    let mut count: usize = 0;
    let ghost mut counted: Set<Seq<char>> = Set::empty();
    let mut i: usize = 0;
    while i < keys.len()
        invariant
            i <= keys.len(),
            count <= i,
            counted.finite(),
            counted.len() == count,
            forall|k: Seq<char>| #[trigger]
                counted.contains(k) <==> ks.take(i as int).contains(k) && takes_path(
                    k,
                    start.entries()[k],
                    paths@,
                ),
            item_node(*deps) is Table,
            item_node(*deps).order() == start.order(),
            item_node(*deps).entries().dom() == start.entries().dom(),
            forall|k: Seq<char>| #[trigger]
                start.entries().dom().contains(k) ==> item_node(*deps).entries()[k] == if ks.take(
                    i as int,
                ).contains(k) {
                    path_given(k, start.entries()[k], paths@)
                } else {
                    start.entries()[k]
                },
        decreases keys.len() - i,
    {
        let ghost key = keys@[i as int]@;
        let ghost now = item_node(*deps);
        proof {
            assert(ks[i as int] == key);
            assert(ks.contains(key));
            assert(ks.take(i + 1) =~= ks.take(i as int).push(key));
            crate::group::lemma_push_contains(ks.take(i as int), key);
            if ks.take(i as int).contains(key) {
                let j = ks.take(i as int).index_of(key);
                assert(ks[j] == ks[i as int]);
            }
        }
        if let Some(path) = paths.get(keys[i].as_str()) {
            if let Some(dep) = child_mut(deps, keys[i].as_str()) {
                proof {
                    lemma_with_same(now, key);
                }
                if is_tabular(dep) && child(dep, "path").is_none() {
                    set_child(dep, "path", text_item(path.as_str()));
                    set_child(dep, "version", text_item("*"));
                    count += 1;
                    proof {
                        counted = counted.insert(key);
                    }
                }
            }
        }
        i += 1;
    }
    proof {
        assert(ks.take(i as int) =~= ks);
        assert(counted =~= taken);
        assert(item_node(*deps).entries() =~= workspace_paths_added(
            before,
            paths@,
        ).entries()["workspace"@].entries()["dependencies"@].entries());
    }
    count
}

/// Strip `dep:name` references to a dependency from [features].
/// Returns the number of features that referred to it.
pub fn strip_dep_from_features(doc: &mut DocumentMut, dep_name: &str) -> (r: usize)
    ensures
        doc_node(*final(doc)) == features_stripped(doc_node(*old(doc)), dep_name@),
        r == referring_features(doc_node(*old(doc)), dep_name@).len(),
{
    let ghost before = doc_node(*old(doc));
    let mut reference = "dep:".to_string();
    reference.append(dep_name);
    let root = root_mut(doc);
    match child_mut(root, "features") {
        None => 0,
        Some(features) => {
            let ghost start = item_node(*features);
            let ghost refers = referring_features(before, dep_name@);
            proof {
                lemma_with_same(before, "features"@);
            }
            if !is_tabular(features) {
                assert(refers =~= Set::empty());
                return 0;
            }
            let keys = item_keys(features);
            let ghost ks = text::texts(keys@);
            let mut count: usize = 0;
            let ghost mut counted: Set<Seq<char>> = Set::empty();
            let mut i: usize = 0;
            while i < keys.len()
                invariant
                    i <= keys.len(),
                    count <= i,
                    counted.finite(),
                    counted.len() == count,
                    forall|k: Seq<char>| #[trigger]
                        counted.contains(k) <==> ks.take(i as int).contains(k) && list_refers(
                            start.entries()[k],
                            reference@,
                        ),
                    item_node(*features).is_tabular(),
                    start is Inline == item_node(*features) is Inline,
                    item_node(*features).order() == start.order(),
                    item_node(*features).entries().dom() == start.entries().dom(),
                    forall|k: Seq<char>| #[trigger]
                        start.entries().dom().contains(k) ==> item_node(*features).entries()[k]
                            == if ks.take(i as int).contains(k) {
                            list_stripped(start.entries()[k], reference@)
                        } else {
                            start.entries()[k]
                        },
                decreases keys.len() - i,
            {
                let ghost key = keys@[i as int]@;
                let ghost now = item_node(*features);
                proof {
                    assert(ks[i as int] == key);
                    assert(ks.contains(key));
                    assert(ks.take(i + 1) =~= ks.take(i as int).push(key));
                    crate::group::lemma_push_contains(ks.take(i as int), key);
                    if ks.take(i as int).contains(key) {
                        let j = ks.take(i as int).index_of(key);
                        assert(ks[j] == ks[i as int]);
                    }
                }
                if let Some(list) = child_mut(features, keys[i].as_str()) {
                    proof {
                        lemma_with_same(now, key);
                    }
                    if let Some(initial) = array_len(list) {
                        retain_unlike(list, reference.as_str());
                        if let Some(left) = array_len(list) {
                            if left < initial {
                                count += 1;
                                proof {
                                    counted = counted.insert(key);
                                }
                            }
                        }
                    }
                }
                i += 1;
            }
            proof {
                assert(ks.take(i as int) =~= ks);
                assert(counted =~= refers);
                assert(item_node(*features).entries() =~= start.entries().map_values(
                    |n: Node| list_stripped(n, reference@),
                ));
            }
            count
        },
    }
}

/// Set a dependency key to a literal value (e.g., blank it to "[]").
/// Returns true if the key was there and the text is a TOML value.
pub fn set_dep_value_raw(
    doc: &mut DocumentMut,
    section: &str,
    dep_name: &str,
    raw_value: &str,
) -> (r: bool)
    ensures
        (doc_node(*final(doc)), r) == value_set(
            doc_node(*old(doc)),
            section@,
            dep_name@,
            raw_value@,
        ),
{
    let ghost before = doc_node(*old(doc));
    let root = root_mut(doc);
    match child_mut(root, section) {
        None => false,
        Some(deps) => {
            proof {
                lemma_with_same(before, section@);
            }
            if child(deps, dep_name).is_none() {
                return false;
            }
            if text::same(raw_value, "[]") {
                set_child(deps, dep_name, empty_array());
                return true;
            }
            match parse_item(raw_value) {
                Some(value) => {
                    set_child(deps, dep_name, value);
                    true
                },
                None => false,
            }
        },
    }
}

/// Update the version string in [package].version
pub fn set_package_version(doc: &mut DocumentMut, version: &str) -> (r: bool)
    ensures
        (doc_node(*final(doc)), r) == package_version_set(doc_node(*old(doc)), version@),
{
    let ghost before = doc_node(*old(doc));
    let root = root_mut(doc);
    match child_mut(root, "package") {
        None => false,
        Some(pkg) => {
            proof {
                lemma_with_same(before, "package"@);
            }
            if !is_table(pkg) || entry_has_text(pkg, "version", version) {
                return false;
            }
            set_child(pkg, "version", text_item(version));
            true
        },
    }
}

/// Update the version string in [workspace.package].version, where there is one.
pub fn set_workspace_package_version(doc: &mut DocumentMut, version: &str) -> (r: bool)
    ensures
        (doc_node(*final(doc)), r) == workspace_version_set(doc_node(*old(doc)), version@),
{
    let ghost before = doc_node(*old(doc));
    let root = root_mut(doc);
    match child_mut(root, "workspace") {
        None => false,
        Some(ws) => {
            let ghost ws_before = item_node(*ws);
            proof {
                lemma_with_same(before, "workspace"@);
            }
            if !is_table(ws) {
                return false;
            }
            match child_mut(ws, "package") {
                None => false,
                Some(pkg) => {
                    proof {
                        lemma_with_same(ws_before, "package"@);
                    }
                    if !is_table(pkg) || child(pkg, "version").is_none() {
                        return false;
                    }
                    set_child(pkg, "version", text_item(version));
                    true
                },
            }
        },
    }
}

/// Update the version in a dependency entry (in any section).
pub fn set_dep_version(
    doc: &mut DocumentMut,
    section: &str,
    dep_name: &str,
    version: &str,
) -> (r: bool)
    ensures
        (doc_node(*final(doc)), r) == version_set(
            doc_node(*old(doc)),
            section@,
            dep_name@,
            version@,
        ),
{
    proof {
        lemma_with_dep_same(doc_node(*old(doc)), section@, dep_name@);
    }
    match dep_mut(doc, section, dep_name) {
        None => false,
        Some(dep) => {
            if is_tabular(dep) {
                if entry_has_text(dep, "version", version) {
                    return false;
                }
                set_child(dep, "version", text_item(version));
                return true;
            }
            match item_text(dep) {
                Some(existing) => {
                    if text::same(existing.as_str(), version) {
                        return false;
                    }
                    *dep = text_item(version);
                    true
                },
                None => false,
            }
        },
    }
}

/// Add version to a workspace.dependencies entry; a bare string is left alone.
pub fn set_workspace_dep_version(doc: &mut DocumentMut, dep_name: &str, version: &str) -> (r: bool)
    ensures
        (doc_node(*final(doc)), r) == workspace_dep_version_set(
            doc_node(*old(doc)),
            dep_name@,
            version@,
        ),
{
    proof {
        lemma_with_workspace_dep_same(doc_node(*old(doc)), dep_name@);
    }
    match workspace_dep_mut(doc, dep_name) {
        None => false,
        Some(dep) => {
            if !is_tabular(dep) || entry_has_text(dep, "version", version) {
                return false;
            }
            set_child(dep, "version", text_item(version));
            true
        },
    }
}

/// Write a version into a workspace.dependencies entry, table or bare string.
pub fn force_workspace_dep_version(doc: &mut DocumentMut, dep_name: &str, version: &str) -> (r:
    bool)
    ensures
        (doc_node(*final(doc)), r) == workspace_dep_version_forced(
            doc_node(*old(doc)),
            dep_name@,
            version@,
        ),
{
    proof {
        lemma_with_workspace_dep_same(doc_node(*old(doc)), dep_name@);
    }
    match workspace_dep_mut(doc, dep_name) {
        None => false,
        Some(dep) => {
            if is_tabular(dep) {
                set_child(dep, "version", text_item(version));
                return true;
            }
            if item_text(dep).is_some() {
                *dep = text_item(version);
                return true;
            }
            false
        },
    }
}

/// Turn the path of a workspace.dependencies entry into a git URL.
pub fn set_workspace_dep_git(doc: &mut DocumentMut, dep_name: &str, git_url: &str) -> (r: bool)
    ensures
        (doc_node(*final(doc)), r) == workspace_dep_git_set(
            doc_node(*old(doc)),
            dep_name@,
            git_url@,
        ),
{
    proof {
        lemma_with_workspace_dep_same(doc_node(*old(doc)), dep_name@);
    }
    match workspace_dep_mut(doc, dep_name) {
        None => false,
        Some(dep) => {
            if !is_tabular(dep) {
                return false;
            }
            remove_child(dep, "path");
            set_child(dep, "git", text_item(git_url));
            true
        },
    }
}

// ── Reading and writing ──

/// What a TOML document reads as, or the reader's complaint.
pub uninterp spec fn parsed_document(content: Seq<char>) -> Result<Node, Seq<char>>;

/// The text of a document, formatting and all.
pub uninterp spec fn printed_document(doc: DocumentMut) -> Seq<char>;

/// `DocumentMut::from_str`: the document that a text writes down, whose root is a table, or the
/// error's text; both are named by `parsed_document`.
#[verifier::external_body]
fn parse_document(content: &str) -> (r: Result<DocumentMut, String>)
    ensures
        match r {
            Ok(doc) => parsed_document(content@) == Ok::<Node, Seq<char>>(doc_node(doc))
                && doc_node(doc) is Table,
            Err(e) => parsed_document(content@) == Err::<Node, Seq<char>>(e@),
        },
{
    content.parse::<DocumentMut>().map_err(|e| e.to_string())
}

/// `Display` on `DocumentMut`: the document's text, named by `printed_document`. It panics where
/// the root is no table.
#[verifier::external_body]
fn print_document(doc: &DocumentMut) -> (r: String)
    requires
        doc_node(*doc) is Table,
    ensures
        r@ == printed_document(*doc),
{
    doc.to_string()
}

/// Parse the contents of the manifest at `path`.
pub fn read_manifest(path: &str, content: &str) -> (r: Result<DocumentMut, String>)
    ensures
        match r {
            Ok(doc) => parsed_document(content@) == Ok::<Node, Seq<char>>(doc_node(doc))
                && doc_node(doc) is Table,
            Err(m) => parsed_document(content@) is Err && m@ == value::parsing_message(
                path@,
                parsed_document(content@)->Err_0,
            ),
        },
{
    match parse_document(content) {
        Ok(doc) => Ok(doc),
        Err(e) => Err(text::cat4("parsing ", path, ": ", e.as_str())),
    }
}

/// What becomes of a manifest on disk.
pub enum WriteOutcome {
    /// The file already holds this text.
    Unchanged,
    /// The file would be written.
    Withheld,
    /// The file is to hold this text.
    Write(String),
}

impl WriteOutcome {
    /// Whether the file differs from the document.
    pub fn wrote(&self) -> (r: bool)
        ensures
            r == !(self is Unchanged),
    {
        match self {
            WriteOutcome::Unchanged => false,
            _ => true,
        }
    }
}

/// Decide what to write back to a file that holds `existing`.
pub fn write_manifest(doc: &DocumentMut, existing: &str, dry_run: bool) -> (r: WriteOutcome)
    requires
        doc_node(*doc) is Table,
    ensures
        r is Unchanged <==> existing@ == printed_document(*doc),
        r is Withheld <==> existing@ != printed_document(*doc) && dry_run,
        match r {
            WriteOutcome::Write(t) => t@ == printed_document(*doc) && !dry_run && existing@ != t@,
            _ => true,
        },
{
    let new_content = print_document(doc);
    if text::same(existing, new_content.as_str()) {
        WriteOutcome::Unchanged
    } else if dry_run {
        WriteOutcome::Withheld
    } else {
        WriteOutcome::Write(new_content)
    }
}

// ── Laws ──

/// Whether a document's root is a table after an edit where it was one before, so that the document
/// can still be written.
pub open spec fn keeps_root(before: Node, after: Node) -> bool {
    before is Table ==> after is Table
}

/// Every edit keeps the root of a document a table.
pub proof fn law_edits_keep_the_root(
    root: Node,
    section: Seq<char>,
    dep: Seq<char>,
    value: Seq<char>,
    paths: Map<Seq<char>, String>,
)
    ensures
        keeps_root(root, path_removed(root, section, dep).0),
        keeps_root(root, path_replaced(root, section, dep, value).0),
        keeps_root(root, path_set(root, section, dep, value).0),
        keeps_root(root, dep_deleted(root, section, dep).0),
        keeps_root(root, section_deleted(root, section).0),
        keeps_root(root, member_removed(root, value).0),
        keeps_root(root, workspace_dep_deleted(root, dep).0),
        keeps_root(root, feature_stripped(root, section, dep, value).0),
        keeps_root(root, section_stripped(root, section, value)),
        keeps_root(root, features_stripped(root, dep)),
        keeps_root(root, value_set(root, section, dep, value).0),
        keeps_root(root, package_version_set(root, value).0),
        keeps_root(root, workspace_version_set(root, value).0),
        keeps_root(root, version_set(root, section, dep, value).0),
        keeps_root(root, workspace_dep_version_set(root, dep, value).0),
        keeps_root(root, workspace_dep_version_forced(root, dep, value).0),
        keeps_root(root, workspace_dep_git_set(root, dep, value).0),
        keeps_root(root, workspace_paths_added(root, paths)),
{
}

/// Whether the keys of two documents, and those of one section, stand in the same order.
pub open spec fn same_order(a: Node, b: Node, section: Seq<char>) -> bool {
    a.order() == b.order() && a.entries()[section].order() == b.entries()[section].order()
}

/// Editing a dependency leaves the keys of the document and of its section in their order.
pub proof fn law_edits_keep_key_order(
    root: Node,
    section: Seq<char>,
    dep: Seq<char>,
    value: Seq<char>,
)
    ensures
        same_order(root, path_removed(root, section, dep).0, section),
        same_order(root, path_replaced(root, section, dep, value).0, section),
        same_order(root, path_set(root, section, dep, value).0, section),
        same_order(root, version_set(root, section, dep, value).0, section),
        same_order(root, feature_stripped(root, section, dep, value).0, section),
        same_order(root, value_set(root, section, dep, value).0, section),
        root.order() == package_version_set(root, value).0.order(),
        root.has("package"@) && root.entries()["package"@].has("version"@) ==> same_order(
            root,
            package_version_set(root, value).0,
            "package"@,
        ),
{
}

/// Whether two nodes of a dependency have the same entry for a key, or both none.
pub open spec fn same_entry(a: Node, b: Node, key: Seq<char>) -> bool {
    a.has(key) == b.has(key) && (a.has(key) ==> a.entries()[key] == b.entries()[key])
}

/// Editing the path, the git URL or the version of a dependency that is a table leaves its other
/// entries as they were: an optional dependency stays optional.
pub proof fn law_other_entries_stay(
    root: Node,
    section: Seq<char>,
    dep: Seq<char>,
    value: Seq<char>,
    key: Seq<char>,
)
    requires
        dep_at(root, section, dep) is Some,
        dep_at(root, section, dep).unwrap().is_tabular(),
        key != "path"@,
        key != "git"@,
        key != "version"@,
    ensures
        ({
            let d = dep_at(root, section, dep).unwrap();
            &&& same_entry(
                d,
                dep_at(path_removed(root, section, dep).0, section, dep).unwrap(),
                key,
            )
            &&& same_entry(
                d,
                dep_at(path_replaced(root, section, dep, value).0, section, dep).unwrap(),
                key,
            )
            &&& same_entry(
                d,
                dep_at(path_set(root, section, dep, value).0, section, dep).unwrap(),
                key,
            )
            &&& same_entry(
                d,
                dep_at(version_set(root, section, dep, value).0, section, dep).unwrap(),
                key,
            )
        }),
{
}

/// Whether two documents agree on every dependency but one.
pub open spec fn agree_but(a: Node, b: Node, section: Seq<char>, dep: Seq<char>) -> bool {
    forall|s: Seq<char>, d: Seq<char>|
        (s != section || d != dep) ==> #[trigger] dep_at(a, s, d) == dep_at(b, s, d)
}

/// Each edit of a dependency leaves all other dependencies as they were.
pub proof fn law_edits_are_local(
    root: Node,
    section: Seq<char>,
    dep: Seq<char>,
    value: Seq<char>,
)
    ensures
        agree_but(path_removed(root, section, dep).0, root, section, dep),
        agree_but(path_replaced(root, section, dep, value).0, root, section, dep),
        agree_but(path_set(root, section, dep, value).0, root, section, dep),
        agree_but(version_set(root, section, dep, value).0, root, section, dep),
        agree_but(feature_stripped(root, section, dep, value).0, root, section, dep),
        agree_but(value_set(root, section, dep, value).0, root, section, dep),
        agree_but(dep_deleted(root, section, dep).0, root, section, dep),
{
}

/// An edit that reports no change makes none.
pub proof fn law_no_change_reported_none_made(
    root: Node,
    section: Seq<char>,
    dep: Seq<char>,
    value: Seq<char>,
)
    ensures
        !path_removed(root, section, dep).1 ==> path_removed(root, section, dep).0 == root,
        !path_replaced(root, section, dep, value).1 ==> path_replaced(root, section, dep, value).0
            == root,
        !path_set(root, section, dep, value).1 ==> path_set(root, section, dep, value).0 == root,
        !version_set(root, section, dep, value).1 ==> version_set(root, section, dep, value).0
            == root,
        !dep_deleted(root, section, dep).1 ==> dep_deleted(root, section, dep).0 == root,
        !section_deleted(root, section).1 ==> section_deleted(root, section).0 == root,
        !feature_stripped(root, section, dep, value).1 ==> feature_stripped(
            root,
            section,
            dep,
            value,
        ).0 == root,
        !member_removed(root, value).1 ==> member_removed(root, value).0 == root,
{
    lemma_with_dep_same(root, section, dep);
    if let Some(d) = dep_at(root, section, dep) {
        if d.has("features"@) {
            if let Node::Array(a) = d.entries()["features"@] {
                lemma_unlike_short(a, value);
                lemma_with_same(d, "features"@);
            }
        }
    }
    if root.has("workspace"@) && root.entries()["workspace"@] is Table {
        let ws = root.entries()["workspace"@];
        if ws.has("members"@) {
            if let Node::Array(a) = ws.entries()["members"@] {
                lemma_unlike_short(a, value);
                lemma_with_same(ws, "members"@);
                lemma_with_same(root, "workspace"@);
            }
        }
    }
}

proof fn lemma_unlike_short(a: Seq<Node>, t: Seq<char>)
    ensures
        unlike(a, t).len() <= a.len(),
        unlike(a, t).len() == a.len() ==> unlike(a, t) == a,
    decreases a.len(),
{
    reveal(Seq::filter);
    if a.len() > 0 {
        lemma_unlike_short(a.drop_last(), t);
        assert(a.drop_last().push(a.last()) =~= a);
    }
}

/// Removing a path, setting a path or setting a version a second time does nothing.
pub proof fn law_second_edit_is_idle(
    root: Node,
    section: Seq<char>,
    dep: Seq<char>,
    value: Seq<char>,
)
    ensures
        !path_removed(path_removed(root, section, dep).0, section, dep).1,
        !path_replaced(path_replaced(root, section, dep, value).0, section, dep, value).1,
        !path_set(path_set(root, section, dep, value).0, section, dep, value).1,
        !version_set(version_set(root, section, dep, value).0, section, dep, value).1,
        !dep_deleted(dep_deleted(root, section, dep).0, section, dep).1,
{
    reveal_strlit("git");
    reveal_strlit("path");
    assert("git"@.len() != "path"@.len());
    if let Some(Node::Text(v)) = dep_at(root, section, dep) {
        assert(entry_is(versioned_path(v, value), "path"@, value));
    }
}

/// Unpatching a table that had no path undoes patching it.
pub proof fn law_unpatch_undoes_patch(
    root: Node,
    section: Seq<char>,
    dep: Seq<char>,
    path: Seq<char>,
)
    requires
        dep_at(root, section, dep) is Some,
        dep_at(root, section, dep).unwrap().is_tabular(),
        dep_at(root, section, dep).unwrap().lacks("path"@),
    ensures
        path_set(root, section, dep, path).1,
        path_removed(path_set(root, section, dep, path).0, section, dep) == (root, true),
{
    let d = dep_at(root, section, dep).unwrap();
    let sec = root.entries()[section];
    let patched = d.with("path"@, Node::Text(path));
    assert(patched.entries().remove("path"@) =~= d.entries());
    assert(patched.order()[d.order().len() as int] == "path"@);
    assert(patched.order().remove(patched.order().index_of("path"@)) =~= d.order());
    assert(patched.without("path"@) == d);
    let mid = sec.with(dep, patched);
    assert(mid.entries().insert(dep, d) =~= sec.entries());
    assert(root.with(section, mid).entries().insert(section, sec) =~= root.entries());
}

/// After its path is replaced a dependency has the git URL and no path.
pub proof fn law_git_replaces_path(
    root: Node,
    section: Seq<char>,
    dep: Seq<char>,
    url: Seq<char>,
)
    requires
        path_replaced(root, section, dep, url).1,
    ensures
        ({
            let d = dep_at(path_replaced(root, section, dep, url).0, section, dep);
            d is Some && !d.unwrap().has("path"@) && entry_is(d.unwrap(), "git"@, url)
        }),
{
    reveal_strlit("git");
    reveal_strlit("path");
    assert("git"@.len() != "path"@.len());
}

/// After its version is set a dependency that took it has that version.
pub proof fn law_version_is_set(
    root: Node,
    section: Seq<char>,
    dep: Seq<char>,
    version: Seq<char>,
)
    requires
        dep_at(root, section, dep) is Some,
        dep_at(root, section, dep).unwrap().is_tabular() || dep_at(root, section, dep).unwrap()
            is Text,
    ensures
        ({
            let d = dep_at(version_set(root, section, dep, version).0, section, dep);
            d is Some && (d.unwrap() == Node::Text(version) || entry_is(
                d.unwrap(),
                "version"@,
                version,
            ))
        }),
{
}

/// A feature list stripped of a reference holds it no more.
pub proof fn law_stripped_list_is_clean(a: Seq<Node>, t: Seq<char>)
    ensures
        !unlike(a, t).contains(Node::Text(t)),
        unlike(unlike(a, t), t) == unlike(a, t),
{
    broadcast use vstd::seq_lib::group_filter_ensures;

    let b = unlike(a, t);
    let keep = |n: Node| n.is_value() && n != Node::Text(t);
    assert forall|i: int| 0 <= i < b.len() implies (#[trigger] b[i]).is_value() && b[i]
        != Node::Text(t) by {
        assert(keep(b[i]));
    }
    lemma_filter_all(b, t);
}

proof fn lemma_filter_all(b: Seq<Node>, t: Seq<char>)
    requires
        forall|i: int| 0 <= i < b.len() ==> (#[trigger] b[i]).is_value() && b[i] != Node::Text(t),
    ensures
        unlike(b, t) == b,
    decreases b.len(),
{
    reveal(Seq::filter);
    if b.len() > 0 {
        lemma_filter_all(b.drop_last(), t);
        assert(b.drop_last().push(b.last()) =~= b);
    }
}

/// Removing a path takes the path and nothing else, where there is one.
pub proof fn law_only_the_path_goes(root: Node, section: Seq<char>, dep: Seq<char>, key: Seq<char>)
    ensures
        path_removed(root, section, dep).1 <==> dep_at(root, section, dep) is Some && dep_at(
            root,
            section,
            dep,
        ).unwrap().is_tabular() && dep_at(root, section, dep).unwrap().has("path"@),
        dep_at(root, section, dep) matches Some(d) ==> (dep_at(
            path_removed(root, section, dep).0,
            section,
            dep,
        ) matches Some(now) && (key != "path"@ ==> same_entry(d, now, key))
            && !now.has("path"@) && (
        d is Inline <==> now is Inline) && (d is Table <==> now is Table)),
        dep_at(root, section, dep) is None ==> path_removed(root, section, dep).0 == root,
{
}

/// A git URL takes the place of a path and leaves all else, where there is a path.
pub proof fn law_git_comes_for_the_path(
    root: Node,
    section: Seq<char>,
    dep: Seq<char>,
    url: Seq<char>,
    key: Seq<char>,
)
    ensures
        path_replaced(root, section, dep, url).1 <==> dep_at(root, section, dep) is Some && dep_at(
            root,
            section,
            dep,
        ).unwrap().is_tabular() && dep_at(root, section, dep).unwrap().has("path"@),
        dep_at(root, section, dep) matches Some(d) ==> (dep_at(
            path_replaced(root, section, dep, url).0,
            section,
            dep,
        ) matches Some(now) && (key != "path"@ && key != "git"@ ==> same_entry(d, now, key))
            && !now.has("path"@) && (d.has("path"@) ==> entry_is(now, "git"@, url))),
        dep_at(root, section, dep) is None ==> path_replaced(root, section, dep, url).0 == root,
{
    reveal_strlit("git");
    reveal_strlit("path");
    assert("git"@.len() != "path"@.len());
}

/// A dependency that is declared gets the path, and keeps its version and all else; a bare version
/// becomes the version of a table. A dependency that is not declared gets nothing.
pub proof fn law_path_is_set(
    root: Node,
    section: Seq<char>,
    dep: Seq<char>,
    path: Seq<char>,
    key: Seq<char>,
)
    ensures
        dep_at(root, section, dep) matches Some(d) ==> (dep_at(
            path_set(root, section, dep, path).0,
            section,
            dep,
        ) matches Some(now) && (d.is_tabular() || d is Text ==> entry_is(now, "path"@, path)) && (
        d.is_tabular() && key != "path"@ ==> same_entry(d, now, key)) && (d matches Node::Text(v)
            ==> entry_is(now, "version"@, v) && (now.has(key) ==> key == "version"@ || key
            == "path"@))),
        dep_at(root, section, dep) is None ==> path_set(root, section, dep, path).0 == root,
{
    reveal_strlit("version");
    reveal_strlit("path");
    assert("version"@.len() != "path"@.len());
}

/// A dependency gets the version, and keeps its path and all else.
pub proof fn law_only_the_version_changes(
    root: Node,
    section: Seq<char>,
    dep: Seq<char>,
    version: Seq<char>,
    key: Seq<char>,
)
    ensures
        dep_at(root, section, dep) matches Some(d) ==> (dep_at(
            version_set(root, section, dep, version).0,
            section,
            dep,
        ) matches Some(now) && (d.is_tabular() ==> entry_is(now, "version"@, version)) && (d is Text
            ==> now == Node::Text(version)) && (d.is_tabular() && key != "version"@ ==> same_entry(
            d,
            now,
            key,
        ))),
        dep_at(root, section, dep) is None ==> version_set(root, section, dep, version).0 == root,
        workspace_dep_at(root, dep) matches Some(d) ==> (workspace_dep_at(
            workspace_dep_version_set(root, dep, version).0,
            dep,
        ) matches Some(now) && (d.is_tabular() ==> entry_is(now, "version"@, version)) && (
        d.is_tabular() && key != "version"@ ==> same_entry(d, now, key)) && (!d.is_tabular() ==> now
            == d)),
        workspace_dep_at(root, dep) matches Some(d) ==> (workspace_dep_at(
            workspace_dep_version_forced(root, dep, version).0,
            dep,
        ) matches Some(now) && (d.is_tabular() ==> entry_is(now, "version"@, version)) && (d is Text
            ==> now == Node::Text(version)) && (d.is_tabular() && key != "version"@ ==> same_entry(
            d,
            now,
            key,
        ))),
{
}

/// A deleted dependency is gone from its section; one that was not there leaves the document as it
/// was.
pub proof fn law_deleted_is_gone(root: Node, section: Seq<char>, dep: Seq<char>)
    ensures
        dep_at(dep_deleted(root, section, dep).0, section, dep) is None,
        dep_deleted(root, section, dep).1 <==> dep_at(root, section, dep) is Some,
        workspace_dep_at(workspace_dep_deleted(root, dep).0, dep) is None,
        workspace_dep_deleted(root, dep).1 <==> workspace_dep_at(root, dep) is Some,
{
}

/// Editing an entry of `[workspace.dependencies]` leaves the other ones as they were.
pub proof fn law_workspace_edits_are_local(
    root: Node,
    dep: Seq<char>,
    value: Seq<char>,
    other: Seq<char>,
)
    requires
        other != dep,
    ensures
        workspace_dep_at(workspace_dep_deleted(root, dep).0, other) == workspace_dep_at(
            root,
            other,
        ),
        workspace_dep_at(workspace_dep_version_set(root, dep, value).0, other)
            == workspace_dep_at(root, other),
        workspace_dep_at(workspace_dep_version_forced(root, dep, value).0, other)
            == workspace_dep_at(root, other),
        workspace_dep_at(workspace_dep_git_set(root, dep, value).0, other) == workspace_dep_at(
            root,
            other,
        ),
{
}

/// An entry of `[workspace.dependencies]` that is a table gets the git URL, loses its path and
/// keeps all else.
pub proof fn law_workspace_git_is_set(root: Node, dep: Seq<char>, url: Seq<char>, key: Seq<char>)
    ensures
        workspace_dep_git_set(root, dep, url).1 <==> workspace_dep_at(root, dep) is Some
            && workspace_dep_at(root, dep).unwrap().is_tabular(),
        workspace_dep_git_set(root, dep, url).1 ==> (workspace_dep_at(
            workspace_dep_git_set(root, dep, url).0,
            dep,
        ) matches Some(now) && entry_is(now, "git"@, url) && !now.has("path"@) && (key != "path"@
            && key != "git"@ ==> same_entry(workspace_dep_at(root, dep).unwrap(), now, key))),
        !workspace_dep_git_set(root, dep, url).1
            ==> workspace_dep_git_set(root, dep, url).0 == root,
{
    reveal_strlit("git");
    reveal_strlit("path");
    assert("git"@.len() != "path"@.len());
}

/// A deleted section is gone, and every other section stays. One that is named with its parent goes
/// out of the parent, which stays as long as it holds something else.
pub proof fn law_deleted_section_is_gone(root: Node, section_path: Seq<char>, other: Seq<char>)
    ensures
        ({
            let keys = text::split(section_path, '.');
            let now = section_deleted(root, section_path).0;
            &&& keys.len() == 1 ==> !(root.is_tabular() && now.has(keys[0]))
            &&& keys.len() == 1 && other != keys[0] ==> same_entry(root, now, other)
            &&& keys.len() == 2 && other != keys[0] ==> same_entry(root, now, other)
            &&& keys.len() == 2 && root.is_tabular() && root.has(keys[0])
                && root.entries()[keys[0]] is Table
                    && now.has(keys[0]) ==> !now.entries()[keys[0]].has(
                keys[1],
            ) && (other != keys[1] ==> same_entry(
                root.entries()[keys[0]],
                now.entries()[keys[0]],
                other,
            ))
            &&& keys.len() == 2 && root.has(keys[0]) && root.entries()[keys[0]] is Table
                && root.entries()[keys[0]].has(other) && other != keys[1] ==> now.has(keys[0])
            &&& keys.len() != 1 && keys.len() != 2 ==> now == root
        }),
{
    let keys = text::split(section_path, '.');
    if keys.len() == 2 && root.has(keys[0]) && root.entries()[keys[0]] is Table {
        let rest = root.entries()[keys[0]].without(keys[1]);
        if root.entries()[keys[0]].has(other) && other != keys[1] {
            assert(rest.entries().dom().contains(other));
        }
    }
}

/// A list without a text keeps every other value.
pub proof fn law_other_values_stay(a: Seq<Node>, t: Seq<char>, n: Node)
    ensures
        unlike(a, t).contains(n) <==> a.contains(n) && n.is_value() && n != Node::Text(t),
    decreases a.len(),
{
    reveal(Seq::filter);
    if a.len() > 0 {
        law_other_values_stay(a.drop_last(), t, n);
        let before = unlike(a.drop_last(), t);
        crate::group::lemma_push_contains(before, a.last());
        crate::group::lemma_push_contains(a.drop_last(), a.last());
        assert(a.drop_last().push(a.last()) =~= a);
    }
}

/// A removed member is no longer listed, and every other one is.
pub proof fn law_member_is_removed(root: Node, member: Seq<char>, other: Seq<char>)
    requires
        root.has("workspace"@),
        root.entries()["workspace"@] is Table,
        root.entries()["workspace"@].has("members"@),
        root.entries()["workspace"@].entries()["members"@] is Array,
    ensures
        ({
            let was = root.entries()["workspace"@].entries()["members"@]->Array_0;
            let ws = member_removed(root, member).0.entries()["workspace"@];
            &&& ws.entries()["members"@] is Array
            &&& !ws.entries()["members"@]->Array_0.contains(Node::Text(member))
            &&& other != member ==> (ws.entries()["members"@]->Array_0.contains(Node::Text(other))
                <==> was.contains(Node::Text(other)))
            &&& other != "members"@ ==> same_entry(root.entries()["workspace"@], ws, other)
            &&& other != "workspace"@ ==> same_entry(root, member_removed(root, member).0, other)
        }),
{
    let was = root.entries()["workspace"@].entries()["members"@]->Array_0;
    law_other_values_stay(was, member, Node::Text(member));
    law_other_values_stay(was, member, Node::Text(other));
}

/// Stripping a feature from a section takes it from the feature list of each of its dependencies,
/// and changes nothing else of them and of other sections.
pub proof fn law_feature_is_stripped(
    root: Node,
    section: Seq<char>,
    feature: Seq<char>,
    s: Seq<char>,
    dep: Seq<char>,
    key: Seq<char>,
)
    ensures
        ({
            let was = dep_at(root, s, dep);
            let now = dep_at(section_stripped(root, section, feature), s, dep);
            &&& s != section ==> now == was
            &&& was is Some <==> now is Some
            &&& was is Some && key != "features"@ ==> same_entry(was.unwrap(), now.unwrap(), key)
            &&& s == section && was is Some && was.unwrap().has("features"@)
                && was.unwrap().entries()["features"@] is Array
                    ==> now.unwrap().entries()["features"@]
                == Node::Array(unlike(was.unwrap().entries()["features"@]->Array_0, feature))
        }),
{
}

/// Stripping the references to a dependency takes them from every feature, and changes no other
/// section.
pub proof fn law_references_are_stripped(root: Node, dep: Seq<char>, key: Seq<char>, f: Seq<char>)
    ensures
        key != "features"@ ==> same_entry(root, features_stripped(root, dep), key),
        dep_at(root, "features"@, f) matches Some(Node::Array(a)) ==> dep_at(
            features_stripped(root, dep),
            "features"@,
            f,
        ) == Some(Node::Array(unlike(a, "dep:"@ + dep))),
        dep_at(root, "features"@, f) is Some && !(dep_at(root, "features"@, f).unwrap() is Array)
            ==> dep_at(features_stripped(root, dep), "features"@, f) == dep_at(
            root,
            "features"@,
            f,
        ),
        dep_at(root, "features"@, f) is None ==> dep_at(
            features_stripped(root, dep),
            "features"@,
            f,
        ) is None,
{
}

/// A package gets the version, and nothing else of it or around it changes.
pub proof fn law_package_version(root: Node, version: Seq<char>, key: Seq<char>)
    ensures
        root.has("package"@) && root.entries()["package"@] is Table ==> entry_is(
            package_version_set(root, version).0.entries()["package"@],
            "version"@,
            version,
        ) && (key != "version"@ ==> same_entry(
            root.entries()["package"@],
            package_version_set(root, version).0.entries()["package"@],
            key,
        )),
        key != "package"@ ==> same_entry(root, package_version_set(root, version).0, key),
        !root.has("package"@) ==> package_version_set(root, version).0 == root,
{
}

/// The version that a workspace gives to its packages is set where there is one, and nothing else
/// changes.
pub proof fn law_workspace_version(root: Node, version: Seq<char>, key: Seq<char>)
    ensures
        dep_at(root.entries()["workspace"@], "package"@, "version"@) is Some && root.has(
            "workspace"@,
        ) && root.entries()["workspace"@] is Table
            && root.entries()["workspace"@].entries()["package"@] is Table ==> dep_at(
            workspace_version_set(root, version).0.entries()["workspace"@],
            "package"@,
            "version"@,
        ) == Some(Node::Text(version)) && workspace_version_set(root, version).1 && (key
            != "version"@ ==> dep_at(
            workspace_version_set(root, version).0.entries()["workspace"@],
            "package"@,
            key,
        ) == dep_at(root.entries()["workspace"@], "package"@, key)),
        key != "workspace"@ ==> same_entry(root, workspace_version_set(root, version).0, key),
        key != "package"@ && root.has("workspace"@) ==> same_entry(
            root.entries()["workspace"@],
            workspace_version_set(root, version).0.entries()["workspace"@],
            key,
        ),
        dep_at(root.entries()["workspace"@], "package"@, "version"@) is None
            ==> workspace_version_set(root, version).0 == root,
{
}

/// An entry of `[workspace.dependencies]` without a path gets the one that a map has for it, and
/// with it any version; every other entry stays.
pub proof fn law_workspace_paths(root: Node, paths: Map<Seq<char>, String>, dep: Seq<char>)
    requires
        root.has("workspace"@),
        root.entries()["workspace"@] is Table,
        root.entries()["workspace"@].has("dependencies"@),
        root.entries()["workspace"@].entries()["dependencies"@] is Table,
    ensures
        ({
            let was = workspace_dep_at(root, dep);
            let now = workspace_dep_at(workspace_paths_added(root, paths), dep);
            &&& was is Some <==> now is Some
            &&& was is Some && paths.dom().contains(dep) && was.unwrap().is_tabular()
                && !was.unwrap().has("path"@) ==> entry_is(now.unwrap(), "path"@, paths[dep]@)
                && entry_is(now.unwrap(), "version"@, "*"@)
            &&& was is Some && (!paths.dom().contains(dep) || !was.unwrap().is_tabular()
                || was.unwrap().has("path"@)) ==> now == was
        }),
{
    reveal_strlit("version");
    reveal_strlit("path");
    assert("version"@.len() != "path"@.len());
}

/// An edit reports a change exactly where there was something to change.
pub proof fn law_changes_are_reported(
    root: Node,
    section: Seq<char>,
    dep: Seq<char>,
    value: Seq<char>,
)
    ensures
        ({
            let d = dep_at(root, section, dep);
            let w = workspace_dep_at(root, dep);
            &&& path_set(root, section, dep, value).1 <==> d is Some && (d.unwrap() is Text || (
            d.unwrap().is_tabular() && !entry_is(d.unwrap(), "path"@, value)))
            &&& version_set(root, section, dep, value).1 <==> d is Some && ((d.unwrap() is Text
                && d.unwrap() != Node::Text(value)) || (d.unwrap().is_tabular() && !entry_is(
                d.unwrap(),
                "version"@,
                value,
            )))
            &&& workspace_dep_version_set(root, dep, value).1 <==> w is Some
                && w.unwrap().is_tabular() && !entry_is(w.unwrap(), "version"@, value)
            &&& workspace_dep_version_forced(root, dep, value).1 <==> w is Some && (
            w.unwrap().is_tabular() || w.unwrap() is Text)
            &&& package_version_set(root, value).1 <==> root.has("package"@)
                && root.entries()["package"@] is Table && !entry_is(
                root.entries()["package"@],
                "version"@,
                value,
            )
            &&& value_set(root, section, dep, value).1 <==> d is Some && raw_value_node(value)
                is Some
            &&& raw_value_node("[]"@) == Some(Node::Array(Seq::empty()))
        }),
{
}

/// A dependency counts as stripped where its feature list holds the feature, and a feature where its
/// list refers to the dependency.
pub proof fn law_stripped_are_counted(
    root: Node,
    section: Seq<char>,
    feature: Seq<char>,
    dep: Seq<char>,
)
    requires
        dep_at(root, section, dep) is Some,
    ensures
        ({
            let d = dep_at(root, section, dep).unwrap();
            let listed = d.has("features"@) && d.entries()["features"@] is Array
                && d.entries()["features"@]->Array_0.contains(Node::Text(feature));
            &&& listed ==> featured_deps(root, section, feature).contains(dep)
            &&& !d.has("features"@) ==> !featured_deps(root, section, feature).contains(dep)
            &&& section == "features"@ && (d matches Node::Array(a) && a.contains(
                Node::Text("dep:"@ + feature),
            )) ==> referring_features(root, feature).contains(dep)
        }),
{
    let d = dep_at(root, section, dep).unwrap();
    if d.has("features"@) {
        if let Node::Array(a) = d.entries()["features"@] {
            lemma_unlike_short(a, feature);
            law_other_values_stay(a, feature, Node::Text(feature));
        }
    }
    if let Node::Array(a) = d {
        lemma_unlike_short(a, "dep:"@ + feature);
        law_other_values_stay(a, "dep:"@ + feature, Node::Text("dep:"@ + feature));
    }
}

} // verus!
