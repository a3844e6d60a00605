//! The version rewriter: sets the version of a manifest and of its unpinned
//! dependencies, and collects the local path dependencies it names.
//!
//! Three tables of dependencies are looked at: `dependencies`,
//! `dev-dependencies` and `workspace.dependencies`. An entry that is itself
//! a table and has no `version` gets one; an entry with a `path` is a
//! reference to another manifest. Of the two tables `package` and
//! `workspace.package`, a `version` that is there and does not defer to the
//! workspace is replaced. Nothing else is touched.

use vstd::prelude::*;
use toml_edit::{DocumentMut, Item};
use crate::document::{
    Node, document_model, entry_keys, entry_mut, error_message, insert_entry, is_table_like,
    item_as_str, item_get, item_model, parse_document, parsed, render_document, rendered,
    root_mut, version_item,
};
use crate::error::Error;
use crate::path::{reference, reference_from};

verus! {

/// The key of a version.
pub open spec fn version_key() -> Seq<char> {
    "version"@
}

/// The key of the path of a local dependency.
pub open spec fn path_key() -> Seq<char> {
    "path"@
}

/// The key by which a version defers to the workspace.
pub open spec fn workspace_key() -> Seq<char> {
    "workspace"@
}

/// The key of the package table.
pub open spec fn package_key() -> Seq<char> {
    "package"@
}

/// The key of the dependencies.
pub open spec fn dependencies_key() -> Seq<char> {
    "dependencies"@
}

/// The key of the development dependencies.
pub open spec fn dev_dependencies_key() -> Seq<char> {
    "dev-dependencies"@
}

/// The keys that the rewriter tells apart are different texts.
pub proof fn lemma_keys_differ()
    ensures
        version_key() != path_key(),
        dependencies_key() != dev_dependencies_key(),
        dependencies_key() != workspace_key(),
        dependencies_key() != package_key(),
        dev_dependencies_key() != workspace_key(),
        dev_dependencies_key() != package_key(),
        workspace_key() != package_key(),
{
    reveal_strlit("version");
    reveal_strlit("path");
    reveal_strlit("workspace");
    reveal_strlit("package");
    reveal_strlit("dependencies");
    reveal_strlit("dev-dependencies");
    assert(version_key().len() != path_key().len());
    assert(dependencies_key().len() != dev_dependencies_key().len());
    assert(dependencies_key().len() != workspace_key().len());
    assert(dependencies_key().len() != package_key().len());
    assert(dev_dependencies_key().len() != workspace_key().len());
    assert(dev_dependencies_key().len() != package_key().len());
    assert(workspace_key().len() != package_key().len());
}

/// One dependency after the rewrite: an entry that is a table and has no
/// version gets the target version; any other entry stays as it is.
pub open spec fn pinned_entry(entry: Node, version: Seq<char>) -> Node {
    if entry is Table && entry.child(version_key()) is Absent {
        entry.with_entry(version_key(), Node::Text(version))
    } else {
        entry
    }
}

/// A table of dependencies after the rewrite: every entry is as
/// [`pinned_entry`] says, in its old place. Anything but a table stays as
/// it is.
pub open spec fn pinned(deps: Node, version: Seq<char>) -> Node {
    match deps {
        Node::Table { inline, keys, fields } => Node::Table {
            inline,
            keys,
            fields: fields.map_values(|e: Node| pinned_entry(e, version)),
        },
        _ => deps,
    }
}

/// The `path` of a dependency: the text of the field, where the entry is a
/// table and the field a string.
pub open spec fn entry_path(entry: Node) -> Option<Seq<char>> {
    match entry.child(path_key()) {
        Node::Text(p) => Some(p),
        _ => None,
    }
}

/// The reference that the entry `key` of `deps` stands for, seen from the
/// manifest at `current`, if it has a path.
pub open spec fn reference_of(deps: Node, current: Seq<char>) -> spec_fn(Seq<char>) -> Option<
    Seq<char>,
> {
    |key: Seq<char>|
        match entry_path(deps.child(key)) {
            Some(p) => Some(reference(current, p)),
            None => None,
        }
}

/// The references that a table of dependencies holds, in the order of its
/// entries: one for each entry with a path, seen from the manifest at
/// `current`.
pub open spec fn discovered(deps: Node, current: Seq<char>) -> Seq<Seq<char>> {
    deps.listed().filter_map(reference_of(deps, current))
}

/// A table of dependencies of which the entries `done` have been
/// rewritten.
pub open spec fn pinned_among(deps: Node, done: Seq<Seq<char>>, version: Seq<char>) -> Node {
    match deps {
        Node::Table { inline, keys, fields } => Node::Table {
            inline,
            keys,
            fields: Map::new(
                |k: Seq<char>| fields.contains_key(k),
                |k: Seq<char>|
                    if done.contains(k) {
                        pinned_entry(fields[k], version)
                    } else {
                        fields[k]
                    },
            ),
        },
        _ => deps,
    }
}

/// Rewriting an entry a second time changes nothing, and rewriting never
/// touches its path.
pub proof fn lemma_pinned_entry(entry: Node, version: Seq<char>)
    ensures
        pinned_entry(pinned_entry(entry, version), version) == pinned_entry(entry, version),
        entry_path(pinned_entry(entry, version)) == entry_path(entry),
        pinned_entry(entry, version) is Absent <==> entry is Absent,
        pinned_entry(entry, version) is Table <==> entry is Table,
        !(entry.child(version_key()) is Absent) ==> pinned_entry(entry, version) == entry,
{
    lemma_keys_differ();
}

/// Sets the version of every unpinned dependency in the table `item` to
/// `version`, and appends to `found` the references of the entries that
/// have a path, seen from the manifest at `current`.
pub fn modify_dependency(version: &str, item: &mut Item, current: &str, found: &mut Vec<String>)
    ensures
        item_model(*final(item)) == pinned(item_model(*old(item)), version@),
        final(found).deep_view() == old(found).deep_view() + discovered(
            item_model(*old(item)),
            current@,
        ),
{
    let ghost before = item_model(*item);
    let ghost found_before = found.deep_view();
    let ghost listed = before.listed();
    if !is_table_like(item) {
        assert(found.deep_view() =~= found_before + discovered(before, current@));
        return;
    }
    let keys: Vec<String> = entry_keys(item);
    let ghost getter = reference_of(before, current@);
    let mut i: usize = 0;
    assert(listed.take(0).filter_map(getter) =~= Seq::<Seq<char>>::empty());
    assert(item_model(*item) =~= pinned_among(before, listed.take(0), version@)) by {
        assert(before->fields =~= pinned_among(before, listed.take(0), version@)->fields);
    }
    while i < keys.len()
        invariant
            i <= keys.len(),
            before is Table,
            listed == before.listed(),
            keys.deep_view() == listed,
            getter == reference_of(before, current@),
            item_model(*item) == pinned_among(before, listed.take(i as int), version@),
            found.deep_view() == found_before + listed.take(i as int).filter_map(getter),
        decreases keys.len() - i,
    {
        let key: &str = keys[i].as_str();
        let ghost k = key@;
        let ghost now = item_model(*item);
        let ghost found_now = found.deep_view();
        assert(k == listed[i as int]);
        proof {
            lemma_pinned_entry(before.child(k), version@);
            lemma_keys_differ();
            listed.lemma_filter_map_take_succ(getter, i as int);
        }
        assert(now.child(k) == before.child(k) || now.child(k) == pinned_entry(
            before.child(k),
            version@,
        ));
        match entry_mut(item, key) {
            Some(entry) => {
                if is_table_like(entry) {
                    if item_get(entry, "version").is_none() {
                        insert_entry(entry, "version", version_item(version));
                    }
                    match item_get(entry, "path") {
                        Some(path) => {
                            match item_as_str(path) {
                                Some(rel) => {
                                    found.push(reference_from(current, rel));
                                    assert(found.deep_view() =~= found_now.push(
                                        reference(current@, rel@),
                                    ));
                                },
                                None => {},
                            }
                        },
                        None => {},
                    }
                }
                assert(item_model(*entry) == pinned_entry(before.child(k), version@));
            },
            None => {},
        }
        assert(found.deep_view() =~= found_before + listed.take(i + 1).filter_map(getter));
        assert(item_model(*item) =~= pinned_among(before, listed.take(i + 1), version@)) by {
            let prev = listed.take(i as int);
            let next = listed.take(i + 1);
            let goal = pinned_among(before, next, version@);
            assert forall|q: Seq<char>| next.contains(q) <==> (prev.contains(q) || q == k) by {
                if next.contains(q) {
                    let j = choose|j: int| 0 <= j < next.len() && next[j] == q;
                    if j < i {
                        assert(prev[j] == q);
                    }
                }
                if prev.contains(q) {
                    let j = choose|j: int| 0 <= j < prev.len() && prev[j] == q;
                    assert(next[j] == q);
                }
                if q == k {
                    assert(next[i as int] == q);
                }
            }
            assert(item_model(*item)->fields =~= goal->fields);
        }
        i += 1;
    }
    assert(listed.take(i as int) =~= listed);
    assert(pinned_among(before, listed, version@) =~= pinned(before, version@)) by {
        assert forall|q: Seq<char>| before.has_entry(q) && !listed.contains(q) implies pinned_entry(
            before.child(q),
            version@,
        ) == before.child(q) by {
            assert(before.child(q) is Absent);
        }
        assert(pinned_among(before, listed, version@)->fields =~= pinned(
            before,
            version@,
        )->fields);
    }
}

/// A package table after the rewrite: a version that is there and does
/// not defer to the workspace is replaced by the target version. A table
/// without a version, and anything but a table, stays as it is.
pub open spec fn versioned(package: Node, version: Seq<char>) -> Node {
    let own = package.child(version_key());
    if !(own is Absent) && own.child(workspace_key()) is Absent {
        package.with_entry(version_key(), Node::Text(version))
    } else {
        package
    }
}

/// `table` with `value` in place of what its entry `key` held. A table
/// without that entry, and anything but a table, stays as it is.
pub open spec fn replaced(table: Node, key: Seq<char>, value: Node) -> Node {
    if table.has_entry(key) {
        table.with_entry(key, value)
    } else {
        table
    }
}

/// The `workspace` table after the rewrite: its dependencies and its
/// package template are rewritten.
pub open spec fn rewritten_workspace(workspace: Node, version: Seq<char>) -> Node {
    replaced(
        replaced(
            workspace,
            dependencies_key(),
            pinned(workspace.child(dependencies_key()), version),
        ),
        package_key(),
        versioned(workspace.child(package_key()), version),
    )
}

/// A manifest after the rewrite: its two tables of dependencies, its
/// workspace table and its package table are rewritten, each in its place.
pub open spec fn rewritten(root: Node, version: Seq<char>) -> Node {
    let a = replaced(root, dependencies_key(), pinned(root.child(dependencies_key()), version));
    let b = replaced(
        a,
        dev_dependencies_key(),
        pinned(root.child(dev_dependencies_key()), version),
    );
    let c = replaced(
        b,
        workspace_key(),
        rewritten_workspace(root.child(workspace_key()), version),
    );
    replaced(c, package_key(), versioned(root.child(package_key()), version))
}

/// The references that the manifest at `current` holds: those of its
/// dependencies, then those of its development dependencies, then those of
/// the dependencies of its workspace.
pub open spec fn references(root: Node, current: Seq<char>) -> Seq<Seq<char>> {
    discovered(root.child(dependencies_key()), current) + discovered(
        root.child(dev_dependencies_key()),
        current,
    ) + discovered(root.child(workspace_key()).child(dependencies_key()), current)
}

/// Replaces the version of the package table `item` by `v`, if it has one
/// of its own.
pub fn modify_package(v: &str, item: &mut Item)
    ensures
        item_model(*final(item)) == versioned(item_model(*old(item)), v@),
{
    let own: bool = match item_get(item, "version") {
        Some(version) => item_get(version, "workspace").is_none(),
        None => false,
    };
    if own {
        match entry_mut(item, "version") {
            Some(version) => {
                *version = version_item(v);
            },
            None => {},
        }
    }
}

/// Rewrites the table of dependencies in the entry `key` of `table`, if
/// there is one.
fn modify_dependency_in(
    version: &str,
    table: &mut Item,
    key: &str,
    current: &str,
    found: &mut Vec<String>,
)
    ensures
        item_model(*final(table)) == replaced(
            item_model(*old(table)),
            key@,
            pinned(item_model(*old(table)).child(key@), version@),
        ),
        final(found).deep_view() == old(found).deep_view() + discovered(
            item_model(*old(table)).child(key@),
            current@,
        ),
{
    let ghost before = item_model(*table);
    let ghost found_before = found.deep_view();
    match entry_mut(table, key) {
        Some(deps) => {
            modify_dependency(version, deps, current, found);
        },
        None => {
            proof {
                assert(discovered(before.child(key@), current@) =~= Seq::<Seq<char>>::empty());
                assert(found.deep_view() =~= found_before + discovered(
                    before.child(key@),
                    current@,
                ));
                if before.has_entry(key@) {
                    assert(before->fields =~= before.with_entry(key@, Node::Absent)->fields);
                }
            }
        },
    }
}

/// Rewrites the package table in the entry `key` of `table`, if there is
/// one.
fn modify_package_in(version: &str, table: &mut Item, key: &str)
    ensures
        item_model(*final(table)) == replaced(
            item_model(*old(table)),
            key@,
            versioned(item_model(*old(table)).child(key@), version@),
        ),
{
    let ghost before = item_model(*table);
    match entry_mut(table, key) {
        Some(package) => {
            modify_package(version, package);
        },
        None => {
            proof {
                if before.has_entry(key@) {
                    assert(before->fields =~= before.with_entry(key@, Node::Absent)->fields);
                }
            }
        },
    }
}

/// Rewrites the manifest `doc`, which stands at `current`, to `version`,
/// and returns the references to other manifests that it holds.
pub fn rewrite(doc: &mut DocumentMut, version: &str, current: &str) -> (found: Vec<String>)
    ensures
        document_model(*final(doc)) == rewritten(document_model(*old(doc)), version@),
        found.deep_view() == references(document_model(*old(doc)), current@),
{
    let ghost before = document_model(*doc);
    let mut found: Vec<String> = Vec::new();
    assert(found.deep_view() =~= Seq::<Seq<char>>::empty());
    let root: &mut Item = root_mut(doc);
    proof {
        lemma_keys_differ();
    }
    modify_dependency_in(version, root, "dependencies", current, &mut found);
    let ghost a = item_model(*root);
    modify_dependency_in(version, root, "dev-dependencies", current, &mut found);
    let ghost b = item_model(*root);
    let ghost workspace = before.child(workspace_key());
    let ghost found_b = found.deep_view();
    assert(b.child(workspace_key()) == workspace);
    match entry_mut(root, "workspace") {
        Some(ws) => {
            modify_dependency_in(version, ws, "dependencies", current, &mut found);
        },
        None => {
            assert(discovered(workspace.child(dependencies_key()), current@) =~= Seq::<
                Seq<char>,
            >::empty());
            assert(found.deep_view() =~= found_b + discovered(
                workspace.child(dependencies_key()),
                current@,
            ));
        },
    }
    let ghost c = item_model(*root);
    assert(found.deep_view() =~= references(before, current@));
    modify_package_in(version, root, "package");
    let ghost d = item_model(*root);
    match entry_mut(root, "workspace") {
        Some(ws) => {
            modify_package_in(version, ws, "package");
        },
        None => {},
    }
    proof {
        let e = item_model(*root);
        let goal = rewritten(before, version@);
        if before is Table {
            assert(e->fields =~= goal->fields);
            assert(e->keys =~= goal->keys);
        }
    }
    found
}

/// A manifest after the rewrite.
#[derive(Debug)]
pub struct Rewritten {
    /// The text of the manifest, to be written back.
    pub text: String,
    /// The references to other manifests that it holds.
    pub references: Vec<String>,
}

/// Rewrites the manifest at `current`, given as `text`, to `version`. The
/// text is parsed, rewritten as [`rewrite`] says, and written out again.
/// Text that is no well-formed document is a parse error, which names
/// `current`.
pub fn rewrite_manifest(text: &str, version: &str, current: &str) -> (res: Result<
    Rewritten,
    Error,
>)
    ensures
        match parsed(text@) {
            Ok(root) => res matches Ok(out) && out.references.deep_view() == references(
                root,
                current@,
            ) && exists|doc: DocumentMut|
                document_model(doc) == rewritten(root, version@) && out.text@ == #[trigger] rendered(
                    doc,
                ),
            Err(message) => res matches Err(Error::Parse { path, message: m }) && path@
                == current@ && m@ == message,
        },
{
    match parse_document(text) {
        Ok(doc) => {
            let mut doc = doc;
            let found: Vec<String> = rewrite(&mut doc, version, current);
            let out: String = render_document(&doc);
            Ok(Rewritten { text: out, references: found })
        },
        Err(error) => Err(
            Error::Parse { path: current.to_owned(), message: error_message(&error) },
        ),
    }
}

} // verus!
