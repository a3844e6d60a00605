//! What holds of the rewrite of every manifest, stated over what the
//! manifest holds before and after.

use vstd::prelude::*;
use crate::document::Node;
use crate::rewrite::{
    dependencies_key, dev_dependencies_key, discovered, entry_path, lemma_keys_differ,
    lemma_pinned_entry, package_key, path_key, pinned, pinned_entry, reference_of, references,
    replaced, rewritten, rewritten_workspace, version_key, versioned, workspace_key,
};

verus! {

/// Whether `key` is one of the entries of a manifest that the rewrite
/// looks into.
pub open spec fn rewritten_key(key: Seq<char>) -> bool {
    ||| key == dependencies_key()
    ||| key == dev_dependencies_key()
    ||| key == workspace_key()
    ||| key == package_key()
}

/// Whether `after` is a table like `before` but for what its entries hold:
/// the same kind of table, with the same keys in the same order.
pub open spec fn same_shape(before: Node, after: Node) -> bool {
    match (before, after) {
        (
            Node::Table { inline: i1, keys: k1, fields: f1 },
            Node::Table { inline: i2, keys: k2, fields: f2 },
        ) => i1 == i2 && k1 == k2 && f1.dom() == f2.dom(),
        _ => before == after,
    }
}

/// Rewriting a table of dependencies twice is rewriting it once.
pub proof fn lemma_pinned_idempotent(deps: Node, version: Seq<char>)
    ensures
        pinned(pinned(deps, version), version) == pinned(deps, version),
{
    if deps is Table {
        let once = pinned(deps, version);
        let twice = pinned(once, version);
        assert forall|k: Seq<char>| once->fields.contains_key(k) implies twice->fields[k]
            == once->fields[k] by {
            lemma_pinned_entry(deps->fields[k], version);
        }
        assert(twice->fields =~= once->fields);
    }
}

/// Rewriting a package table twice is rewriting it once.
pub proof fn lemma_versioned_idempotent(package: Node, version: Seq<char>)
    ensures
        versioned(versioned(package, version), version) == versioned(package, version),
{
    let once = versioned(package, version);
    if once != package {
        assert(once.child(version_key()) == Node::Text(version));
        assert(versioned(once, version)->fields =~= once->fields);
    }
}

/// Replacing what an entry holds leaves the table in its shape and every
/// other entry as it was.
pub proof fn lemma_replaced(table: Node, key: Seq<char>, value: Node, other: Seq<char>)
    ensures
        same_shape(table, replaced(table, key, value)),
        other != key ==> replaced(table, key, value).child(other) == table.child(other),
        table.has_entry(key) ==> replaced(table, key, value).child(key) == value,
        !table.has_entry(key) ==> replaced(table, key, value) == table,
        replaced(table, key, table.child(key)) == table,
{
    if table.has_entry(key) {
        assert(replaced(table, key, value)->fields.dom() =~= table->fields.dom());
        assert(replaced(table, key, table.child(key))->fields =~= table->fields);
    }
}

/// What the rewrite leaves in each entry of a workspace table.
pub proof fn lemma_workspace_entries(workspace: Node, version: Seq<char>, key: Seq<char>)
    ensures
        same_shape(workspace, rewritten_workspace(workspace, version)),
        rewritten_workspace(workspace, version).child(key) == if key == dependencies_key() {
            pinned(workspace.child(key), version)
        } else if key == package_key() {
            versioned(workspace.child(key), version)
        } else {
            workspace.child(key)
        },
{
    lemma_keys_differ();
    let a = replaced(
        workspace,
        dependencies_key(),
        pinned(workspace.child(dependencies_key()), version),
    );
    lemma_replaced(
        workspace,
        dependencies_key(),
        pinned(workspace.child(dependencies_key()), version),
        key,
    );
    lemma_replaced(a, package_key(), versioned(workspace.child(package_key()), version), key);
    lemma_replaced(
        workspace,
        dependencies_key(),
        pinned(workspace.child(dependencies_key()), version),
        package_key(),
    );
}

/// What the rewrite leaves in each entry of a manifest: its dependencies
/// and development dependencies with their versions set, its workspace
/// and package tables rewritten, and every other entry as it was. The
/// entries keep their keys and their order.
pub proof fn lemma_manifest_entries(root: Node, version: Seq<char>, key: Seq<char>)
    ensures
        same_shape(root, rewritten(root, version)),
        rewritten(root, version).child(key) == if key == dependencies_key() || key
            == dev_dependencies_key() {
            pinned(root.child(key), version)
        } else if key == workspace_key() {
            rewritten_workspace(root.child(key), version)
        } else if key == package_key() {
            versioned(root.child(key), version)
        } else {
            root.child(key)
        },
{
    lemma_keys_differ();
    let pa = pinned(root.child(dependencies_key()), version);
    let pb = pinned(root.child(dev_dependencies_key()), version);
    let pc = rewritten_workspace(root.child(workspace_key()), version);
    let pd = versioned(root.child(package_key()), version);
    let a = replaced(root, dependencies_key(), pa);
    let b = replaced(a, dev_dependencies_key(), pb);
    let c = replaced(b, workspace_key(), pc);
    lemma_replaced(root, dependencies_key(), pa, key);
    lemma_replaced(a, dev_dependencies_key(), pb, key);
    lemma_replaced(b, workspace_key(), pc, key);
    lemma_replaced(c, package_key(), pd, key);
    if root is Table {
        assert(pinned(Node::Absent, version) == Node::Absent);
        assert(versioned(Node::Absent, version) == Node::Absent);
        assert(rewritten_workspace(Node::Absent, version) == Node::Absent);
    }
}

/// Entries that the rewrite does not look into are unchanged: every other
/// table and value of the manifest, and the order of them all.
pub proof fn lemma_rewrite_keeps_the_rest(root: Node, version: Seq<char>, key: Seq<char>)
    requires
        !rewritten_key(key),
    ensures
        rewritten(root, version).child(key) == root.child(key),
        same_shape(root, rewritten(root, version)),
{
    lemma_manifest_entries(root, version, key);
}

/// A dependency keeps all it had. An entry that is no table, such as a
/// bare version, is unchanged, and so is one that has a version. An entry
/// that gets a version keeps every other field, and its old keys in their
/// order before the new one. No path is made or changed.
pub proof fn lemma_dependency_kept(deps: Node, version: Seq<char>, key: Seq<char>, field: Seq<char>)
    ensures
        same_shape(deps, pinned(deps, version)),
        pinned(deps, version).child(key) == pinned_entry(deps.child(key), version),
        !(deps.child(key) is Table) ==> pinned(deps, version).child(key) == deps.child(key),
        !(deps.child(key).child(version_key()) is Absent) ==> pinned(deps, version).child(key)
            == deps.child(key),
        field != version_key() ==> pinned(deps, version).child(key).child(field)
            == deps.child(key).child(field),
        pinned(deps, version).child(key).child(path_key()) == deps.child(key).child(path_key()),
        entry_path(pinned(deps, version).child(key)) == entry_path(deps.child(key)),
        deps.child(key) matches Node::Table { keys, .. } ==> {
            &&& pinned(deps, version).child(key) matches Node::Table { keys: after, .. }
            &&& (after == keys || after == keys.push(version_key()))
        },
{
    lemma_keys_differ();
    lemma_pinned_entry(deps.child(key), version);
    if deps is Table {
        assert(pinned(deps, version)->fields.dom() =~= deps->fields.dom());
    }
}

/// A package table keeps all it had but its own version. A version that
/// defers to the workspace is unchanged, and a table without a version
/// gets none.
pub proof fn lemma_package_kept(package: Node, version: Seq<char>, field: Seq<char>)
    ensures
        same_shape(package, versioned(package, version)),
        field != version_key() ==> versioned(package, version).child(field) == package.child(
            field,
        ),
        package.child(version_key()) is Absent ==> versioned(package, version) == package,
        !(package.child(version_key()).child(workspace_key()) is Absent) ==> versioned(
            package,
            version,
        ) == package,
        versioned(package, version).child(version_key()) == package.child(version_key())
            || versioned(package, version).child(version_key()) == Node::Text(version),
{
    if versioned(package, version) != package {
        assert(versioned(package, version)->fields.dom() =~= package->fields.dom());
    }
}

/// Rewriting a manifest that has been rewritten to the same version
/// changes nothing: no field is set again or put in twice.
pub proof fn lemma_rewrite_idempotent(root: Node, version: Seq<char>)
    ensures
        rewritten(rewritten(root, version), version) == rewritten(root, version),
{
    let once = rewritten(root, version);
    let twice = rewritten(once, version);
    lemma_keys_differ();
    if root is Table {
        lemma_manifest_entries(root, version, dependencies_key());
        lemma_manifest_entries(once, version, dependencies_key());
        assert(same_shape(once, twice));
        assert forall|k: Seq<char>| once->fields.contains_key(k) implies twice->fields[k]
            == once->fields[k] by {
            lemma_manifest_entries(root, version, k);
            lemma_manifest_entries(once, version, k);
            assert(twice.child(k) == twice->fields[k]);
            assert(once.child(k) == once->fields[k]);
            if k == dependencies_key() || k == dev_dependencies_key() {
                lemma_pinned_idempotent(root.child(k), version);
            } else if k == workspace_key() {
                lemma_workspace_idempotent(root.child(k), version);
            } else if k == package_key() {
                lemma_versioned_idempotent(root.child(k), version);
            }
        }
        assert(twice->fields =~= once->fields);
    }
}

/// Rewriting a workspace table twice is rewriting it once.
pub proof fn lemma_workspace_idempotent(workspace: Node, version: Seq<char>)
    ensures
        rewritten_workspace(rewritten_workspace(workspace, version), version)
            == rewritten_workspace(workspace, version),
{
    let once = rewritten_workspace(workspace, version);
    let twice = rewritten_workspace(once, version);
    lemma_keys_differ();
    if workspace is Table {
        lemma_workspace_entries(workspace, version, dependencies_key());
        lemma_workspace_entries(once, version, dependencies_key());
        assert forall|k: Seq<char>| once->fields.contains_key(k) implies twice->fields[k]
            == once->fields[k] by {
            lemma_workspace_entries(workspace, version, k);
            lemma_workspace_entries(once, version, k);
            assert(twice.child(k) == twice->fields[k]);
            assert(once.child(k) == once->fields[k]);
            if k == dependencies_key() {
                lemma_pinned_idempotent(workspace.child(k), version);
            } else if k == package_key() {
                lemma_versioned_idempotent(workspace.child(k), version);
            }
        }
        assert(twice->fields =~= once->fields);
    }
}

/// The rewrite never overwrites a version that is not its to set. In each
/// of the three tables of dependencies, an entry that has a version is
/// left as it is, and so is an entry that is no table. A package version
/// that defers to the workspace is left as it is, in the package table and
/// in the package template of the workspace.
pub proof fn lemma_rewrite_respects_versions(root: Node, version: Seq<char>, name: Seq<char>)
    ensures
        ({
            let before = root.child(dependencies_key()).child(name);
            let after = rewritten(root, version).child(dependencies_key()).child(name);
            (!(before.child(version_key()) is Absent) || !(before is Table)) ==> after == before
        }),
        ({
            let before = root.child(dev_dependencies_key()).child(name);
            let after = rewritten(root, version).child(dev_dependencies_key()).child(name);
            (!(before.child(version_key()) is Absent) || !(before is Table)) ==> after == before
        }),
        ({
            let before = root.child(workspace_key()).child(dependencies_key()).child(name);
            let after = rewritten(root, version).child(workspace_key()).child(
                dependencies_key(),
            ).child(name);
            (!(before.child(version_key()) is Absent) || !(before is Table)) ==> after == before
        }),
        ({
            let before = root.child(package_key());
            let after = rewritten(root, version).child(package_key());
            !(before.child(version_key()).child(workspace_key()) is Absent) ==> after == before
        }),
        ({
            let before = root.child(workspace_key()).child(package_key());
            let after = rewritten(root, version).child(workspace_key()).child(package_key());
            !(before.child(version_key()).child(workspace_key()) is Absent) ==> after == before
        }),
{
    lemma_keys_differ();
    lemma_manifest_entries(root, version, dependencies_key());
    lemma_manifest_entries(root, version, dev_dependencies_key());
    lemma_manifest_entries(root, version, workspace_key());
    lemma_manifest_entries(root, version, package_key());
    lemma_workspace_entries(root.child(workspace_key()), version, dependencies_key());
    lemma_workspace_entries(root.child(workspace_key()), version, package_key());
    lemma_dependency_kept(root.child(dependencies_key()), version, name, name);
    lemma_dependency_kept(root.child(dev_dependencies_key()), version, name, name);
    lemma_dependency_kept(
        root.child(workspace_key()).child(dependencies_key()),
        version,
        name,
        name,
    );
    lemma_package_kept(root.child(package_key()), version, name);
    lemma_package_kept(root.child(workspace_key()).child(package_key()), version, name);
}

/// A table of dependencies holds the same references after the rewrite as
/// before it.
pub proof fn lemma_pinned_keeps_references(deps: Node, version: Seq<char>, current: Seq<char>)
    ensures
        pinned(deps, version).listed() == deps.listed(),
        discovered(pinned(deps, version), current) == discovered(deps, current),
{
    if let Node::Table { inline, keys, fields } = deps {
        let after = pinned(deps, version);
        let shown = |k: Seq<char>| fields.contains_key(k) && !(fields[k] is Absent);
        let shown_after = |k: Seq<char>|
            after->fields.contains_key(k) && !(after->fields[k] is Absent);
        assert forall|k: Seq<char>| #[trigger] shown(k) == shown_after(k) by {
            if fields.contains_key(k) {
                lemma_pinned_entry(fields[k], version);
            }
        }
        assert(shown =~= shown_after);
        let get = reference_of(deps, current);
        let get_after = reference_of(after, current);
        assert forall|k: Seq<char>| #[trigger] get(k) == get_after(k) by {
            lemma_pinned_entry(deps.child(k), version);
        }
        assert(get =~= get_after);
    }
}

/// A second run finds the references that the first run found.
pub proof fn lemma_rewrite_keeps_references(root: Node, version: Seq<char>, current: Seq<char>)
    ensures
        references(rewritten(root, version), current) == references(root, current),
{
    lemma_keys_differ();
    lemma_manifest_entries(root, version, dependencies_key());
    lemma_manifest_entries(root, version, dev_dependencies_key());
    lemma_manifest_entries(root, version, workspace_key());
    lemma_workspace_entries(root.child(workspace_key()), version, dependencies_key());
    lemma_pinned_keeps_references(root.child(dependencies_key()), version, current);
    lemma_pinned_keeps_references(root.child(dev_dependencies_key()), version, current);
    lemma_pinned_keeps_references(
        root.child(workspace_key()).child(dependencies_key()),
        version,
        current,
    );
}

} // verus!
