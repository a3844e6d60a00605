use toml_edit::{DocumentMut, Item};
use workspace_version::error::Error;
use workspace_version::rewrite::{modify_dependency, modify_package, rewrite, rewrite_manifest};

fn parse(text: &str) -> DocumentMut {
    text.parse::<DocumentMut>().unwrap()
}

fn text_at<'a>(doc: &'a DocumentMut, keys: &[&str]) -> Option<&'a str> {
    let mut item: &Item = doc.as_item();
    for key in keys {
        item = item.get(*key)?;
    }
    item.as_str()
}

const ROOT: &str = "[package]\nname = \"root\"\nversion = \"0.1.0\"\n\n[dependencies]\nfoo = { path = \"libs/foo\" }\n";

const FOO: &str = "[package]\nname = \"foo\"\nversion = \"0.1.0\"\n";

#[test]
fn root_and_dependency_get_the_version() {
    let root = rewrite_manifest(ROOT, "2.0.0", "/ws/Cargo.toml").unwrap();
    let doc = parse(&root.text);
    assert_eq!(text_at(&doc, &["package", "version"]), Some("2.0.0"));
    assert_eq!(text_at(&doc, &["dependencies", "foo", "version"]), Some("2.0.0"));
    assert_eq!(text_at(&doc, &["dependencies", "foo", "path"]), Some("libs/foo"));
    assert_eq!(root.references, vec!["/ws/libs/foo".to_string()]);

    let foo = rewrite_manifest(FOO, "2.0.0", "/ws/libs/foo/Cargo.toml").unwrap();
    let doc = parse(&foo.text);
    assert_eq!(text_at(&doc, &["package", "version"]), Some("2.0.0"));
    assert!(foo.references.is_empty());
}

#[test]
fn second_run_changes_no_byte() {
    let once = rewrite_manifest(ROOT, "2.0.0", "/ws/Cargo.toml").unwrap();
    let twice = rewrite_manifest(&once.text, "2.0.0", "/ws/Cargo.toml").unwrap();
    assert_eq!(twice.text, once.text);
    assert_eq!(twice.references, once.references);
    assert_eq!(twice.text.matches("version").count(), 2);
}

#[test]
fn untouched_text_is_kept() {
    let text = "# the root manifest\n[package]\nname = \"root\" # its name\nversion = \"0.1.0\"\nedition = \"2021\"\n\n[features]\ndefault = []\n\n[dependencies]\n# a registry dependency\nserde = \"1\"\n\n[profile.release]\nlto = true\n";
    let out = rewrite_manifest(text, "0.2.0", "Cargo.toml").unwrap();
    assert_eq!(out.text, text.replace("version = \"0.1.0\"", "version = \"0.2.0\""));
    assert!(out.references.is_empty());
}

#[test]
fn manifest_without_anything_to_rewrite_is_unchanged() {
    let text = "[features]\ndefault = []\n";
    let out = rewrite_manifest(text, "1.0.0", "Cargo.toml").unwrap();
    assert_eq!(out.text, text);
    assert!(out.references.is_empty());
    let out = rewrite_manifest("", "1.0.0", "Cargo.toml").unwrap();
    assert_eq!(out.text, "");
    let text = "[dependencies]\n";
    let out = rewrite_manifest(text, "1.0.0", "Cargo.toml").unwrap();
    assert_eq!(out.text, text);
}

#[test]
fn dependency_with_a_version_is_not_overwritten() {
    let text = "[dependencies]\nfoo = { path = \"libs/foo\", version = \"0.3.0\" }\nbar = { version = \"1.2\" }\n";
    let out = rewrite_manifest(text, "2.0.0", "/ws/Cargo.toml").unwrap();
    assert_eq!(out.text, text);
    assert_eq!(out.references, vec!["/ws/libs/foo".to_string()]);
}

#[test]
fn bare_version_dependency_is_untouched() {
    let text = "[dependencies]\nserde = \"1\"\n\n[dev-dependencies]\nrand = \"0.8\"\n";
    let out = rewrite_manifest(text, "2.0.0", "/ws/Cargo.toml").unwrap();
    assert_eq!(out.text, text);
    assert!(out.references.is_empty());
}

#[test]
fn inherited_package_version_is_not_overwritten() {
    let text = "[package]\nname = \"member\"\nversion = { workspace = true }\n";
    let out = rewrite_manifest(text, "2.0.0", "/ws/member/Cargo.toml").unwrap();
    assert_eq!(out.text, text);
    let text = "[package]\nname = \"member\"\nversion.workspace = true\n";
    let out = rewrite_manifest(text, "2.0.0", "/ws/member/Cargo.toml").unwrap();
    assert_eq!(out.text, text);
}

#[test]
fn package_without_version_gets_none() {
    let text = "[package]\nname = \"root\"\n\n[workspace]\nmembers = [\"a\"]\n";
    let out = rewrite_manifest(text, "2.0.0", "/ws/Cargo.toml").unwrap();
    assert_eq!(out.text, text);
}

#[test]
fn workspace_tables_are_rewritten() {
    let text = "[workspace]\nmembers = [\"a\", \"b\"]\n\n[workspace.package]\nversion = \"0.1.0\"\n\n[workspace.dependencies]\na = { path = \"a\" }\nb = { path = \"b\", version = \"0.1.0\" }\nserde = \"1\"\n";
    let out = rewrite_manifest(text, "0.2.0", "/ws/Cargo.toml").unwrap();
    let doc = parse(&out.text);
    assert_eq!(text_at(&doc, &["workspace", "package", "version"]), Some("0.2.0"));
    assert_eq!(text_at(&doc, &["workspace", "dependencies", "a", "version"]), Some("0.2.0"));
    assert_eq!(text_at(&doc, &["workspace", "dependencies", "b", "version"]), Some("0.1.0"));
    assert_eq!(text_at(&doc, &["workspace", "dependencies", "serde"]), Some("1"));
    assert_eq!(out.references, vec!["/ws/a".to_string(), "/ws/b".to_string()]);
}

#[test]
fn references_come_in_the_order_of_the_tables() {
    let text = "[workspace.dependencies]\nw = { path = \"w\" }\n\n[dev-dependencies]\nd = { path = \"d\" }\n\n[dependencies]\nz = { path = \"z\" }\na = { path = \"../a\" }\n";
    let out = rewrite_manifest(text, "1.0.0", "/ws/m/Cargo.toml").unwrap();
    assert_eq!(
        out.references,
        vec![
            "/ws/m/z".to_string(),
            "/ws/m/../a".to_string(),
            "/ws/m/d".to_string(),
            "/ws/m/w".to_string(),
        ]
    );
}

#[test]
fn dependency_written_as_a_table_gets_the_version() {
    let text = "[dependencies.foo]\npath = \"libs/foo\"\nfeatures = [\"x\"]\n";
    let out = rewrite_manifest(text, "2.0.0", "/ws/Cargo.toml").unwrap();
    assert_eq!(
        out.text,
        "[dependencies.foo]\npath = \"libs/foo\"\nfeatures = [\"x\"]\nversion = \"2.0.0\"\n"
    );
    assert_eq!(out.references, vec!["/ws/libs/foo".to_string()]);
}

#[test]
fn path_that_is_no_string_is_no_reference() {
    let text = "[dependencies]\nfoo = { path = 3, version = \"1\" }\n";
    let out = rewrite_manifest(text, "2.0.0", "/ws/Cargo.toml").unwrap();
    assert_eq!(out.text, text);
    assert!(out.references.is_empty());
}

#[test]
fn path_outside_the_workspace_is_followed() {
    let text = "[dependencies]\nfoo = { path = \"/opt/foo\", version = \"1\" }\nbar = { path = \"../../bar\", version = \"1\" }\n";
    let out = rewrite_manifest(text, "2.0.0", "/ws/Cargo.toml").unwrap();
    assert_eq!(out.references, vec!["/opt/foo".to_string(), "/ws/../../bar".to_string()]);
}

#[test]
fn tables_of_the_wrong_shape_are_skipped() {
    let text = "dependencies = 3\npackage = \"p\"\nworkspace = [1]\n";
    let out = rewrite_manifest(text, "2.0.0", "/ws/Cargo.toml").unwrap();
    assert_eq!(out.text, text);
    assert!(out.references.is_empty());
}

#[test]
fn text_that_is_no_document_is_a_parse_error() {
    let res = rewrite_manifest("[package\nversion = 1", "2.0.0", "/ws/Cargo.toml");
    match res {
        Err(Error::Parse { path, message }) => {
            assert_eq!(path, "/ws/Cargo.toml");
            assert!(!message.is_empty());
        }
        other => panic!("expected a parse error, got {:?}", other),
    }
}

#[test]
fn rewrite_edits_the_document_in_place() {
    let mut doc = parse(ROOT);
    let found = rewrite(&mut doc, "2.0.0", "Cargo.toml");
    assert_eq!(found, vec!["libs/foo".to_string()]);
    assert_eq!(text_at(&doc, &["package", "version"]), Some("2.0.0"));
    assert_eq!(text_at(&doc, &["package", "name"]), Some("root"));
    assert_eq!(text_at(&doc, &["dependencies", "foo", "version"]), Some("2.0.0"));
}

#[test]
fn modify_dependency_pins_and_collects() {
    let mut doc = parse("[dependencies]\na = { path = \"a\" }\nb = \"1\"\nc = { version = \"3\" }\nd = { git = \"x\" }\n");
    let mut found = vec!["before".to_string()];
    let deps = doc.as_item_mut().get_mut("dependencies").unwrap();
    modify_dependency("9.9.9", deps, "/ws/Cargo.toml", &mut found);
    assert_eq!(found, vec!["before".to_string(), "/ws/a".to_string()]);
    assert_eq!(text_at(&doc, &["dependencies", "a", "version"]), Some("9.9.9"));
    assert_eq!(text_at(&doc, &["dependencies", "b"]), Some("1"));
    assert_eq!(text_at(&doc, &["dependencies", "c", "version"]), Some("3"));
    assert_eq!(text_at(&doc, &["dependencies", "d", "version"]), Some("9.9.9"));
    assert_eq!(text_at(&doc, &["dependencies", "d", "path"]), None);
}

#[test]
fn modify_dependency_leaves_what_is_no_table() {
    let mut doc = parse("dependencies = \"none\"\n");
    let mut found = Vec::new();
    let deps = doc.as_item_mut().get_mut("dependencies").unwrap();
    modify_dependency("1.0.0", deps, "/ws/Cargo.toml", &mut found);
    assert!(found.is_empty());
    assert_eq!(doc.to_string(), "dependencies = \"none\"\n");
}

#[test]
fn modify_package_replaces_only_an_own_version() {
    let mut doc = parse("[package]\nversion = \"0.1.0\"\nname = \"p\"\n");
    let package = doc.as_item_mut().get_mut("package").unwrap();
    modify_package("0.2.0", package);
    assert_eq!(doc.to_string(), "[package]\nversion = \"0.2.0\"\nname = \"p\"\n");

    let mut doc = parse("[package]\nname = \"p\"\n");
    let package = doc.as_item_mut().get_mut("package").unwrap();
    modify_package("0.2.0", package);
    assert_eq!(doc.to_string(), "[package]\nname = \"p\"\n");

    let mut doc = parse("[package]\nversion = { workspace = true }\n");
    let package = doc.as_item_mut().get_mut("package").unwrap();
    modify_package("0.2.0", package);
    assert_eq!(doc.to_string(), "[package]\nversion = { workspace = true }\n");
}

#[test]
fn version_that_is_no_string_is_replaced() {
    let mut doc = parse("[package]\nversion = 3\n");
    let package = doc.as_item_mut().get_mut("package").unwrap();
    modify_package("0.2.0", package);
    assert_eq!(text_at(&doc, &["package", "version"]), Some("0.2.0"));
}
