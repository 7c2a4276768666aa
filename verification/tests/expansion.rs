use static_site_ppx::model::{FileStore, PpxError, StaticSiteAsset, StaticSiteFile};
use static_site_ppx::parser::PPXDirective;

fn binding(file: &str, style: Option<&str>, script: Option<&str>) -> StaticSiteFile {
    StaticSiteFile {
        file: file.to_string(),
        style: style.map(|s| s.to_string()),
        script: script.map(|s| s.to_string()),
    }
}

fn asset(name: &str, path: &str) -> StaticSiteAsset {
    StaticSiteAsset {
        name: name.to_string(),
        file: binding(path, None, None),
    }
}

fn store_of(entries: &[(&str, &str)]) -> FileStore {
    let mut store = FileStore::new();
    for (path, contents) in entries {
        store.add(path.to_string(), contents.to_string());
    }
    store
}

#[test]
fn directive_free_content_is_unchanged() {
    let f = binding("f", None, None);
    let assets: Vec<StaticSiteAsset> = Vec::new();
    let store = store_of(&[("f", "line one\nline two\n<!-- a comment -->\nlast")]);
    let out = f.preprocess(&assets, &store).unwrap();
    assert_eq!(out, "line one\nline two\n<!-- a comment -->\nlast");
}

#[test]
fn single_import_with_prefix_and_suffix() {
    let f = binding("f", None, None);
    let assets = vec![asset("foo", "p")];
    let store = store_of(&[("f", "A <!-- @@STATICIMPORT foo --> B"), ("p", "X")]);
    let out = f.preprocess(&assets, &store).unwrap();
    assert_eq!(out, "A<!-- foo - p -->\nX\n<!-- END foo - p -->\nB");
}

#[test]
fn import_alone_on_line() {
    let f = binding("f", None, None);
    let assets = vec![asset("foo", "p")];
    let store = store_of(&[("f", "<!-- @@STATICIMPORT foo -->"), ("p", "X")]);
    let out = f.preprocess(&assets, &store).unwrap();
    assert_eq!(out, "<!-- foo - p -->\nX\n<!-- END foo - p -->");
}

#[test]
fn duplicate_asset_names_resolve_to_last_registration() {
    let f = binding("f", None, None);
    let assets = vec![asset("foo", "p1"), asset("foo", "p2")];
    let store = store_of(&[
        ("f", "<!-- @@STATICIMPORT foo -->"),
        ("p1", "ONE"),
        ("p2", "TWO"),
    ]);
    let out = f.preprocess(&assets, &store).unwrap();
    assert_eq!(out, "<!-- foo - p2 -->\nTWO\n<!-- END foo - p2 -->");
}

#[test]
fn get_asset_prefers_last_entry() {
    let assets = vec![asset("foo", "p1"), asset("foo", "p2")];
    let path = PPXDirective::get_asset("foo".to_string(), &assets).unwrap();
    assert_eq!(path, "p2");
}

#[test]
fn get_asset_unknown_name_fails() {
    let assets = vec![asset("foo", "p")];
    let err = PPXDirective::get_asset("bar".to_string(), &assets).unwrap_err();
    assert!(matches!(err, PpxError::UnknownAsset(n) if n == "bar"));
}

#[test]
fn nested_asset_expands_over_two_passes() {
    let f = binding("f", None, None);
    let assets = vec![asset("inner", "pi"), asset("outer", "po")];
    let store = store_of(&[
        ("f", "<!-- @@STATICIMPORT outer -->"),
        ("po", "<!-- @@STATICIMPORT inner -->"),
        ("pi", "Y"),
    ]);
    let out = f.preprocess(&assets, &store).unwrap();
    assert_eq!(
        out,
        "<!-- outer - po -->\n<!-- inner - pi -->\nY\n<!-- END inner - pi -->\n\n<!-- END outer - po -->"
    );
}

#[test]
fn rerunning_expansion_on_stable_output_is_a_no_op() {
    let f = binding("f", None, None);
    let assets = vec![asset("inner", "pi"), asset("outer", "po")];
    let store = store_of(&[
        ("f", "<!-- @@STATICIMPORT outer -->"),
        ("po", "text <!-- @@STATICIMPORT inner --> more"),
        ("pi", "Y"),
    ]);
    let out = f.preprocess(&assets, &store).unwrap();
    let mut store2 = FileStore::new();
    store2.add("f".to_string(), out.clone());
    for (path, contents) in [("po", "irrelevant"), ("pi", "irrelevant")] {
        store2.add(path.to_string(), contents.to_string());
    }
    let again = f.preprocess(&assets, &store2).unwrap();
    assert_eq!(again, out);
}

#[test]
fn style_copy_wraps_in_style_tags() {
    let f = binding("f", Some("s.css"), None);
    let assets: Vec<StaticSiteAsset> = Vec::new();
    let store = store_of(&[("f", "<!-- @@STATICSTYLECOPY -->"), ("s.css", "body {}")]);
    let out = f.preprocess(&assets, &store).unwrap();
    assert_eq!(
        out,
        "<!-- s.css -->\n<style>\nbody {}\n</style>\n<!-- END s.css -->"
    );
}

#[test]
fn script_copy_wraps_in_script_tags() {
    let f = binding("f", None, Some("a.js"));
    let assets: Vec<StaticSiteAsset> = Vec::new();
    let store = store_of(&[("f", "<!-- @@STATICSCRIPTCOPY -->"), ("a.js", "let x = 1;")]);
    let out = f.preprocess(&assets, &store).unwrap();
    assert_eq!(
        out,
        "<!-- a.js -->\n<script>\nlet x = 1;\n</script>\n<!-- END a.js -->"
    );
}

#[test]
fn style_copy_without_binding_is_missing_binding() {
    let f = binding("f", None, None);
    let assets: Vec<StaticSiteAsset> = Vec::new();
    let store = store_of(&[("f", "<!-- @@STATICSTYLECOPY -->")]);
    let err = f.preprocess(&assets, &store).unwrap_err();
    assert!(matches!(err, PpxError::MissingBinding(p) if p == "f"));
}

#[test]
fn script_copy_without_binding_is_missing_binding() {
    let f = binding("f", None, None);
    let assets: Vec<StaticSiteAsset> = Vec::new();
    let store = store_of(&[("f", "<!-- @@STATICSCRIPTCOPY -->")]);
    let err = f.preprocess(&assets, &store).unwrap_err();
    assert!(matches!(err, PpxError::MissingBinding(p) if p == "f"));
}

#[test]
fn import_without_argument_is_missing_argument() {
    let f = binding("f", None, None);
    let assets = vec![asset("foo", "p")];
    let store = store_of(&[("f", "<!-- @@STATICIMPORT -->"), ("p", "X")]);
    let err = f.preprocess(&assets, &store).unwrap_err();
    assert!(matches!(err, PpxError::MissingArgument));
}

#[test]
fn import_of_unregistered_name_is_unknown_asset() {
    let f = binding("f", None, None);
    let assets = vec![asset("foo", "p")];
    let store = store_of(&[("f", "<!-- @@STATICIMPORT bar -->"), ("p", "X")]);
    let err = f.preprocess(&assets, &store).unwrap_err();
    assert!(matches!(err, PpxError::UnknownAsset(n) if n == "bar"));
}

#[test]
fn unknown_command_is_fatal() {
    let f = binding("f", None, None);
    let assets: Vec<StaticSiteAsset> = Vec::new();
    let store = store_of(&[("f", "<!-- @@NOPE -->")]);
    let err = f.preprocess(&assets, &store).unwrap_err();
    assert!(matches!(err, PpxError::UnknownCommand(c) if c == "NOPE"));
}

#[test]
fn unreadable_backing_file_is_fatal() {
    let f = binding("f", None, None);
    let assets: Vec<StaticSiteAsset> = Vec::new();
    let store = FileStore::new();
    let err = f.preprocess(&assets, &store).unwrap_err();
    assert!(matches!(err, PpxError::UnreadableFile(p) if p == "f"));
}

#[test]
fn unreadable_asset_file_is_fatal() {
    let f = binding("f", None, None);
    let assets = vec![asset("foo", "p")];
    let store = store_of(&[("f", "<!-- @@STATICIMPORT foo -->")]);
    let err = f.preprocess(&assets, &store).unwrap_err();
    assert!(matches!(err, PpxError::UnreadableFile(p) if p == "p"));
}

#[test]
fn unreadable_style_file_is_fatal() {
    let f = binding("f", Some("s.css"), None);
    let assets: Vec<StaticSiteAsset> = Vec::new();
    let store = store_of(&[("f", "<!-- @@STATICSTYLECOPY -->")]);
    let err = f.preprocess(&assets, &store).unwrap_err();
    assert!(matches!(err, PpxError::UnreadableFile(p) if p == "s.css"));
}

#[test]
fn self_importing_asset_exceeds_the_pass_limit() {
    let f = binding("f", None, None);
    let assets = vec![asset("a", "pa")];
    let store = store_of(&[
        ("f", "<!-- @@STATICIMPORT a -->"),
        ("pa", "<!-- @@STATICIMPORT a -->"),
    ]);
    let err = f.preprocess(&assets, &store).unwrap_err();
    assert!(matches!(err, PpxError::PassLimitExceeded));
}

#[test]
fn first_failing_directive_aborts_with_its_error() {
    let f = binding("f", None, None);
    let assets: Vec<StaticSiteAsset> = Vec::new();
    let store = store_of(&[("f", "<!-- @@STATICIMPORT --> \n<!-- @@NOPE -->")]);
    let err = f.preprocess(&assets, &store).unwrap_err();
    assert!(matches!(err, PpxError::MissingArgument));
}

#[test]
fn empty_prefix_and_suffix_are_preserved_as_empty() {
    let f = binding("f", None, None);
    let assets = vec![asset("foo", "p")];
    let store = store_of(&[("f", "pre<!-- @@STATICIMPORT foo -->"), ("p", "X")]);
    let out = f.preprocess(&assets, &store).unwrap();
    assert_eq!(out, "pre<!-- foo - p -->\nX\n<!-- END foo - p -->");
}
