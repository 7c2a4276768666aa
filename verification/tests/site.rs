use static_site_ppx::model::{FileStore, PpxError, StaticSiteAsset, StaticSiteFile, StaticSiteInfo};

fn binding(file: &str) -> StaticSiteFile {
    StaticSiteFile {
        file: file.to_string(),
        style: None,
        script: None,
    }
}

#[test]
fn preprocess_all_keeps_file_order_and_names() {
    let info = StaticSiteInfo {
        assets: vec![StaticSiteAsset {
            name: "foo".to_string(),
            file: binding("p"),
        }],
        files: vec![binding("one.html"), binding("two.html")],
    };
    let mut store = FileStore::new();
    store.add("one.html".to_string(), "hello".to_string());
    store.add(
        "two.html".to_string(),
        "<!-- @@STATICIMPORT foo -->".to_string(),
    );
    store.add("p".to_string(), "X".to_string());
    let out = info.preprocess_all(&store).unwrap();
    assert_eq!(out.len(), 2);
    assert_eq!(out[0].name, "one.html");
    assert_eq!(out[0].contents, "hello");
    assert_eq!(out[1].name, "two.html");
    assert_eq!(out[1].contents, "<!-- foo - p -->\nX\n<!-- END foo - p -->");
}

#[test]
fn preprocess_all_aborts_on_the_first_failing_file() {
    let info = StaticSiteInfo {
        assets: Vec::new(),
        files: vec![binding("good.html"), binding("bad.html"), binding("later.html")],
    };
    let mut store = FileStore::new();
    store.add("good.html".to_string(), "fine".to_string());
    store.add("bad.html".to_string(), "<!-- @@NOPE -->".to_string());
    store.add("later.html".to_string(), "never reached".to_string());
    let err = info.preprocess_all(&store).unwrap_err();
    assert!(matches!(err, PpxError::UnknownCommand(c) if c == "NOPE"));
}

#[test]
fn preprocess_all_of_no_files_is_empty() {
    let info = StaticSiteInfo {
        assets: Vec::new(),
        files: Vec::new(),
    };
    let store = FileStore::new();
    let out = info.preprocess_all(&store).unwrap();
    assert!(out.is_empty());
}

#[test]
fn store_read_prefers_first_entry() {
    let mut store = FileStore::new();
    store.add("p".to_string(), "first".to_string());
    store.add("p".to_string(), "second".to_string());
    assert_eq!(store.read_file("p").unwrap(), "first");
    assert!(store.read_file("missing").is_none());
}
