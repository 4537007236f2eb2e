use mtg_spoilers::cache::empty::Empty;
use mtg_spoilers::cache::file::File;
use mtg_spoilers::cache::Cache;
use mtg_spoilers::Error;
use mtg_spoilers::Spoiler;

fn spoiler(image: &str) -> Spoiler {
    Spoiler {
        name: None,
        source_site_url: String::from("http://mythicspoiler.com//x.html"),
        image: String::from(image),
        source: None,
    }
}

fn temp_path(dir: &tempfile::TempDir, name: &str) -> String {
    dir.path().join(name).to_str().unwrap().to_string()
}

#[test]
fn dedup_reports_key_new_once() {
    let dir = tempfile::tempdir().unwrap();
    let mut store = File::new(temp_path(&dir, "snap")).unwrap();
    let card = spoiler("http://mythicspoiler.com//a.jpg");
    assert!(store.is_new(&card));
    assert!(!store.is_new(&card));
    assert!(!store.is_new(&card));
}

#[test]
fn load_missing_is_empty() {
    let dir = tempfile::tempdir().unwrap();
    let mut store = File::new(temp_path(&dir, "no-such-file")).unwrap();
    assert!(store.is_new(&spoiler("k1")));
    assert!(store.is_new(&spoiler("k2")));
}

#[test]
fn reload_reproduces_set() {
    let dir = tempfile::tempdir().unwrap();
    let path = temp_path(&dir, "snap");
    let mut store = File::new(path.clone()).unwrap();
    assert!(store.is_new(&spoiler("http://a/1.jpg")));
    assert!(store.is_new(&spoiler("http://a/2.jpg")));
    assert!(store.is_new(&spoiler("http://a/3.jpg")));
    store.persist().unwrap();

    let mut reloaded = File::new(path).unwrap();
    assert!(!reloaded.is_new(&spoiler("http://a/2.jpg")));
    assert!(!reloaded.is_new(&spoiler("http://a/1.jpg")));
    assert!(!reloaded.is_new(&spoiler("http://a/3.jpg")));
    assert!(reloaded.is_new(&spoiler("http://a/4.jpg")));
}

#[test]
fn persist_fallback_writes_full_set() {
    let dir = tempfile::tempdir().unwrap();
    let path = temp_path(&dir, "snap");
    let mut store = File::new(path.clone()).unwrap();
    assert!(store.is_new(&spoiler("http://a/1.jpg")));
    assert!(store.is_new(&spoiler("http://a/2.jpg")));
    store.persist_fallback().unwrap();

    let mut reloaded = File::new(path).unwrap();
    assert!(!reloaded.is_new(&spoiler("http://a/1.jpg")));
    assert!(!reloaded.is_new(&spoiler("http://a/2.jpg")));
    assert!(reloaded.is_new(&spoiler("http://a/3.jpg")));
}

#[test]
fn persist_replaces_previous_snapshot() {
    let dir = tempfile::tempdir().unwrap();
    let path = temp_path(&dir, "snap");
    let mut store = File::new(path.clone()).unwrap();
    assert!(store.is_new(&spoiler("http://a/1.jpg")));
    store.persist().unwrap();

    let mut second = File::new(path.clone()).unwrap();
    assert!(!second.is_new(&spoiler("http://a/1.jpg")));
    assert!(second.is_new(&spoiler("http://a/2.jpg")));
    second.persist().unwrap();

    let mut third = File::new(path).unwrap();
    assert!(!third.is_new(&spoiler("http://a/1.jpg")));
    assert!(!third.is_new(&spoiler("http://a/2.jpg")));
}

#[test]
fn unreadable_snapshot_is_io_error() {
    let dir = tempfile::tempdir().unwrap();
    // The path names a directory, so reading it as a file must fail
    // without being a missing-file case.
    let path = dir.path().to_str().unwrap().to_string();
    match File::new(path) {
        Err(Error::Io(_)) => {}
        Err(other) => panic!("expected an Io error, got {other:?}"),
        Ok(_) => panic!("expected an Io error, got a store"),
    }
}

#[test]
fn persist_without_writable_location_is_io_error() {
    let dir = tempfile::tempdir().unwrap();
    let path = dir
        .path()
        .join("missing-subdir")
        .join("snap")
        .to_str()
        .unwrap()
        .to_string();
    let mut store = File::new(path).unwrap();
    assert!(store.is_new(&spoiler("http://a/1.jpg")));
    match store.persist() {
        Err(Error::Io(_)) => {}
        other => panic!("expected an Io error, got {other:?}"),
    }
}

#[test]
fn snapshot_text_is_one_key_per_line() {
    let store = File::from_snapshot_text(String::from("unused"), Some("a b\nc"));
    assert_eq!(store.snapshot_text(), "a\nb\nc\n");
}

#[test]
fn snapshot_text_of_empty_store_is_empty() {
    let store = File::from_snapshot_text(String::from("unused"), None);
    assert_eq!(store.snapshot_text(), "");
}

#[test]
fn snapshot_tokens_are_deduplicated() {
    let store = File::from_snapshot_text(String::from("unused"), Some("x x\nx"));
    assert_eq!(store.snapshot_text(), "x\n");
}

#[test]
fn empty_cache_treats_everything_as_new() {
    let mut store = Empty;
    let card = spoiler("http://a/1.jpg");
    assert!(store.is_new(&card));
    assert!(store.is_new(&card));
    assert!(Empty.persist().is_ok());
}
