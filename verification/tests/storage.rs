use kafka_sync::calendar::WindowStart;
use kafka_sync::config::StorageProvider;
use kafka_sync::error::StorageError;
use kafka_sync::object_key::object_key;
use kafka_sync::storage::filesystem::{
    safe_join, FileSystemStore, PathStyle, PutAction, PutStage,
};
use kafka_sync::storage::gcs::GcsStore;
use kafka_sync::storage::put_outcome;
use kafka_sync::storage::s3::S3Store;
use std::collections::BTreeMap;
use std::path::{Component, Path};

fn store() -> FileSystemStore {
    match FileSystemStore::connect(PathStyle::Unix, "/root", Ok(())) {
        Ok(store) => store,
        Err(error) => panic!("{error:?}"),
    }
}

#[test]
fn safe_join_accepts_the_real_window_key_shape() {
    let root = Path::new("/root");
    match safe_join(PathStyle::Unix, "/root", "2026/08/26/events/Par1-Off42.json") {
        Ok(joined) => {
            assert_eq!(Path::new(&joined), root.join("2026/08/26/events/Par1-Off42.json"));
        }
        Err(error) => panic!("{error:?}"),
    }
    match safe_join(PathStyle::Unix, "/root", "./events/x.json") {
        Ok(dot_prefixed) => assert_eq!(Path::new(&dot_prefixed), root.join("./events/x.json")),
        Err(error) => panic!("{error:?}"),
    }
}

#[test]
fn keys_are_judged_as_the_standard_library_judges_paths() {
    let keys = [
        "", "a", "a/b", "/", "/a", "..", "../a", "a/..", "a/../b", "...", "a/...", "..a", "a..",
        ".", "./a", "a/.", "a//b", "a/", "//", "a/..b/c", ".. ", "é/..", "a\\..\\b", "-1/..x/..",
    ];
    for root in ["/root", "/root/", "./logs", "", "/"] {
        for key in keys {
            let plain = Path::new(key)
                .components()
                .all(|c| matches!(c, Component::Normal(_) | Component::CurDir));
            match safe_join(PathStyle::Unix, root, key) {
                Ok(joined) => {
                    assert!(plain, "{key:?}");
                    let expected = Path::new(root).join(key);
                    assert_eq!(joined.as_str(), expected.to_string_lossy());
                }
                Err(StorageError::InvalidKey { key: refused }) => {
                    assert!(!plain, "{key:?}");
                    assert_eq!(refused, key);
                }
                Err(other) => panic!("{other:?}"),
            }
        }
    }
}

#[test]
fn window_keys_are_safe_for_plain_topics() {
    let day = WindowStart { year: 2026, month: 8, day: 26 };
    let offsets = BTreeMap::from([(1, 42)]);
    for topic in ["events", "a.b", "...", "a/b", "x..y", "."] {
        assert!(safe_join(PathStyle::Unix, "/root", &object_key(topic, &day, &offsets)).is_ok(), "{topic:?}");
    }
    for topic in ["..", "../x", "a/../b", "a/.."] {
        assert!(safe_join(PathStyle::Unix, "/root", &object_key(topic, &day, &offsets)).is_err(), "{topic:?}");
    }
}

#[test]
fn a_put_publishes_last() {
    let store = store();
    let (plan, mut stage) = match store.put_object("a/b/c.json", 4711) {
        Ok(plan) => plan,
        Err(error) => panic!("{error:?}"),
    };
    assert_eq!(plan.final_path, "/root/a/b/c.json");
    assert_eq!(plan.temp_path, "/root/a/b/c.json.4711.tmp");
    assert_eq!(Path::new(&plan.temp_path).parent(), Path::new(&plan.final_path).parent());
    let mut performed = vec![stage];
    loop {
        match store.advance_put("a/b/c.json", 7, stage, Ok(())) {
            PutAction::Perform(next) => {
                performed.push(next);
                stage = next;
            }
            PutAction::Finish(outcome) => {
                assert!(outcome.is_ok());
                break;
            }
        }
    }
    assert_eq!(
        performed,
        vec![PutStage::MakeParents, PutStage::CreateTemp, PutStage::WriteTemp, PutStage::Publish]
    );
}

#[test]
fn a_put_stops_at_the_first_failure() {
    let store = store();
    for stage in
        [PutStage::MakeParents, PutStage::CreateTemp, PutStage::WriteTemp, PutStage::Publish]
    {
        match store.advance_put("k.json", 7, stage, Err("disk full".to_owned())) {
            PutAction::Finish(Err(StorageError::PutObject { location, key, size, source })) => {
                assert_eq!(location, "file:///root");
                assert_eq!(key, "k.json");
                assert_eq!(size, 7);
                assert_eq!(source, "disk full");
            }
            other => panic!("{other:?}"),
        }
    }
}

#[test]
fn temp_paths_of_other_puts_differ() {
    let store = store();
    let mut temps = Vec::new();
    for key in ["k", "k.1.tmp", "k.1", "j"] {
        for process in [1, 11, 2] {
            match store.put_object(key, process) {
                Ok((plan, _)) => {
                    assert_ne!(plan.temp_path, plan.final_path);
                    temps.push(plan.temp_path);
                }
                Err(error) => panic!("{error:?}"),
            }
        }
    }
    let all = temps.len();
    temps.sort();
    temps.dedup();
    assert_eq!(temps.len(), all);
}

#[test]
fn a_backend_that_cannot_start_says_so() {
    assert!(matches!(
        FileSystemStore::connect(PathStyle::Unix, "/root", Err("read-only".to_owned())),
        Err(StorageError::Init { provider: "FileSystem", source }) if source == "read-only"
    ));
    assert!(matches!(
        GcsStore::connect("b", Err("no key".to_owned())),
        Err(StorageError::Init { provider: "GCS", source }) if source == "no key"
    ));
    match GcsStore::connect("b", Ok(())) {
        Ok(gcs) => {
            assert_eq!(gcs.bucket, "b");
            assert_eq!(gcs.location, "gs://b");
        }
        Err(error) => panic!("{error:?}"),
    }
}

#[test]
fn s3_keys_land_under_the_prefix_once() {
    for path in ["kafka/archive", "/kafka/archive/", "//kafka/archive"] {
        let s3 = S3Store::connect("bucket".to_owned(), path);
        assert_eq!(s3.prefix, "kafka/archive");
        assert_eq!(s3.location, "s3://bucket/kafka/archive");
        assert_eq!(s3.full_key("2026/k.json"), "kafka/archive/2026/k.json");
        match s3.put_object("2026/k.json", 3, Err("denied".to_owned())) {
            Err(StorageError::PutObject { location, key, size, source }) => {
                assert_eq!(
                    format!("{location}/{key}"),
                    format!("s3://bucket/{}", s3.full_key("2026/k.json"))
                );
                assert_eq!(size, 3);
                assert_eq!(source, "denied");
            }
            other => panic!("{other:?}"),
        }
        assert!(s3.put_object("k", 3, Ok(())).is_ok());
    }
}

#[test]
fn configuration_and_store_agree_on_the_location() {
    let provider = StorageProvider::Aws {
        bucket: "b".to_owned(),
        path: "p/q".to_owned(),
        region: "r".to_owned(),
    };
    assert_eq!(S3Store::connect("b".to_owned(), "p/q").location, provider.location());
    let provider = StorageProvider::FileSystem { root: "/root".to_owned() };
    assert_eq!(store().location, provider.location());
}

#[test]
fn upload_errors_name_the_object() {
    assert!(put_outcome("gs://b", "k", 1, Ok(())).is_ok());
    assert!(matches!(
        put_outcome("gs://b", "k", 1, Err("timeout".to_owned())),
        Err(StorageError::PutObject { location, key, size: 1, source })
            if location == "gs://b" && key == "k" && source == "timeout"
    ));
    match GcsStore::connect("b", Ok(())) {
        Ok(gcs) => assert!(matches!(
            gcs.put_object("k", 9, Err("timeout".to_owned())),
            Err(StorageError::PutObject { location, size: 9, .. }) if location == "gs://b"
        )),
        Err(error) => panic!("{error:?}"),
    }
}

#[test]
fn windows_keys_may_not_escape_either() {
    let refused = [
        "/a", r"\a", r"\\server\share", r"\\?\C:\a", "C:", "C:a", "c:/a", r"Z:\a", "a:b", "..",
        r"a\..\b", r"..\a", "a/../b", r"a\..", r"a/..\b", r"a\b/..",
    ];
    for key in refused {
        assert!(
            matches!(
                safe_join(PathStyle::Windows, r"C:\logs", key),
                Err(StorageError::InvalidKey { key: k }) if k == key
            ),
            "{key:?}"
        );
    }
    // The same text is a plain name where `\` and `:` mean nothing.
    assert!(matches!(
        safe_join(PathStyle::Unix, "/logs", r"a\..\b"),
        Ok(path) if path == r"/logs/a\..\b"
    ));
    assert!(matches!(safe_join(PathStyle::Unix, "/logs", "C:a"), Ok(path) if path == "/logs/C:a"));
}

#[test]
fn windows_paths_are_joined_with_a_backslash() {
    let joined = [
        (r"C:\logs", "2026/08/26/t/k.json", r"C:\logs\2026/08/26/t/k.json"),
        (r"C:\logs\", "k", r"C:\logs\k"),
        ("C:/logs/", "k", "C:/logs/k"),
        ("./logs", r"a\b", r"./logs\a\b"),
        ("C:", "k", "C:k"),
        ("C:x", "k", r"C:x\k"),
        ("1:", "k", r"1:\k"),
        ("", "k", "k"),
        (r"\\server\share", "k", r"\\server\share\k"),
        (r"\\?\C:\logs", "2026/08/./t//k.json", r"\\?\C:\logs\2026\08\t\k.json"),
        (r"\\?\C:\", "a/b", r"\\?\C:\a\b"),
        (r"\\?\C:\logs\", r"a\.b\..c", r"\\?\C:\logs\a\.b\..c"),
        (r"\\?\C:\logs", "", r"\\?\C:\logs\"),
        (r"C:\logs", "1:2", r"C:\logs\1:2"),
        (r"C:\logs", "...", r"C:\logs\..."),
    ];
    for (root, key, expected) in joined {
        match safe_join(PathStyle::Windows, root, key) {
            Ok(path) => assert_eq!(path, expected),
            Err(error) => panic!("{root:?} {key:?}: {error:?}"),
        }
    }
}

#[test]
fn window_keys_are_safe_on_windows_for_plain_topics() {
    let day = WindowStart { year: 2026, month: 8, day: 26 };
    let offsets = BTreeMap::from([(1, 42)]);
    for topic in ["events", "a.b", "x..y", "C:"] {
        let key = object_key(topic, &day, &offsets);
        assert!(safe_join(PathStyle::Windows, r"C:\logs", &key).is_ok(), "{topic:?}");
    }
    for topic in ["..", r"a\..\b", r"..\x"] {
        let key = object_key(topic, &day, &offsets);
        assert!(safe_join(PathStyle::Windows, r"C:\logs", &key).is_err(), "{topic:?}");
    }
}
