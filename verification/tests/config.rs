use kafka_sync::config::{
    config_file_path, layer_u64, layer_usize, load_config_file, optional, parse_storage_provider,
    pick, reads_dotenv, required, required_list, run_environment, AwsSettings, Config,
    FileRead, FileSettings, FileSystemSettings, GcsSettings, KafkaSettings, ProviderTag,
    StorageProvider, StorageSettings,
};
use kafka_sync::error::ConfigError;

fn env_of(pairs: &[(&str, &str)]) -> impl Fn(&str) -> Option<String> {
    let owned: Vec<(String, String)> =
        pairs.iter().map(|(k, v)| ((*k).to_owned(), (*v).to_owned())).collect();
    move |name: &str| owned.iter().find(|(k, _)| k == name).map(|(_, v)| v.clone())
}

fn some(text: &str) -> Option<String> {
    Some(text.to_owned())
}

fn accepted(pairs: &[(&str, &str)], file: &FileSettings) -> Config {
    match Config::from_layered(&env_of(pairs), file) {
        Ok(config) => config,
        Err(error) => panic!("refused: {error:?}"),
    }
}

fn refused(pairs: &[(&str, &str)], file: &FileSettings) -> ConfigError {
    match Config::from_layered(&env_of(pairs), file) {
        Ok(config) => panic!("accepted: {config:?}"),
        Err(error) => error,
    }
}

fn is_missing(error: &ConfigError, wanted: &str) -> bool {
    matches!(error, ConfigError::Missing { name } if *name == wanted)
}

fn is_invalid(error: &ConfigError, wanted: &str, text: &str, why: &str) -> bool {
    matches!(error, ConfigError::InvalidValue { name, value, reason }
        if *name == wanted && value == text && *reason == why)
}

const BASE: [(&str, &str); 2] = [("KAFKA_BROKERS", "b1:9092, b2:9092"), ("KAFKA_TOPICS", "a,b")];

fn with(pairs: &[(&'static str, &'static str)]) -> Vec<(&'static str, &'static str)> {
    let mut all = BASE.to_vec();
    all.extend_from_slice(pairs);
    all
}

#[test]
fn brokers_and_topics_alone_archive_to_local_files() {
    let config = accepted(&BASE, &FileSettings::default());
    assert_eq!(
        config,
        Config {
            run_env: "development".to_owned(),
            kafka_brokers: vec!["b1:9092".to_owned(), "b2:9092".to_owned()],
            kafka_topics: vec!["a".to_owned(), "b".to_owned()],
            kafka_consumer_group: "kafka-sync".to_owned(),
            sync_duration_secs: 10,
            max_window_bytes: 268_435_456,
            storage: StorageProvider::FileSystem { root: "./logs".to_owned() },
        }
    );
    assert_eq!(config.storage, StorageProvider::default());
}

#[test]
fn brokers_and_topics_are_required() {
    let none = FileSettings::default();
    assert!(is_missing(&refused(&[], &none), "KAFKA_BROKERS"));
    assert!(is_missing(&refused(&[("KAFKA_BROKERS", "b")], &none), "KAFKA_TOPICS"));
    let blank = [("KAFKA_BROKERS", " , "), ("KAFKA_TOPICS", "t")];
    assert!(is_missing(&refused(&blank, &none), "KAFKA_BROKERS"));
    let blank = [("KAFKA_BROKERS", "b"), ("KAFKA_TOPICS", "   ")];
    assert!(is_missing(&refused(&blank, &none), "KAFKA_TOPICS"));
}

fn file() -> FileSettings {
    FileSettings {
        kafka: KafkaSettings {
            brokers: some("file:1"),
            topics: some("x, y"),
            consumer_group: some("g"),
            sync_duration_secs: Some(60),
            max_window_bytes: Some(1024),
        },
        storage: StorageSettings::default(),
    }
}

#[test]
fn the_file_fills_in_what_the_environment_leaves_open() {
    let config = accepted(&[], &file());
    assert_eq!(config.kafka_brokers, vec!["file:1"]);
    assert_eq!(config.kafka_topics, vec!["x", "y"]);
    assert_eq!(config.kafka_consumer_group, "g");
    assert_eq!(config.sync_duration_secs, 60);
    assert_eq!(config.max_window_bytes, 1024);
}

#[test]
fn the_environment_wins_over_the_file() {
    let env = [
        ("RUN_ENV", " production "),
        ("KAFKA_BROKERS", "env:1"),
        ("KAFKA_TOPICS", "t"),
        ("KAFKA_CONSUMER_GROUP", " h "),
        ("SYNC_DURATION", "5"),
        ("KAFKA_MAX_WINDOW_BYTES", " 77 "),
        ("STORAGE_ROOT", "/data"),
    ];
    let mut settings = file();
    settings.storage.filesystem.path = some("/file");
    let config = accepted(&env, &settings);
    assert_eq!(config.run_env, "production");
    assert_eq!(config.kafka_brokers, vec!["env:1"]);
    assert_eq!(config.kafka_topics, vec!["t"]);
    assert_eq!(config.kafka_consumer_group, "h");
    assert_eq!(config.sync_duration_secs, 5);
    assert_eq!(config.max_window_bytes, 77);
    assert_eq!(config.storage, StorageProvider::FileSystem { root: "/data".to_owned() });
}

#[test]
fn blank_counts_as_unset_in_both_layers() {
    let env = [
        ("KAFKA_BROKERS", ""),
        ("KAFKA_TOPICS", "  "),
        ("KAFKA_CONSUMER_GROUP", "\t"),
        ("SYNC_DURATION", " "),
        ("KAFKA_MAX_WINDOW_BYTES", ""),
        ("RUN_ENV", " "),
        ("OBJECT_STORAGE", ""),
    ];
    assert_eq!(accepted(&env, &file()), accepted(&[], &file()));
    let mut blank = file();
    blank.kafka.consumer_group = some("  ");
    blank.storage.provider = some("");
    blank.storage.filesystem.path = some(" ");
    let mut absent = file();
    absent.kafka.consumer_group = None;
    assert_eq!(accepted(&[], &blank), accepted(&[], &absent));
}

#[test]
fn a_window_takes_at_least_a_second_and_a_byte() {
    let none = FileSettings::default();
    let error = refused(&with(&[("SYNC_DURATION", "0")]), &none);
    assert!(is_invalid(&error, "SYNC_DURATION", "0", "duration must be at least 1 second"));
    let error = refused(&with(&[("KAFKA_MAX_WINDOW_BYTES", "0")]), &none);
    assert!(is_invalid(&error, "KAFKA_MAX_WINDOW_BYTES", "0", "value must be at least 1"));
    let mut zero = FileSettings::default();
    zero.kafka.sync_duration_secs = Some(0);
    assert!(matches!(refused(&BASE, &zero), ConfigError::InvalidValue { .. }));
    assert_eq!(accepted(&with(&[("SYNC_DURATION", "1")]), &zero).sync_duration_secs, 1);
}

#[test]
fn numbers_from_the_environment_must_parse() {
    let none = FileSettings::default();
    for raw in ["ten", "-1", "1.5", "18446744073709551616"] {
        let error = refused(&with(&[("SYNC_DURATION", raw)]), &none);
        assert!(is_invalid(&error, "SYNC_DURATION", raw, "expected a positive integer"));
        let error = refused(&with(&[("KAFKA_MAX_WINDOW_BYTES", raw)]), &none);
        assert!(is_invalid(&error, "KAFKA_MAX_WINDOW_BYTES", raw, "expected a positive integer"));
    }
    let largest = with(&[("SYNC_DURATION", "18446744073709551615")]);
    assert_eq!(accepted(&largest, &none).sync_duration_secs, u64::MAX);
}

#[test]
fn errors_come_in_the_order_of_the_settings() {
    let bad = [("SYNC_DURATION", "x"), ("KAFKA_MAX_WINDOW_BYTES", "y"), ("OBJECT_STORAGE", "z")];
    let none = FileSettings::default();
    assert!(is_missing(&refused(&bad, &none), "KAFKA_BROKERS"));
    let mut all = with(&bad);
    assert!(matches!(refused(&all, &none), ConfigError::InvalidValue { name: "SYNC_DURATION", .. }));
    all.retain(|(k, _)| *k != "SYNC_DURATION");
    assert!(matches!(
        refused(&all, &none),
        ConfigError::InvalidValue { name: "KAFKA_MAX_WINDOW_BYTES", .. }
    ));
    all.retain(|(k, _)| *k != "KAFKA_MAX_WINDOW_BYTES");
    assert!(matches!(
        refused(&all, &none),
        ConfigError::InvalidValue { name: "OBJECT_STORAGE", .. }
    ));
}

#[test]
fn provider_tag_is_read_in_any_case() {
    assert!(matches!(ProviderTag::from_str("FILESYSTEM"), Ok(ProviderTag::FileSystem)));
    assert!(matches!(ProviderTag::from_str("aWs"), Ok(ProviderTag::Aws)));
    assert!(matches!(ProviderTag::from_str("gcs"), Ok(ProviderTag::Gcs)));
    match ProviderTag::from_str("Azure") {
        Err(error) => assert!(is_invalid(
            &error,
            "OBJECT_STORAGE",
            "azure",
            "supported providers: FileSystem, AWS, GCS"
        )),
        Ok(tag) => panic!("{tag:?}"),
    }
}

fn parsed(pairs: &[(&str, &str)], storage: &StorageSettings) -> Result<StorageProvider, ConfigError> {
    parse_storage_provider(&env_of(pairs), storage)
}

#[test]
fn aws_needs_bucket_path_and_region() {
    let none = StorageSettings::default();
    let mut env = vec![("OBJECT_STORAGE", "AWS")];
    assert!(matches!(parsed(&env, &none), Err(e) if is_missing(&e, "CLOUD_BUCKET")));
    env.push(("CLOUD_BUCKET", "bucket"));
    assert!(matches!(parsed(&env, &none), Err(e) if is_missing(&e, "CLOUD_PATH")));
    env.push(("CLOUD_PATH", "/kafka/archive/"));
    assert!(matches!(parsed(&env, &none), Err(e) if is_missing(&e, "AWS_REGION")));
    env.push(("AWS_REGION", "eu-central-1"));
    match parsed(&env, &none) {
        Ok(provider) => {
            assert_eq!(
                provider,
                StorageProvider::Aws {
                    bucket: "bucket".to_owned(),
                    path: "kafka/archive".to_owned(),
                    region: "eu-central-1".to_owned(),
                }
            );
            assert_eq!(provider.location(), "s3://bucket/kafka/archive");
        }
        Err(error) => panic!("{error:?}"),
    }
}

#[test]
fn aws_path_must_hold_more_than_slashes() {
    let env = [("OBJECT_STORAGE", "aws"), ("CLOUD_BUCKET", "b"), ("CLOUD_PATH", " /// ")];
    match parsed(&env, &StorageSettings::default()) {
        Err(error) => assert!(is_invalid(
            &error,
            "CLOUD_PATH",
            "///",
            "must contain at least one non-'/' segment"
        )),
        Ok(provider) => panic!("{provider:?}"),
    }
}

#[test]
fn gcs_needs_bucket_and_credentials() {
    let none = StorageSettings::default();
    let mut env = vec![("OBJECT_STORAGE", "Gcs")];
    assert!(matches!(parsed(&env, &none), Err(e) if is_missing(&e, "CLOUD_BUCKET")));
    env.push(("CLOUD_BUCKET", "bucket"));
    assert!(matches!(parsed(&env, &none), Err(e) if is_missing(&e, "GCS_CREDENTIALS_PATH")));
    env.push(("GCS_CREDENTIALS_PATH", "/etc/key.json"));
    match parsed(&env, &none) {
        Ok(provider) => {
            assert_eq!(
                provider,
                StorageProvider::Gcs {
                    bucket: "bucket".to_owned(),
                    credentials_path: "/etc/key.json".to_owned(),
                }
            );
            assert_eq!(provider.location(), "gs://bucket");
        }
        Err(error) => panic!("{error:?}"),
    }
}

#[test]
fn the_tag_selects_the_table_and_no_other_is_asked() {
    let storage = StorageSettings {
        provider: some("GCS"),
        filesystem: FileSystemSettings { path: some("/fs") },
        aws: AwsSettings { bucket: some("aws"), path: None, region: None },
        gcs: GcsSettings { bucket: some("gcs"), credentials_path: some("k") },
    };
    let gcs = StorageProvider::Gcs { bucket: "gcs".to_owned(), credentials_path: "k".to_owned() };
    assert!(matches!(parsed(&[], &storage), Ok(p) if p == gcs));
    let fs = StorageProvider::FileSystem { root: "/fs".to_owned() };
    assert!(matches!(parsed(&[("OBJECT_STORAGE", "FileSystem")], &storage), Ok(p) if p == fs));
    assert_eq!(fs.location(), "file:///fs");
}

#[test]
fn a_root_counts_without_a_provider() {
    let storage = StorageSettings {
        filesystem: FileSystemSettings { path: some(" /var/archive ") },
        ..StorageSettings::default()
    };
    let fs = StorageProvider::FileSystem { root: "/var/archive".to_owned() };
    assert!(matches!(parsed(&[], &storage), Ok(p) if p == fs));
    assert!(matches!(
        parsed(&[], &StorageSettings::default()),
        Ok(p) if p == StorageProvider::default()
    ));
}

#[test]
fn single_settings_resolve_layer_by_layer() {
    let env = env_of(&[("A", " x "), ("B", "  ")]);
    assert_eq!(optional(&env, "A"), some("x"));
    assert_eq!(optional(&env, "B"), None);
    assert_eq!(optional(&env, "C"), None);
    assert_eq!(pick(&env, "A", &some("y")), some("x"));
    assert_eq!(pick(&env, "B", &some(" y ")), some("y"));
    assert_eq!(pick(&env, "C", &some(" ")), None);
    assert_eq!(pick(&env, "C", &None), None);
    assert!(matches!(layer_u64(&env, "C", Some(3)), Ok(Some(3))));
    assert!(matches!(layer_u64(&env, "C", None), Ok(None)));
    assert!(layer_u64(&env, "A", Some(3)).is_err());
    assert!(matches!(layer_usize(&env, "B", Some(4)), Ok(Some(4))));
    assert!(layer_usize(&env, "A", None).is_err());
    assert!(matches!(required(some("v"), "N"), Ok(v) if v == "v"));
    assert!(matches!(required(None, "N"), Err(e) if is_missing(&e, "N")));
    assert!(matches!(required_list(some("a,,b"), "N"), Ok(v) if v == ["a", "b"]));
    assert!(matches!(required_list(some(","), "N"), Err(e) if is_missing(&e, "N")));
    assert!(matches!(required_list(None, "N"), Err(e) if is_missing(&e, "N")));
}

#[test]
fn run_environment_defaults_to_development() {
    assert_eq!(run_environment(&env_of(&[])), "development");
    assert_eq!(run_environment(&env_of(&[("RUN_ENV", " staging ")])), "staging");
    assert!(reads_dotenv("development"));
    assert!(!reads_dotenv("production"));
    assert!(!reads_dotenv("Development"));
}

#[test]
fn config_file_name_is_plain() {
    assert_eq!(config_file_path("development"), some("config/development.toml"));
    assert_eq!(config_file_path("eu-1_B"), some("config/eu-1_B.toml"));
    for odd in ["../etc/passwd", "a/b", "a.b", "a b", "é", "x\0"] {
        assert_eq!(config_file_path(odd), None, "{odd:?}");
    }
}

#[test]
fn a_missing_file_is_fine_and_a_broken_one_is_not() {
    let path = || "config/x.toml".to_owned();
    assert!(matches!(load_config_file(path(), FileRead::NotFound), Ok(None)));
    assert!(matches!(
        load_config_file(path(), FileRead::Unreadable("denied".to_owned())),
        Err(ConfigError::FileUnreadable { path: p, source }) if p == path() && source == "denied"
    ));
    assert!(matches!(
        load_config_file(path(), FileRead::Unparseable("line 1".to_owned())),
        Err(ConfigError::FileUnparseable { path: p, source }) if p == path() && source == "line 1"
    ));
    assert!(matches!(
        load_config_file(path(), FileRead::Parsed(file())),
        Ok(Some(settings)) if settings.kafka.brokers == some("file:1")
    ));
}

#[test]
fn the_file_of_the_run_environment_counts() {
    let env = env_of(&BASE);
    let parsed = || FileRead::Parsed(file());
    assert!(matches!(Config::from_env("staging", &env, parsed()), Ok(c) if c == accepted(&BASE, &file())));
    let none = accepted(&BASE, &FileSettings::default());
    assert!(matches!(Config::from_env("staging", &env, FileRead::NotFound), Ok(c) if c == none));
    // An odd run environment names no file.
    assert!(matches!(Config::from_env("../x", &env, parsed()), Ok(c) if c == none));
    assert!(matches!(
        Config::from_env("staging", &env, FileRead::Unreadable("denied".to_owned())),
        Err(ConfigError::FileUnreadable { path, source })
            if path == "config/staging.toml" && source == "denied"
    ));
    assert!(matches!(
        Config::from_env("staging", &env, FileRead::Unparseable("line 1".to_owned())),
        Err(ConfigError::FileUnparseable { path, source })
            if path == "config/staging.toml" && source == "line 1"
    ));
    assert!(matches!(
        Config::from_env("x", &env_of(&[]), FileRead::NotFound),
        Err(e) if is_missing(&e, "KAFKA_BROKERS")
    ));
}
