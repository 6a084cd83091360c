use kafka_sync::error::StorageError;
use kafka_sync::storage::filesystem::{
    FileSystemStore, PathStyle, PutAction, PutPlan, PutStage,
};
use std::future::Future;
use std::path::Path;
use tokio::io::AsyncWriteExt;

type TestResult = Result<(), Box<dyn std::error::Error>>;

fn wait<F: Future>(future: F) -> Result<F::Output, Box<dyn std::error::Error>> {
    let runtime = tokio::runtime::Builder::new_multi_thread().worker_threads(1).build()?;
    Ok(runtime.block_on(future))
}

fn store() -> Result<(tempfile::TempDir, FileSystemStore), Box<dyn std::error::Error>> {
    let dir = tempfile::tempdir()?;
    let root = dir.path().to_str().ok_or("a path in UTF-8")?.to_owned();
    match FileSystemStore::connect(PathStyle::Unix, &root, Ok(())) {
        Ok(store) => Ok((dir, store)),
        Err(error) => Err(format!("{error:?}").into()),
    }
}

async fn perform(stage: PutStage, plan: &PutPlan, body: &[u8]) -> std::io::Result<()> {
    match stage {
        PutStage::MakeParents => match Path::new(&plan.final_path).parent() {
            Some(parent) => tokio::fs::create_dir_all(parent).await,
            None => Ok(()),
        },
        PutStage::CreateTemp => tokio::fs::File::create(&plan.temp_path).await.map(|_| ()),
        PutStage::WriteTemp => {
            let mut file = tokio::fs::File::create(&plan.temp_path).await?;
            file.write_all(body).await?;
            file.flush().await
        }
        PutStage::Publish => tokio::fs::rename(&plan.temp_path, &plan.final_path).await,
    }
}

/// Stores `body`, breaking off before the stage `until`.
async fn put(
    store: &FileSystemStore,
    key: &str,
    body: &[u8],
    until: Option<PutStage>,
) -> Result<(), StorageError> {
    let (plan, mut stage) = store.put_object(key, 42)?;
    loop {
        if until == Some(stage) {
            return Ok(());
        }
        let reply = perform(stage, &plan, body).await.map_err(|e| e.to_string());
        match store.advance_put(key, body.len(), stage, reply) {
            PutAction::Perform(next) => stage = next,
            PutAction::Finish(outcome) => return outcome,
        }
    }
}

fn stored(outcome: Result<(), StorageError>) -> TestResult {
    outcome.map_err(|error| format!("{error:?}").into())
}

#[test]
fn put_object_writes_exact_bytes_under_root() -> TestResult {
    let (dir, store) = store()?;
    stored(wait(put(&store, "a/b/c.json", b"payload", None))?)?;
    let bytes = wait(tokio::fs::read(dir.path().join("a/b/c.json")))??;
    assert_eq!(bytes, b"payload");
    Ok(())
}

#[test]
fn put_object_overwrites_existing_key() -> TestResult {
    let (dir, store) = store()?;
    stored(wait(put(&store, "k.json", b"first", None))?)?;
    // Retry semantics: same key, replaced content, no error.
    stored(wait(put(&store, "k.json", b"second", None))?)?;
    let bytes = wait(tokio::fs::read(dir.path().join("k.json")))??;
    assert_eq!(bytes, b"second");
    Ok(())
}

#[test]
fn traversal_keys_are_rejected_and_write_nothing() -> TestResult {
    let (dir, store) = store()?;
    for key in ["../escape.json", "/abs.json", "a/../../escape.json"] {
        let outcome = wait(put(&store, key, b"x", None))?;
        assert!(
            matches!(outcome, Err(StorageError::InvalidKey { key: ref rejected }) if rejected == key),
            "key {key:?} must be rejected as InvalidKey, got {outcome:?}"
        );
    }
    // Nothing escaped the root, and no stray files were left inside it.
    let parent = dir.path().parent().ok_or("tempdir has no parent")?;
    assert!(!parent.join("escape.json").exists());
    let mut entries = wait(tokio::fs::read_dir(dir.path()))??;
    assert!(wait(entries.next_entry())??.is_none());
    Ok(())
}

#[test]
fn a_put_that_breaks_off_leaves_the_old_object() -> TestResult {
    let (dir, store) = store()?;
    stored(wait(put(&store, "a/k.json", b"old", None))?)?;
    for until in
        [PutStage::MakeParents, PutStage::CreateTemp, PutStage::WriteTemp, PutStage::Publish]
    {
        stored(wait(put(&store, "a/k.json", b"new", Some(until)))?)?;
        let bytes = wait(tokio::fs::read(dir.path().join("a/k.json")))??;
        assert_eq!(bytes, b"old");
    }
    // What is left of the temp file does not disturb the next try.
    stored(wait(put(&store, "a/k.json", b"new", None))?)?;
    let bytes = wait(tokio::fs::read(dir.path().join("a/k.json")))??;
    assert_eq!(bytes, b"new");
    Ok(())
}

#[test]
fn a_failed_rename_leaves_the_old_object() -> TestResult {
    let (dir, store) = store()?;
    // A directory with a file in it stands at the final path: no file can be
    // renamed onto it.
    stored(wait(put(&store, "k/old", b"old", None))?)?;
    let outcome = wait(put(&store, "k", b"new", None))?;
    assert!(matches!(outcome, Err(StorageError::PutObject { key, size: 3, .. }) if key == "k"));
    let bytes = wait(tokio::fs::read(dir.path().join("k/old")))??;
    assert_eq!(bytes, b"old");
    Ok(())
}

#[test]
fn a_finished_put_leaves_no_temp_file() -> TestResult {
    let (dir, store) = store()?;
    stored(wait(put(&store, "k", b"x", None))?)?;
    assert!(dir.path().join("k").exists());
    assert!(!dir.path().join("k.42.tmp").exists());
    Ok(())
}

#[test]
fn a_failing_disk_fails_the_put() -> TestResult {
    let (dir, store) = store()?;
    stored(wait(put(&store, "a", b"file", None))?)?;
    // `a` is a file, so `a/b` has no place.
    let outcome = wait(put(&store, "a/b", b"x", None))?;
    let root = dir.path().to_str().ok_or("a path in UTF-8")?;
    assert!(matches!(
        outcome,
        Err(StorageError::PutObject { location, key, size: 1, .. })
            if location == format!("file://{root}") && key == "a/b"
    ));
    Ok(())
}
