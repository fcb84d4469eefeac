use local_store::fs_model::FsState;
use local_store::fs_model::Node;
use local_store::fs_model::Probe;
use local_store::init::InitError;
use local_store::init::db_file_name_bytes;
use local_store::init::ensure_local_store;
use local_store::init::initialize;
use local_store::init::placeholder_payload;
use local_store::store_path::StorePath;

fn path(parts: &[&str]) -> StorePath {
    StorePath::from_components(parts.iter().map(|p| p.as_bytes().to_vec()).collect())
}

fn db_in(parts: &[&str]) -> StorePath {
    path(parts).join(&db_file_name_bytes())
}

#[test]
fn fixed_names() {
    assert_eq!(db_file_name_bytes(), b"app.db".to_vec());
    assert_eq!(placeholder_payload(), b"{}".to_vec());
}

#[test]
fn creates_directory_and_store_file() {
    // Scenario: /tmp/testhome/appdata does not exist at all.
    let mut fs = FsState::empty();
    let d = path(&["tmp", "testhome", "appdata"]);
    let r = ensure_local_store(&mut fs, &d);
    assert_eq!(r, Ok(()));
    assert_eq!(fs.probe(&d), Probe::FoundDir);
    let db = db_in(&["tmp", "testhome", "appdata"]);
    assert_eq!(fs.read_file(&db).unwrap().as_slice(), b"{}");
}

#[test]
fn ancestor_chain_is_created_recursively() {
    let mut fs = FsState::empty();
    let d = path(&["home", "user", "share", "someapp", "state"]);
    let r = ensure_local_store(&mut fs, &d);
    assert_eq!(r, Ok(()));
    assert_eq!(fs.probe(&path(&["home"])), Probe::FoundDir);
    assert_eq!(fs.probe(&path(&["home", "user"])), Probe::FoundDir);
    assert_eq!(fs.probe(&path(&["home", "user", "share"])), Probe::FoundDir);
    assert_eq!(fs.probe(&path(&["home", "user", "share", "someapp"])), Probe::FoundDir);
    assert_eq!(fs.probe(&d), Probe::FoundDir);
    assert_eq!(
        fs.probe(&db_in(&["home", "user", "share", "someapp", "state"])),
        Probe::FoundFile
    );
}

#[test]
fn preexisting_store_file_is_kept() {
    // Scenario: the directory exists and already holds app.db with "hello".
    let mut fs = FsState::empty();
    fs.insert_new(path(&["tmp"]), Node::Dir);
    fs.insert_new(path(&["tmp", "testhome"]), Node::Dir);
    fs.insert_new(path(&["tmp", "testhome", "appdata"]), Node::Dir);
    let db = db_in(&["tmp", "testhome", "appdata"]);
    fs.insert_new(db_in(&["tmp", "testhome", "appdata"]), Node::File(b"hello".to_vec()));
    let d = path(&["tmp", "testhome", "appdata"]);
    let r = ensure_local_store(&mut fs, &d);
    assert_eq!(r, Ok(()));
    assert_eq!(fs.read_file(&db).unwrap().as_slice(), b"hello");
}

#[test]
fn sibling_entries_are_kept() {
    let mut fs = FsState::empty();
    fs.insert_new(path(&["data"]), Node::Dir);
    fs.insert_new(path(&["data", "notes.txt"]), Node::File(b"keep me".to_vec()));
    let d = path(&["data"]);
    let r = ensure_local_store(&mut fs, &d);
    assert_eq!(r, Ok(()));
    assert_eq!(
        fs.read_file(&path(&["data", "notes.txt"])).unwrap().as_slice(),
        b"keep me"
    );
    assert_eq!(fs.read_file(&db_in(&["data"])).unwrap().as_slice(), b"{}");
}

#[test]
fn second_run_is_a_no_op() {
    let mut fs = FsState::empty();
    let d = path(&["tmp", "testhome", "appdata"]);
    assert_eq!(ensure_local_store(&mut fs, &d), Ok(()));
    assert_eq!(ensure_local_store(&mut fs, &d), Ok(()));
    assert_eq!(fs.probe(&d), Probe::FoundDir);
    let db = db_in(&["tmp", "testhome", "appdata"]);
    assert_eq!(fs.read_file(&db).unwrap().as_slice(), b"{}");
}

#[test]
fn second_run_repeats_a_failure_without_new_damage() {
    let mut fs = FsState::empty();
    fs.insert_new(path(&["tmp"]), Node::File(b"not a dir".to_vec()));
    let d = path(&["tmp", "appdata"]);
    assert_eq!(ensure_local_store(&mut fs, &d), Err(InitError::DirectoryCreation));
    assert_eq!(ensure_local_store(&mut fs, &d), Err(InitError::DirectoryCreation));
    assert_eq!(fs.read_file(&path(&["tmp"])).unwrap().as_slice(), b"not a dir");
    assert_eq!(fs.probe(&d), Probe::Missing);
    assert_eq!(fs.probe(&db_in(&["tmp", "appdata"])), Probe::Missing);
}

#[test]
fn file_in_the_way_blocks_directory_creation() {
    let mut fs = FsState::empty();
    fs.insert_new(path(&["var"]), Node::Dir);
    fs.insert_new(path(&["var", "app"]), Node::File(b"occupied".to_vec()));
    let d = path(&["var", "app", "data"]);
    let r = ensure_local_store(&mut fs, &d);
    assert_eq!(r, Err(InitError::DirectoryCreation));
    // no store file appeared anywhere along the way
    assert_eq!(fs.probe(&db_in(&["var", "app", "data"])), Probe::Missing);
    assert_eq!(fs.read_file(&path(&["var", "app"])).unwrap().as_slice(), b"occupied");
}

#[test]
fn a_directory_at_the_store_path_is_left_alone() {
    // An existence check, not a file check, guards the write: a directory
    // named app.db counts as present and the call still succeeds.
    let mut fs = FsState::empty();
    fs.insert_new(path(&["data"]), Node::Dir);
    fs.insert_new(path(&["data", "app.db"]), Node::Dir);
    let r = ensure_local_store(&mut fs, &path(&["data"]));
    assert_eq!(r, Ok(()));
    assert_eq!(fs.probe(&db_in(&["data"])), Probe::FoundDir);
}

#[test]
fn missing_resolution_touches_nothing() {
    // Scenario: the platform could not supply a data directory.
    let mut fs = FsState::empty();
    let r = initialize(&mut fs, None);
    assert_eq!(r, Err(InitError::PathResolution));
    assert_eq!(fs.probe(&path(&["tmp"])), Probe::Missing);
}

#[test]
fn resolved_path_initializes_the_store() {
    let mut fs = FsState::empty();
    let d = path(&["tmp", "appdata"]);
    let r = initialize(&mut fs, Some(&d));
    assert_eq!(r, Ok(()));
    assert_eq!(fs.read_file(&db_in(&["tmp", "appdata"])).unwrap().as_slice(), b"{}");
}

#[test]
fn error_messages() {
    assert_eq!(InitError::PathResolution.message(), "app data dir not found");
    assert_eq!(InitError::DirectoryCreation.message(), "could not create app data dir");
    assert_eq!(InitError::FileCreation.message(), "could not create local store file");
}

#[test]
fn path_operations() {
    let d = path(&["a", "b"]);
    assert_eq!(d.depth(), 2);
    let joined = d.join(&b"c".to_vec());
    assert_eq!(joined.depth(), 3);
    assert!(joined.prefix(2).path_eq(&d));
    assert!(d.path_eq(&path(&["a", "b"])));
    assert!(!d.path_eq(&path(&["a", "c"])));
    assert!(!d.path_eq(&path(&["a"])));
}

#[test]
fn empty_filesystem_probes_missing() {
    let fs = FsState::empty();
    assert_eq!(fs.probe(&path(&["anything"])), Probe::Missing);
    assert!(fs.read_file(&path(&["anything"])).is_none());
}
