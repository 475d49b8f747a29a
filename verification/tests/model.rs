use blob_db::funcs::blob_hash;
use blob_db::model::MemDb;
use blob_db::types::{SaveStatus, Status};

#[test]
fn stores_are_created_listed_and_destroyed() {
    let mut db = MemDb::new();
    assert!(db.store_list().is_empty());
    assert_eq!(db.store_create("videos"), Ok(()));
    assert_eq!(db.store_create("videos"), Err(Status::Exists));
    assert_eq!(db.store_create("images"), Ok(()));
    let mut names = db.store_list();
    names.sort();
    assert_eq!(names, vec!["images".to_string(), "videos".to_string()]);
    assert_eq!(db.store_destroy("videos"), Ok(()));
    assert_eq!(db.store_destroy("videos"), Err(Status::NotFound));
    assert_eq!(db.store_list(), vec!["images".to_string()]);
}

#[test]
fn save_then_load_gives_the_blob() {
    let mut db = MemDb::new();
    db.store_create("s").unwrap();
    let (status, id) = db.blob_save("s", b"video bytes").unwrap();
    assert_eq!(status, SaveStatus::Created);
    assert_eq!(id, blob_hash(b"video bytes"));
    assert_eq!(db.blob_load("s", &id), Ok(b"video bytes".to_vec()));
    assert_eq!(db.blob_info("s", &id), Ok(11));
    assert_eq!(db.blob_list("s"), Ok(vec![id]));
}

#[test]
fn saving_twice_reports_exists() {
    let mut db = MemDb::new();
    db.store_create("s").unwrap();
    let first = db.blob_save("s", b"same").unwrap();
    let second = db.blob_save("s", b"same").unwrap();
    assert_eq!(first.0, SaveStatus::Created);
    assert_eq!(second, (SaveStatus::Exists, first.1));
    assert_eq!(db.blob_list("s").unwrap().len(), 1);
}

#[test]
fn missing_store_or_blob_is_not_found() {
    let mut db = MemDb::new();
    let id = blob_hash(b"nothing");
    assert_eq!(db.blob_save("nope", b"x"), Err(Status::NotFound));
    assert_eq!(db.blob_list("nope"), Err(Status::NotFound));
    assert_eq!(db.blob_load("nope", &id), Err(Status::NotFound));
    assert_eq!(db.blob_info("nope", &id), Err(Status::NotFound));
    assert_eq!(db.blob_delete("nope", &id), Err(Status::NotFound));
    db.store_create("s").unwrap();
    assert_eq!(db.blob_load("s", &id), Err(Status::NotFound));
    assert_eq!(db.blob_info("s", &id), Err(Status::NotFound));
    assert_eq!(db.blob_delete("s", &id), Err(Status::NotFound));
    assert_eq!(db.blob_list("s"), Ok(vec![]));
}

#[test]
fn deleted_blob_is_gone() {
    let mut db = MemDb::new();
    db.store_create("s").unwrap();
    let (_, a) = db.blob_save("s", b"a").unwrap();
    let (_, b) = db.blob_save("s", b"b").unwrap();
    assert_eq!(db.blob_delete("s", &a), Ok(()));
    assert_eq!(db.blob_load("s", &a), Err(Status::NotFound));
    assert_eq!(db.blob_list("s"), Ok(vec![b]));
    assert_eq!(db.blob_load("s", &b), Ok(b"b".to_vec()));
    assert_eq!(db.blob_save("s", b"a"), Ok((SaveStatus::Created, a)));
}

#[test]
fn destroyed_store_forgets_its_blobs() {
    let mut db = MemDb::new();
    db.store_create("s").unwrap();
    let (_, a) = db.blob_save("s", b"a").unwrap();
    db.store_destroy("s").unwrap();
    assert_eq!(db.blob_load("s", &a), Err(Status::NotFound));
    db.store_create("s").unwrap();
    assert_eq!(db.blob_list("s"), Ok(vec![]));
}

#[test]
fn stores_are_independent() {
    let mut db = MemDb::new();
    db.store_create("one").unwrap();
    db.store_create("two").unwrap();
    let (_, a) = db.blob_save("one", b"a").unwrap();
    assert_eq!(db.blob_load("two", &a), Err(Status::NotFound));
    assert_eq!(db.blob_save("two", b"a"), Ok((SaveStatus::Created, a)));
    db.blob_delete("one", &a).unwrap();
    assert_eq!(db.blob_load("two", &a), Ok(b"a".to_vec()));
}
