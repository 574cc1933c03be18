use blog::engine::{Step, Value};
use blog::store::{BlogDatabase, FileItem, StoreError};

#[test]
fn file_is_cached_once() {
    let mut db = BlogDatabase::new();
    let p = "/site/articles/a.md".to_string();
    assert_eq!(db.lookup_file(&p), Ok(None));
    let id = db.register_file(p.clone(), b"hello".to_vec()).unwrap();
    assert_eq!(db.lookup_file(&p), Ok(Some(id)));
    let again = db.register_file(p.clone(), b"other".to_vec()).unwrap();
    assert_eq!(again, id);
    match db.engine.value(id) {
        Some(Value::Bytes(b)) => assert_eq!(b, b"hello"),
        _ => panic!("no content"),
    }
    assert_eq!(db.item(&p), Some(FileItem::File(id)));
}

#[test]
fn kind_mismatch_is_refused() {
    let mut db = BlogDatabase::new();
    let d = "/site/articles".to_string();
    let id = db.register_dir(d.clone(), vec!["/site/articles/a.md".to_string()]).unwrap();
    assert_eq!(db.lookup_dir(&d), Ok(Some(id)));
    assert_eq!(db.lookup_file(&d), Err(StoreError::NotAFile));
    assert_eq!(db.register_file(d.clone(), vec![]), Err(StoreError::NotAFile));
    let f = "/site/links.yaml".to_string();
    db.register_file(f.clone(), vec![]).unwrap();
    assert_eq!(db.lookup_dir(&f), Err(StoreError::NotADirectory));
}

#[test]
fn reload_replaces_cached_content_only() {
    let mut db = BlogDatabase::new();
    let p = "/site/a.md".to_string();
    let id = db.register_file(p.clone(), b"v1".to_vec()).unwrap();
    assert_eq!(db.reload(&"/site/unread.md".to_string(), b"x".to_vec(), vec![]), Ok(false));
    assert_eq!(db.engine.revision(), 0);
    assert_eq!(db.reload(&p, b"v2".to_vec(), vec![]), Ok(true));
    assert_eq!(db.engine.revision(), 1);
    assert_eq!(db.engine.step(id), Step::Fresh);
    match db.engine.value(id) {
        Some(Value::Bytes(b)) => assert_eq!(b, b"v2"),
        _ => panic!("no content"),
    }
}
