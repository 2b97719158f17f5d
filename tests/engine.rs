use codb::{DBError, Engine, ReadOptions, WriteOptions, DB};

#[test]
fn put_then_get_returns_value() {
    let mut db = Engine::new();
    db.put(b"a", b"1", None).unwrap();
    assert_eq!(db.get(b"a", None).unwrap(), b"1".to_vec());
}

#[test]
fn overwrite_keeps_one_record() {
    let mut db = Engine::new();
    db.put(b"a", b"1", None).unwrap();
    db.put(b"a", b"2", None).unwrap();
    assert_eq!(db.get(b"a", None).unwrap(), b"2".to_vec());
    assert_eq!(db.stats().key_count, 1);
}

#[test]
fn delete_then_get_not_found() {
    let mut db = Engine::new();
    db.put(b"a", b"1", None).unwrap();
    db.delete(b"a", None).unwrap();
    assert_eq!(db.get(b"a", None), Err(DBError::NotFound));
    assert_eq!(db.stats().key_count, 0);
}

#[test]
fn close_rejects_get() {
    let mut db = Engine::new();
    db.put(b"a", b"1", None).unwrap();
    db.close().unwrap();
    assert_eq!(db.get(b"a", None), Err(DBError::Closed));
    assert!(db.is_closed());
}

#[test]
fn has_missing_on_empty_engine() {
    let db = Engine::new();
    assert_eq!(db.has(b"missing", None), Ok(false));
}

#[test]
fn size_counts_key_and_value_bytes() {
    let mut db = Engine::new();
    db.put(b"ab", b"cd", None).unwrap();
    assert_eq!(db.size(), 4);
}

#[test]
fn get_missing_key_not_found() {
    let db = Engine::new();
    assert_eq!(db.get(b"nope", None), Err(DBError::NotFound));
}

#[test]
fn has_follows_latest_mutation() {
    let mut db = Engine::new();
    assert_eq!(db.has(b"k", None), Ok(false));
    db.put(b"k", b"v", None).unwrap();
    assert_eq!(db.has(b"k", None), Ok(true));
    db.delete(b"k", None).unwrap();
    assert_eq!(db.has(b"k", None), Ok(false));
    db.put(b"k", b"w", None).unwrap();
    assert_eq!(db.has(b"k", None), Ok(true));
    assert_eq!(db.has(b"other", None), Ok(false));
}

#[test]
fn key_count_tracks_distinct_keys() {
    let mut db = Engine::new();
    for i in 0u8..10 {
        db.put(&[i], b"x", None).unwrap();
    }
    assert_eq!(db.stats().key_count, 10);
    db.put(&[3], b"y", None).unwrap();
    assert_eq!(db.stats().key_count, 10);
    db.delete(&[3], None).unwrap();
    assert_eq!(db.stats().key_count, 9);
    db.delete(&[3], None).unwrap();
    assert_eq!(db.stats().key_count, 9);
    db.delete(b"never", None).unwrap();
    assert_eq!(db.stats().key_count, 9);
}

#[test]
fn size_sums_live_records() {
    let mut db = Engine::new();
    assert_eq!(db.size(), 0);
    db.put(b"key", b"value", None).unwrap();
    db.put(b"k2", b"", None).unwrap();
    db.put(b"", b"empty-key", None).unwrap();
    assert_eq!(db.size(), 8 + 2 + 9);
    db.put(b"key", b"v", None).unwrap();
    assert_eq!(db.size(), 4 + 2 + 9);
    db.delete(b"k2", None).unwrap();
    assert_eq!(db.size(), 4 + 9);
}

#[test]
fn closed_engine_rejects_every_key_operation() {
    let mut db = Engine::new();
    db.put(b"a", b"1", None).unwrap();
    assert_eq!(db.ping(), Ok(()));
    assert!(!db.is_closed());
    db.close().unwrap();
    assert!(db.is_closed());
    assert_eq!(db.ping(), Err(DBError::Closed));
    assert_eq!(db.get(b"a", None), Err(DBError::Closed));
    assert_eq!(db.has(b"a", None), Err(DBError::Closed));
    assert_eq!(db.put(b"b", b"2", None), Err(DBError::Closed));
    assert_eq!(db.delete(b"a", None), Err(DBError::Closed));
    assert_eq!(db.stats().key_count, 1);
    assert_eq!(db.size(), 2);
}

#[test]
fn close_is_idempotent() {
    let mut db = Engine::new();
    assert_eq!(db.close(), Ok(()));
    assert_eq!(db.close(), Ok(()));
    assert!(db.is_closed());
}

#[test]
fn stored_value_is_a_copy() {
    let mut db = Engine::new();
    let mut value = b"abc".to_vec();
    db.put(b"k", &value, None).unwrap();
    value[0] = b'z';
    let mut read = db.get(b"k", None).unwrap();
    assert_eq!(read, b"abc".to_vec());
    read[1] = b'q';
    assert_eq!(db.get(b"k", None).unwrap(), b"abc".to_vec());
}

#[test]
fn options_are_accepted() {
    let mut db = Engine::new();
    let w = WriteOptions::default();
    let r = ReadOptions::default();
    db.put(b"k", b"v", Some(&w)).unwrap();
    assert_eq!(db.get(b"k", Some(&r)).unwrap(), b"v".to_vec());
    assert_eq!(db.has(b"k", Some(&r)), Ok(true));
    db.delete(b"k", Some(&w)).unwrap();
    assert_eq!(db.has(b"k", Some(&r)), Ok(false));
}

#[test]
fn error_kinds_are_distinct() {
    assert_ne!(DBError::NotFound, DBError::Closed);
    assert_ne!(DBError::Closed, DBError::NotSupported);
    assert_ne!(DBError::NotFound, DBError::NotSupported);
}

#[test]
fn many_keys_round_trip() {
    let mut db = Engine::new();
    for i in 0u32..200 {
        let key = i.to_be_bytes();
        let value = (i * 7).to_le_bytes();
        db.put(&key, &value, None).unwrap();
    }
    assert_eq!(db.stats().key_count, 200);
    assert_eq!(db.size(), 200 * 8);
    for i in 0u32..200 {
        let key = i.to_be_bytes();
        assert_eq!(db.get(&key, None).unwrap(), (i * 7).to_le_bytes().to_vec());
    }
    for i in (0u32..200).step_by(2) {
        db.delete(&i.to_be_bytes(), None).unwrap();
    }
    assert_eq!(db.stats().key_count, 100);
    assert_eq!(db.size(), 100 * 8);
}

#[test]
fn generic_callers_see_the_contract() {
    fn exercise<D: DB>(db: &mut D) -> Vec<u8> {
        db.put(b"g", b"h", None).unwrap();
        db.get(b"g", None).unwrap()
    }
    let mut db = Engine::new();
    assert_eq!(exercise(&mut db), b"h".to_vec());
}
