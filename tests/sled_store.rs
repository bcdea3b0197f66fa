use kvs::err::KvsError;
use kvs::network::{Request, Response};
use kvs::sled_engine::{outcome_of_remove, response_of_get, response_of_remove, should_retry_open, value_of_lookup, SledStore};

fn temp_store() -> SledStore {
    SledStore::new(sled::Config::new().temporary(true).open().unwrap())
}

#[test]
fn sled_scenario() {
    let store = temp_store();
    store.set("a".to_owned(), "1".to_owned()).unwrap();
    assert_eq!(store.get("a".to_owned()), Ok(Some("1".to_owned())));
    store.set("a".to_owned(), "2".to_owned()).unwrap();
    assert_eq!(store.get("a".to_owned()), Ok(Some("2".to_owned())));
    store.remove("a".to_owned()).unwrap();
    assert_eq!(store.get("a".to_owned()), Ok(None));
    assert_eq!(store.remove("a".to_owned()), Err(KvsError::KeyNotFound));
}

#[test]
fn lookup_outcomes() {
    assert_eq!(value_of_lookup(Ok(Some(b"abc".to_vec()))), Ok(Some("abc".to_owned())));
    assert_eq!(value_of_lookup(Ok(Some(vec![0xff, 0xfe]))), Err(KvsError::Corrupt));
    assert_eq!(value_of_lookup(Ok(None)), Ok(None));
    assert_eq!(value_of_lookup(Err(())), Err(KvsError::Storage));
}

#[test]
fn remove_outcomes() {
    assert_eq!(outcome_of_remove(Ok(true), true), Ok(()));
    assert_eq!(outcome_of_remove(Ok(true), false), Err(KvsError::Storage));
    assert_eq!(outcome_of_remove(Ok(false), true), Err(KvsError::KeyNotFound));
    assert_eq!(outcome_of_remove(Err(()), true), Err(KvsError::KeyNotFound));
}

#[test]
fn open_retries_three_times() {
    assert!(should_retry_open(1));
    assert!(should_retry_open(3));
    assert!(!should_retry_open(4));
}

#[test]
fn sled_requests() {
    let store = temp_store();
    assert_eq!(store.process_request(Request::Get { key: "missing".to_owned() }), Response::NotFound);
    assert_eq!(store.process_request(Request::Remove { key: "missing".to_owned() }), Response::NotFound);
    assert_eq!(
        store.process_request(Request::Put { key: "k".to_owned(), value: "v".to_owned() }),
        Response::Success
    );
    assert_eq!(store.process_request(Request::Get { key: "k".to_owned() }), Response::Value("v".to_owned()));
    assert_eq!(store.process_request(Request::Remove { key: "k".to_owned() }), Response::Success);
}

#[test]
fn sled_answers() {
    assert_eq!(response_of_get(Ok(Some("v".to_owned()))), Response::Value("v".to_owned()));
    assert_eq!(response_of_get(Ok(None)), Response::NotFound);
    assert_eq!(response_of_get(Err(KvsError::Storage)), Response::NotFound);
    assert_eq!(response_of_remove(Ok(())), Response::Success);
    assert_eq!(response_of_remove(Err(KvsError::KeyNotFound)), Response::NotFound);
}
