//! The alternative engine: every operation delegates to an embedded sled
//! database and flushes each mutation before it returns.
use vstd::prelude::*;
use crate::err::KvsError;
use crate::network::{Request, RequestModel, Response, ResponseModel};

verus! {

#[verifier::external_type_specification]
#[verifier::external_body]
pub struct ExDb(sled::Db);

/// What `String::from_utf8` makes of some bytes: the text, or none where
/// they are not UTF-8.
pub uninterp spec fn utf8_text(b: Seq<u8>) -> Option<Seq<char>>;

/// Relies on sled's `Tree::insert`: whether storing `value` under `key` succeeded.
#[verifier::external_body]
fn db_insert(db: &sled::Db, key: &[u8], value: &[u8]) -> (ok: bool) {
    db.insert(key, value).is_ok()
}

/// Relies on sled's `Tree::flush`: whether writing the buffered updates out succeeded.
#[verifier::external_body]
fn db_flush(db: &sled::Db) -> (ok: bool) {
    db.flush().is_ok()
}

/// Relies on sled's `Tree::get`: the bytes stored under `key`, `Ok(None)`
/// where there are none, `Err` where sled failed.
#[verifier::external_body]
fn db_get(db: &sled::Db, key: &[u8]) -> (r: Result<Option<Vec<u8>>, ()>) {
    match db.get(key) {
        Ok(v) => Ok(v.map(|v| v.to_vec())),
        Err(_) => Err(()),
    }
}

/// Relies on sled's `Tree::remove`: whether a value was stored under `key`
/// and is now gone, `Err` where sled failed.
#[verifier::external_body]
fn db_remove(db: &sled::Db, key: &[u8]) -> (r: Result<bool, ()>) {
    match db.remove(key) {
        Ok(v) => Ok(v.is_some()),
        Err(_) => Err(()),
    }
}

/// Relies on `String::from_utf8`: the text that the bytes spell, if they are UTF-8.
#[verifier::external_body]
fn text_of(b: Vec<u8>) -> (r: Option<String>)
    ensures
        match r {
            Some(s) => utf8_text(b@) == Some(s@),
            None => utf8_text(b@) is None,
        },
{
    String::from_utf8(b).ok()
}

/// Opening sled is tried again after a failure, at most three times.
pub fn should_retry_open(failures: u32) -> (r: bool)
    ensures
        r == (failures <= 3),
{
    failures <= 3
}

/// What a lookup answers for what sled returned: the text of the stored
/// bytes, none where nothing is stored, and an error where sled failed or
/// the bytes are not text.
pub fn value_of_lookup(found: Result<Option<Vec<u8>>, ()>) -> (r: Result<Option<String>, KvsError>)
    ensures
        match found {
            Err(()) => r == Err::<Option<String>, KvsError>(KvsError::Storage),
            Ok(None) => r == Ok::<Option<String>, KvsError>(None),
            Ok(Some(b)) => match utf8_text(b@) {
                Some(t) => r matches Ok(Some(s)) && s@ == t,
                None => r == Err::<Option<String>, KvsError>(KvsError::Corrupt),
            },
        },
{
    match found {
        Err(()) => Err(KvsError::Storage),
        Ok(None) => Ok(None),
        Ok(Some(b)) => match text_of(b) {
            Some(s) => Ok(Some(s)),
            None => Err(KvsError::Corrupt),
        },
    }
}

/// What a removal answers for what sled returned and whether the flush
/// after it succeeded: a removal that found nothing, or failed, reads as a
/// missing key.
pub fn outcome_of_remove(removed: Result<bool, ()>, flushed: bool) -> (r: Result<(), KvsError>)
    ensures
        r == (if removed == Ok::<bool, ()>(true) {
            if flushed {
                Ok::<(), KvsError>(())
            } else {
                Err(KvsError::Storage)
            }
        } else {
            Err(KvsError::KeyNotFound)
        }),
{
    match removed {
        Ok(true) => if flushed {
            Ok(())
        } else {
            Err(KvsError::Storage)
        },
        _ => Err(KvsError::KeyNotFound),
    }
}

/// The answer to a `Get` for what the engine returned: a failure reads as
/// `NotFound`.
pub fn response_of_get(r: Result<Option<String>, KvsError>) -> (p: Response)
    ensures
        p@ == match r {
            Ok(Some(v)) => ResponseModel::Value(v@),
            _ => ResponseModel::NotFound,
        },
{
    match r {
        Ok(Some(v)) => Response::Value(v),
        _ => Response::NotFound,
    }
}

/// The answer to a `Remove` for what the engine returned: any failure,
/// a missing key included, reads as `NotFound`.
pub fn response_of_remove(r: Result<(), KvsError>) -> (p: Response)
    ensures
        p@ == match r {
            Ok(()) => ResponseModel::Success,
            Err(_) => ResponseModel::NotFound,
        },
{
    match r {
        Ok(()) => Response::Success,
        Err(_) => Response::NotFound,
    }
}

/// The engine over a sled database.
pub struct SledStore {
    db: sled::Db,
}

impl SledStore {
    /// Wraps an open database.
    pub fn new(db: sled::Db) -> (r: SledStore) {
        SledStore { db }
    }

    /// Stores `value` under `key` and flushes; the only failure is sled's.
    pub fn set(&self, key: String, value: String) -> (r: Result<(), KvsError>)
        ensures
            r is Ok || r == Err::<(), KvsError>(KvsError::Storage),
    {
        if !db_insert(&self.db, key.as_str().as_bytes(), value.as_str().as_bytes()) {
            return Err(KvsError::Storage);
        }
        if db_flush(&self.db) {
            Ok(())
        } else {
            Err(KvsError::Storage)
        }
    }

    /// The value stored under `key`, if any.
    pub fn get(&self, key: String) -> (r: Result<Option<String>, KvsError>)
        ensures
            r is Ok || r == Err::<Option<String>, KvsError>(KvsError::Storage) || r == Err::<
                Option<String>,
                KvsError,
            >(KvsError::Corrupt),
    {
        value_of_lookup(db_get(&self.db, key.as_str().as_bytes()))
    }

    /// Removes `key` and flushes; a key with nothing stored is refused.
    pub fn remove(&self, key: String) -> (r: Result<(), KvsError>)
        ensures
            r is Ok || r == Err::<(), KvsError>(KvsError::KeyNotFound) || r == Err::<(), KvsError>(
                KvsError::Storage,
            ),
    {
        let removed = db_remove(&self.db, key.as_str().as_bytes());
        let flushed = match removed {
            Ok(true) => db_flush(&self.db),
            _ => true,
        };
        outcome_of_remove(removed, flushed)
    }

    /// Runs one request: a `Get` that fails reads as `NotFound`, a `Set`
    /// answers `Success` whatever sled says, a `Remove` that fails answers
    /// `NotFound`.
    pub fn process_request(&self, q: Request) -> (r: Response)
        ensures
            match q@ {
                RequestModel::Get { .. } => r@ is Value || r@ == ResponseModel::NotFound,
                RequestModel::Put { .. } => r@ == ResponseModel::Success,
                RequestModel::Remove { .. } => r@ == ResponseModel::Success || r@ == ResponseModel::NotFound,
            },
    {
        match q {
            Request::Get { key } => response_of_get(self.get(key)),
            Request::Put { key, value } => {
                let _ = self.set(key, value);
                Response::Success
            },
            Request::Remove { key } => response_of_remove(self.remove(key)),
        }
    }
}

} // verus!
