//! The repository key resolver: locate the one stored record a
//! password unlocks, by explicit hint or by trial decryption.

use vstd::prelude::*;
use crate::error::KeyFileError;
use crate::crypto::{Key, KeyV, wf_key};
use crate::keyfile::{KeyFile, parse_record, parse_key_record, recover_spec, wf_record};
use crate::backend::{FileType, Id, ReadBackend};

verus! {

/// The outcome of fetching and parsing one stored record.
pub open spec fn from_backend_spec(blob: Option<Seq<u8>>) -> Result<
    crate::keyfile::KeyFileV,
    KeyFileError,
> {
    match blob {
        Option::None => Result::Err(KeyFileError::ReadingFromBackendFailed),
        Option::Some(b) => match parse_record(b) {
            Option::None => Result::Err(KeyFileError::DeserializationFailed),
            Option::Some(rv) => Result::Ok(rv),
        },
    }
}

/// The outcome of trying one stored record against a password: fetch,
/// parse, derive, unseal.
pub open spec fn try_stored(blob: Option<Seq<u8>>, pw: Seq<u8>) -> Result<KeyV, KeyFileError> {
    match blob {
        Option::None => Result::Err(KeyFileError::ReadingFromBackendFailed),
        Option::Some(b) => match parse_record(b) {
            Option::None => Result::Err(KeyFileError::DeserializationFailed),
            Option::Some(rv) => recover_spec(rv, pw),
        },
    }
}

/// The key of the first identifier whose record the password unlocks,
/// in enumeration order; `None` when every candidate fails.
pub open spec fn first_success<B: ReadBackend>(be: &B, ids: Seq<Seq<u8>>, pw: Seq<u8>) -> Option<
    KeyV,
>
    decreases ids.len(),
{
    if ids.len() == 0 {
        Option::None
    } else {
        match try_stored(be.stored(FileType::Key, ids[0]), pw) {
            Result::Ok(k) => Option::Some(k),
            Result::Err(_) => first_success(be, ids.skip(1), pw),
        }
    }
}

impl KeyFile {
    /// Fetch a record from the backend by identifier and parse it.
    pub fn from_backend<B: ReadBackend>(be: &B, id: &Id) -> (res: Result<KeyFile, KeyFileError>)
        ensures
            res matches Ok(rec) ==> from_backend_spec(be.stored(FileType::Key, id@))
                == Result::<crate::keyfile::KeyFileV, KeyFileError>::Ok(rec@) && wf_record(rec@),
            res matches Err(e) ==> from_backend_spec(be.stored(FileType::Key, id@))
                == Result::<crate::keyfile::KeyFileV, KeyFileError>::Err(e),
    {
        let blob = match be.read_full(FileType::Key, id) {
            Ok(b) => b,
            Err(e) => {
                return Err(e);
            },
        };
        match parse_key_record(&blob) {
            Some(rec) => Ok(rec),
            None => Err(KeyFileError::DeserializationFailed),
        }
    }
}

/// Fetch one record by identifier and recover the master key from it
/// with the password.
pub fn key_from_backend<B: ReadBackend>(be: &B, id: &Id, passwd: &Vec<u8>) -> (res: Result<
    Key,
    KeyFileError,
>)
    ensures
        res matches Ok(k) ==> try_stored(be.stored(FileType::Key, id@), passwd@)
            == Result::<KeyV, KeyFileError>::Ok(k@) && wf_key(k@),
        res matches Err(e) ==> try_stored(be.stored(FileType::Key, id@), passwd@)
            == Result::<KeyV, KeyFileError>::Err(e),
{
    let rec = match KeyFile::from_backend(be, id) {
        Ok(rec) => rec,
        Err(e) => {
            return Err(e);
        },
    };
    rec.key_from_password(passwd)
}

/// Find the key record that fits the password and return the contained
/// key.  With a hint only that record is tested, and its failure is the
/// resolver's failure.  Without one, every stored record is tried in
/// enumeration order, failing candidates are skipped, and the first
/// success wins; exhaustion fails with `NoSuitableKeyFound`.
pub fn find_key_in_backend<B: ReadBackend>(be: &B, passwd: &Vec<u8>, hint: Option<&Id>) -> (res:
    Result<Key, KeyFileError>)
    ensures
        match hint {
            Option::Some(id) => match res {
                Ok(k) => try_stored(be.stored(FileType::Key, id@), passwd@)
                    == Result::<KeyV, KeyFileError>::Ok(k@) && wf_key(k@),
                Err(e) => try_stored(be.stored(FileType::Key, id@), passwd@)
                    == Result::<KeyV, KeyFileError>::Err(e),
            },
            Option::None => match res {
                Ok(k) => first_success(be, be.key_ids(FileType::Key), passwd@)
                    == Option::Some(k@) && wf_key(k@),
                Err(e) => first_success(be, be.key_ids(FileType::Key), passwd@) is None && e
                    == KeyFileError::NoSuitableKeyFound,
            },
        },
{
    if let Some(id) = hint {
        return key_from_backend(be, id, passwd);
    }
    let ids = be.list(FileType::Key);
    let ghost all = be.key_ids(FileType::Key);
    proof {
        assert(all.skip(0) =~= all);
    }
    let mut i: usize = 0;
    while i < ids.len()
        invariant
            hint is None,
            i <= ids@.len(),
            ids@.map_values(|id: Id| id@) == be.key_ids(FileType::Key),
            all == be.key_ids(FileType::Key),
            first_success(be, all.skip(i as int), passwd@) == first_success(be, all, passwd@),
        decreases ids.len() - i,
    {
        proof {
            let rem = all.skip(i as int);
            assert(rem[0] == all[i as int]);
            assert(all[i as int] == ids@[i as int]@);
            assert(rem.skip(1) =~= all.skip(i + 1));
        }
        match key_from_backend(be, &ids[i], passwd) {
            Ok(key) => {
                return Ok(key);
            },
            Err(_) => {},
        }
        i = i + 1;
    }
    proof {
        assert(all.skip(ids@.len() as int) =~= Seq::<Seq<u8>>::empty());
    }
    Err(KeyFileError::NoSuitableKeyFound)
}

} // verus!
