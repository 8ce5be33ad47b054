//! The backend capability the resolver consumes: it lists and reads
//! byte blobs by identifier and category, and an in-memory
//! implementation of it.

use vstd::prelude::*;
use crate::error::KeyFileError;
use crate::bytes::{copy_bytes, bytes_eq};

verus! {

/// The categories of stored objects the core reads.
#[derive(Clone, Copy, Debug, PartialEq, Eq, Structural)]
pub enum FileType {
    /// The reserved category holding key records.
    Key,
}

/// The identifier of a stored object.
#[derive(Debug)]
pub struct Id(pub Vec<u8>);

impl View for Id {
    type V = Seq<u8>;

    open spec fn view(&self) -> Seq<u8> {
        self.0@
    }
}

impl Id {
    /// A copy of this identifier.
    pub fn duplicate(&self) -> (r: Id)
        ensures
            r@ == self@,
    {
        Id(copy_bytes(&self.0))
    }

    /// Whether two identifiers name the same object.
    pub fn matches(&self, other: &Id) -> (r: bool)
        ensures
            r <==> self@ == other@,
    {
        bytes_eq(&self.0, &other.0)
    }
}

/// A store of byte blobs, addressed by category and identifier.  The
/// two spec functions are its model: the identifiers under a category,
/// in the order the backend enumerates them, and the blob each
/// identifier holds.
pub trait ReadBackend: Sized {
    /// The identifiers stored under a category, in enumeration order.
    spec fn key_ids(&self, tpe: FileType) -> Seq<Seq<u8>>;

    /// The blob stored under an identifier, if any.
    spec fn stored(&self, tpe: FileType, id: Seq<u8>) -> Option<Seq<u8>>;

    /// Enumerate the identifiers of stored objects of a category.
    fn list(&self, tpe: FileType) -> (ids: Vec<Id>)
        ensures
            ids@.map_values(|id: Id| id@) == self.key_ids(tpe),
    ;

    /// Read the complete bytes of one stored object.  Fails with
    /// `ReadingFromBackendFailed` exactly when the identifier holds
    /// nothing.
    fn read_full(&self, tpe: FileType, id: &Id) -> (res: Result<Vec<u8>, KeyFileError>)
        ensures
            res matches Ok(b) ==> self.stored(tpe, id@) == Option::Some(b@),
            res matches Err(e) ==> self.stored(tpe, id@) is None && e
                == KeyFileError::ReadingFromBackendFailed,
    ;
}

/// The blob of the first entry carrying `id`.
pub open spec fn lookup(entries: Seq<(Id, Vec<u8>)>, id: Seq<u8>) -> Option<Seq<u8>>
    decreases entries.len(),
{
    if entries.len() == 0 {
        Option::None
    } else if entries[0].0@ == id {
        Option::Some(entries[0].1@)
    } else {
        lookup(entries.skip(1), id)
    }
}

/// An in-memory backend: identifier and blob pairs in insertion order.
/// All stored objects count as key records.
#[derive(Debug)]
pub struct MemBackend {
    /// The stored objects, in enumeration order.
    pub entries: Vec<(Id, Vec<u8>)>,
}

impl MemBackend {
    /// An empty backend.
    pub fn new() -> (b: MemBackend)
        ensures
            b.entries@.len() == 0,
    {
        MemBackend { entries: Vec::new() }
    }

    /// Store one object.
    pub fn put(&mut self, id: Id, blob: Vec<u8>)
        ensures
            final(self).entries@ == old(self).entries@ + seq![(id, blob)],
    {
        self.entries.push((id, blob));
        proof {
            assert(self.entries@ =~= old(self).entries@ + seq![(id, blob)]);
        }
    }
}

impl ReadBackend for MemBackend {
    open spec fn key_ids(&self, tpe: FileType) -> Seq<Seq<u8>> {
        self.entries@.map_values(|e: (Id, Vec<u8>)| e.0@)
    }

    open spec fn stored(&self, tpe: FileType, id: Seq<u8>) -> Option<Seq<u8>> {
        lookup(self.entries@, id)
    }

    fn list(&self, tpe: FileType) -> (ids: Vec<Id>)
        ensures
            ids@.map_values(|id: Id| id@) == self.key_ids(tpe),
    {
        let mut ids: Vec<Id> = Vec::new();
        let mut i: usize = 0;
        while i < self.entries.len()
            invariant
                i <= self.entries@.len(),
                ids@.len() == i,
                forall|j: int| 0 <= j < i ==> ids@[j]@ == self.entries@[j].0@,
            decreases self.entries.len() - i,
        {
            let entry = &self.entries[i];
            ids.push(entry.0.duplicate());
            i = i + 1;
        }
        proof {
            assert(ids@.map_values(|id: Id| id@) =~= self.key_ids(tpe));
        }
        ids
    }

    fn read_full(&self, tpe: FileType, id: &Id) -> (res: Result<Vec<u8>, KeyFileError>)
        ensures
            res matches Ok(b) ==> self.stored(tpe, id@) == Option::Some(b@),
            res matches Err(e) ==> self.stored(tpe, id@) is None && e
                == KeyFileError::ReadingFromBackendFailed,
    {
        let mut i: usize = 0;
        proof {
            assert(self.entries@.skip(0) =~= self.entries@);
        }
        while i < self.entries.len()
            invariant
                i <= self.entries@.len(),
                lookup(self.entries@.skip(i as int), id@) == lookup(self.entries@, id@),
            decreases self.entries.len() - i,
        {
            let entry = &self.entries[i];
            proof {
                let rem = self.entries@.skip(i as int);
                assert(rem[0] == self.entries@[i as int]);
                assert(rem.skip(1) =~= self.entries@.skip(i + 1));
            }
            if entry.0.matches(id) {
                return Ok(copy_bytes(&entry.1));
            }
            i = i + 1;
        }
        proof {
            assert(self.entries@.skip(self.entries@.len() as int) =~= Seq::<(Id, Vec<u8>)>::empty());
        }
        Err(KeyFileError::ReadingFromBackendFailed)
    }
}

} // verus!
