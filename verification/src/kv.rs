//! Thin trusted layer over one tree of the embedded key-value store.
//!
//! Verified code sees a tree as a map from byte keys to byte values,
//! named by `kv_contents`; the wrappers below say how the store's own
//! operations read and change that map.

use vstd::prelude::*;
use crate::errors::CacheError;

verus! {

#[verifier::external_type_specification]
#[verifier::external_body]
pub struct ExSledTree(sled::Tree);

/// A durable byte-keyed tree of the embedded store.
///
/// A `KvTree` must stay the only handle of its underlying tree: the
/// contents named below belong to the value, and a second handle would
/// change them behind the verifier's back.
#[verifier::external_body]
pub struct KvTree {
    tree: sled::Tree,
}

/// What the tree holds: a map from byte keys to byte values.
pub uninterp spec fn kv_contents(t: KvTree) -> Map<Seq<u8>, Seq<u8>>;

impl KvTree {
    /// Wraps one tree of the embedded store.
    #[verifier::external_body]
    pub fn new(tree: sled::Tree) -> (r: KvTree) {
        KvTree { tree }
    }

    /// Relies on sled::Tree::insert: on success the tree maps `key` to
    /// `value` and no other key changes.
    #[verifier::external_body]
    pub fn put(&mut self, key: &Vec<u8>, value: &Vec<u8>) -> (r: Result<(), CacheError>)
        ensures
            match r {
                Ok(_) => kv_contents(*final(self)) == kv_contents(*old(self)).insert(key@, value@),
                Err(e) => e == CacheError::StorageError,
            },
    {
        match self.tree.insert(key.as_slice(), value.as_slice()) {
            Ok(_) => Ok(()),
            Err(_) => Err(CacheError::StorageError),
        }
    }

    /// Relies on sled::Tree::get: on success it returns the value the tree
    /// maps `key` to, or nothing when the key is absent.
    #[verifier::external_body]
    pub fn get(&self, key: &Vec<u8>) -> (r: Result<Option<Vec<u8>>, CacheError>)
        ensures
            match r {
                Ok(Some(v)) => kv_contents(*self).contains_key(key@) && v@ == kv_contents(
                    *self,
                )[key@],
                Ok(None) => !kv_contents(*self).contains_key(key@),
                Err(e) => e == CacheError::StorageError,
            },
    {
        match self.tree.get(key.as_slice()) {
            Ok(Some(v)) => Ok(Some(v.to_vec())),
            Ok(None) => Ok(None),
            Err(_) => Err(CacheError::StorageError),
        }
    }
}

} // verus!
