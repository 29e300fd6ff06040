//! The durable epoch cache.
//!
//! Two independently namespaced trees, each keyed by the 8-byte
//! big-endian epoch number: one holds the raw reward records of an
//! epoch, the other the per-voter yield table of an epoch.  Entries are
//! only ever written whole and never deleted; a later write for the same
//! epoch replaces the stored value as-is.

use vstd::prelude::*;
use crate::codec::{
    decode_apy_table, decode_rewards, encode_apy_table, encode_rewards, lemma_u64_be_injective,
    spec_dec_apy_value, spec_dec_rewards_value, spec_enc_apy_value, spec_enc_rewards_value,
    spec_u64_be, u64_to_be_bytes, apy_table_fits, rewards_fit,
};
use crate::errors::CacheError;
use crate::kv::{kv_contents, KvTree};
use crate::types::{apy_views, reward_views, ApyEntry, ApyEntryV, RawReward, RawRewardV};

verus! {

/// A caching database for epoch rewards and per-voter yield tables.
pub struct RewardsCache {
    /// Raw epoch reward records, keyed by epoch.
    pub epoch_rewards_tree: KvTree,
    /// Per-voter yield tables, keyed by epoch.
    pub account_tree: KvTree,
}

impl RewardsCache {
    /// The bytes stored under each epoch key of the rewards namespace.
    pub open spec fn rewards_map(self) -> Map<Seq<u8>, Seq<u8>> {
        kv_contents(self.epoch_rewards_tree)
    }

    /// The bytes stored under each epoch key of the yield-table namespace.
    pub open spec fn apy_map(self) -> Map<Seq<u8>, Seq<u8>> {
        kv_contents(self.account_tree)
    }

    /// Whether the rewards namespace holds an entry for `epoch`.
    pub open spec fn has_epoch_rewards(self, epoch: u64) -> bool {
        self.rewards_map().contains_key(spec_u64_be(epoch))
    }

    /// The records stored for `epoch`, if its entry decodes.
    pub open spec fn spec_epoch_rewards(self, epoch: u64) -> Option<Seq<RawRewardV>>
        recommends
            self.has_epoch_rewards(epoch),
    {
        spec_dec_rewards_value(self.rewards_map()[spec_u64_be(epoch)])
    }

    /// Whether the yield-table namespace holds an entry for `epoch`.
    pub open spec fn has_epoch_apy(self, epoch: u64) -> bool {
        self.apy_map().contains_key(spec_u64_be(epoch))
    }

    /// The yield table stored for `epoch`, if its entry decodes.
    pub open spec fn spec_epoch_apy(self, epoch: u64) -> Option<Seq<ApyEntryV>>
        recommends
            self.has_epoch_apy(epoch),
    {
        spec_dec_apy_value(self.apy_map()[spec_u64_be(epoch)])
    }

    /// Creates a new cache over the two namespaced trees.
    pub fn new(epoch_rewards_tree: KvTree, account_tree: KvTree) -> (r: Self)
        ensures
            r.epoch_rewards_tree == epoch_rewards_tree,
            r.account_tree == account_tree,
    {
        Self { epoch_rewards_tree, account_tree }
    }

    /// Stores the reward records of an epoch, replacing any earlier entry.
    pub fn add_epoch_rewards(&mut self, epoch: u64, rewards: &Vec<RawReward>) -> (r: Result<
        (),
        CacheError,
    >)
        ensures
            final(self).account_tree == old(self).account_tree,
            r is Ok ==> final(self).rewards_map() == old(self).rewards_map().insert(
                spec_u64_be(epoch),
                spec_enc_rewards_value(reward_views(rewards@)),
            ),
            r is Ok ==> final(self).has_epoch_rewards(epoch) && final(self).spec_epoch_rewards(
                epoch,
            ) == Some(reward_views(rewards@)),
            r is Err ==> r == Err::<(), CacheError>(CacheError::StorageError),
    {
        let key = u64_to_be_bytes(epoch);
        let value = encode_rewards(rewards);
        self.epoch_rewards_tree.put(&key, &value)
    }

    /// Returns the reward records stored for an epoch.
    ///
    /// `Ok(None)` means the epoch has no entry; a stored entry that does
    /// not decode is a serialization failure.
    pub fn get_epoch_rewards(&self, epoch: u64) -> (r: Result<Option<Vec<RawReward>>, CacheError>)
        ensures
            match r {
                Ok(Some(v)) => self.has_epoch_rewards(epoch) && self.spec_epoch_rewards(epoch)
                    == Some(reward_views(v@)),
                Ok(None) => !self.has_epoch_rewards(epoch),
                Err(CacheError::SerializationError) => self.has_epoch_rewards(epoch)
                    && self.spec_epoch_rewards(epoch) is None,
                Err(CacheError::StorageError) => true,
            },
    {
        let key = u64_to_be_bytes(epoch);
        match self.epoch_rewards_tree.get(&key) {
            Ok(Some(bytes)) => match decode_rewards(&bytes) {
                Some(v) => Ok(Some(v)),
                None => Err(CacheError::SerializationError),
            },
            Ok(None) => Ok(None),
            Err(e) => Err(e),
        }
    }

    /// Stores the per-voter yield table of an epoch, replacing any earlier
    /// entry whole: merging partial tables is the caller's duty.
    pub fn add_epoch_data(&mut self, epoch: u64, table: &Vec<ApyEntry>) -> (r: Result<
        (),
        CacheError,
    >)
        ensures
            final(self).epoch_rewards_tree == old(self).epoch_rewards_tree,
            r is Ok ==> final(self).apy_map() == old(self).apy_map().insert(
                spec_u64_be(epoch),
                spec_enc_apy_value(apy_views(table@)),
            ),
            r is Ok ==> final(self).has_epoch_apy(epoch) && final(self).spec_epoch_apy(epoch)
                == Some(apy_views(table@)),
            r is Err ==> r == Err::<(), CacheError>(CacheError::StorageError),
    {
        let key = u64_to_be_bytes(epoch);
        let value = encode_apy_table(table);
        self.account_tree.put(&key, &value)
    }

    /// Returns the per-voter yield table stored for an epoch.
    ///
    /// `Ok(None)` means the epoch has no entry; a stored entry that does
    /// not decode is a serialization failure.
    pub fn get_epoch_data(&self, epoch: u64) -> (r: Result<Option<Vec<ApyEntry>>, CacheError>)
        ensures
            match r {
                Ok(Some(v)) => self.has_epoch_apy(epoch) && self.spec_epoch_apy(epoch) == Some(
                    apy_views(v@),
                ),
                Ok(None) => !self.has_epoch_apy(epoch),
                Err(CacheError::SerializationError) => self.has_epoch_apy(epoch)
                    && self.spec_epoch_apy(epoch) is None,
                Err(CacheError::StorageError) => true,
            },
    {
        let key = u64_to_be_bytes(epoch);
        match self.account_tree.get(&key) {
            Ok(Some(bytes)) => match decode_apy_table(&bytes) {
                Some(v) => Ok(Some(v)),
                None => Err(CacheError::SerializationError),
            },
            Ok(None) => Ok(None),
            Err(e) => Err(e),
        }
    }
}

/// Law: reading an epoch's rewards right after a write for the same epoch
/// yields exactly the written records, and no other epoch's entry moves.
pub proof fn lemma_epoch_rewards_round_trip(
    pre: RewardsCache,
    post: RewardsCache,
    epoch: u64,
    rs: Seq<RawRewardV>,
)
    requires
        rewards_fit(rs),
        post.rewards_map() == pre.rewards_map().insert(
            spec_u64_be(epoch),
            spec_enc_rewards_value(rs),
        ),
    ensures
        post.has_epoch_rewards(epoch),
        post.spec_epoch_rewards(epoch) == Some(rs),
        forall|e2: u64|
            e2 != epoch ==> #[trigger] post.has_epoch_rewards(e2) == pre.has_epoch_rewards(e2),
        forall|e2: u64|
            e2 != epoch && pre.has_epoch_rewards(e2) ==> #[trigger] post.spec_epoch_rewards(e2)
                == pre.spec_epoch_rewards(e2),
{
    crate::codec::lemma_rewards_value_round_trip(rs);
    assert forall|e2: u64| e2 != epoch implies #[trigger] post.has_epoch_rewards(e2)
        == pre.has_epoch_rewards(e2) by {
        if spec_u64_be(e2) == spec_u64_be(epoch) {
            lemma_u64_be_injective(e2, epoch);
        }
    }
    assert forall|e2: u64| e2 != epoch && pre.has_epoch_rewards(e2) implies #[trigger]
    post.spec_epoch_rewards(e2) == pre.spec_epoch_rewards(e2) by {
        if spec_u64_be(e2) == spec_u64_be(epoch) {
            lemma_u64_be_injective(e2, epoch);
        }
    }
}

/// Law: reading an epoch's yield table right after a write for the same
/// epoch yields exactly the written table; a second write for the same
/// epoch replaces the first whole, with no merging.
pub proof fn lemma_epoch_apy_overwrite(
    c0: RewardsCache,
    c1: RewardsCache,
    c2: RewardsCache,
    epoch: u64,
    first: Seq<ApyEntryV>,
    second: Seq<ApyEntryV>,
)
    requires
        apy_table_fits(first),
        apy_table_fits(second),
        c1.apy_map() == c0.apy_map().insert(spec_u64_be(epoch), spec_enc_apy_value(first)),
        c2.apy_map() == c1.apy_map().insert(spec_u64_be(epoch), spec_enc_apy_value(second)),
    ensures
        c1.spec_epoch_apy(epoch) == Some(first),
        c2.spec_epoch_apy(epoch) == Some(second),
{
    crate::codec::lemma_apy_value_round_trip(first);
    crate::codec::lemma_apy_value_round_trip(second);
}

} // verus!
