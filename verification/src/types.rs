//! The plain data the rewards subsystem works on.
//!
//! Addresses are carried as their textual (base58) form.  Yield
//! percentages are carried as the bit pattern of their double-precision
//! value, so the verified bookkeeping treats them as opaque 64-bit words.

use vstd::prelude::*;

verus! {

/// The kind tag of one ledger-reported reward event.
#[derive(Clone, Copy, PartialEq, Eq, Structural, Debug)]
pub enum RewardKind {
    Staking,
    Voting,
    /// Any other or unspecified kind.
    Other,
}

/// One ledger-reported reward event.
#[derive(Debug)]
pub struct RawReward {
    /// Recipient address, textual form.
    pub pubkey: String,
    /// Signed lamport delta applied by the event.
    pub lamports: i64,
    /// Account balance in lamports after `lamports` was applied.
    pub post_balance: u64,
    /// Reward kind tag.
    pub kind: RewardKind,
}

/// Mathematical image of a `RawReward`.
pub ghost struct RawRewardV {
    pub pubkey: Seq<char>,
    pub lamports: i64,
    pub post_balance: u64,
    pub kind: RewardKind,
}

impl View for RawReward {
    type V = RawRewardV;

    open spec fn view(&self) -> RawRewardV {
        RawRewardV {
            pubkey: self.pubkey@,
            lamports: self.lamports,
            post_balance: self.post_balance,
            kind: self.kind,
        }
    }
}

impl Clone for RawReward {
    fn clone(&self) -> (r: Self)
        ensures
            r@ == self@,
    {
        RawReward {
            pubkey: self.pubkey.clone(),
            lamports: self.lamports,
            post_balance: self.post_balance,
            kind: self.kind,
        }
    }
}

/// The image of a sequence of rewards.
pub open spec fn reward_views(s: Seq<RawReward>) -> Seq<RawRewardV> {
    s.map_values(|r: RawReward| r@)
}

/// A staking-kind reward, with the recipient read as the stake account.
#[derive(Debug)]
pub struct StakingReward {
    /// Stake account address, textual form.
    pub pubkey: String,
    /// Signed lamport delta of the reward.
    pub lamports: i64,
    /// Account balance in lamports after `lamports` was applied.
    pub post_balance: u64,
}

/// Mathematical image of a `StakingReward`.
pub ghost struct StakingRewardV {
    pub pubkey: Seq<char>,
    pub lamports: i64,
    pub post_balance: u64,
}

impl View for StakingReward {
    type V = StakingRewardV;

    open spec fn view(&self) -> StakingRewardV {
        StakingRewardV {
            pubkey: self.pubkey@,
            lamports: self.lamports,
            post_balance: self.post_balance,
        }
    }
}

impl Clone for StakingReward {
    fn clone(&self) -> (r: Self)
        ensures
            r@ == self@,
    {
        StakingReward {
            pubkey: self.pubkey.clone(),
            lamports: self.lamports,
            post_balance: self.post_balance,
        }
    }
}

/// The image of a sequence of staking rewards.
pub open spec fn staking_views(s: Seq<StakingReward>) -> Seq<StakingRewardV> {
    s.map_values(|r: StakingReward| r@)
}

/// Aggregated view of one voter's voting reward.
#[derive(Debug)]
pub struct ValidatorReward {
    /// Voter address, textual form.
    pub voter: String,
    /// Account balance in lamports after the voting reward was applied.
    pub lamports: u64,
}

/// Mathematical image of a `ValidatorReward`.
pub ghost struct ValidatorRewardV {
    pub voter: Seq<char>,
    pub lamports: u64,
}

impl View for ValidatorReward {
    type V = ValidatorRewardV;

    open spec fn view(&self) -> ValidatorRewardV {
        ValidatorRewardV { voter: self.voter@, lamports: self.lamports }
    }
}

impl Clone for ValidatorReward {
    fn clone(&self) -> (r: Self)
        ensures
            r@ == self@,
    {
        ValidatorReward { voter: self.voter.clone(), lamports: self.lamports }
    }
}

/// The image of a sequence of validator rewards.
pub open spec fn validator_views(s: Seq<ValidatorReward>) -> Seq<ValidatorRewardV> {
    s.map_values(|r: ValidatorReward| r@)
}

/// One row of an epoch's per-voter yield table.
#[derive(Debug)]
pub struct ApyEntry {
    /// Voter address, textual form.
    pub voter: String,
    /// Bit pattern of the double-precision percent yield.
    pub percent_bits: u64,
}

/// Mathematical image of an `ApyEntry`.
pub ghost struct ApyEntryV {
    pub voter: Seq<char>,
    pub percent_bits: u64,
}

impl View for ApyEntry {
    type V = ApyEntryV;

    open spec fn view(&self) -> ApyEntryV {
        ApyEntryV { voter: self.voter@, percent_bits: self.percent_bits }
    }
}

impl Clone for ApyEntry {
    fn clone(&self) -> (r: Self)
        ensures
            r@ == self@,
    {
        ApyEntry { voter: self.voter.clone(), percent_bits: self.percent_bits }
    }
}

/// The image of a yield table.
pub open spec fn apy_views(s: Seq<ApyEntry>) -> Seq<ApyEntryV> {
    s.map_values(|e: ApyEntry| e@)
}

/// The descriptor of the chain's current epoch, as the node reports it.
#[derive(Clone, Copy, PartialEq, Eq, Structural, Debug)]
pub struct EpochInfo {
    /// Current epoch number.
    pub epoch: u64,
    /// Slots elapsed inside the current epoch.
    pub slot_index: u64,
    /// Number of slots in each epoch.
    pub slots_in_epoch: u64,
}

/// Per-voter result of one estimation pass.
#[derive(Debug)]
pub struct VoterApy {
    /// Voter address, textual form.
    pub voter: String,
    /// Bit pattern of the current epoch's percent yield, zero bits if absent.
    pub current_apy_bits: u64,
    /// Bit patterns of the percent yield over the lookback window,
    /// oldest epoch first, current epoch last; zero bits where absent.
    pub window_bits: Vec<u64>,
}

/// Mathematical image of a `VoterApy`.
pub ghost struct VoterApyV {
    pub voter: Seq<char>,
    pub current_apy_bits: u64,
    pub window_bits: Seq<u64>,
}

impl View for VoterApy {
    type V = VoterApyV;

    open spec fn view(&self) -> VoterApyV {
        VoterApyV {
            voter: self.voter@,
            current_apy_bits: self.current_apy_bits,
            window_bits: self.window_bits@,
        }
    }
}

/// The image of a sequence of per-voter results.
pub open spec fn voter_apy_views(s: Seq<VoterApy>) -> Seq<VoterApyV> {
    s.map_values(|v: VoterApy| v@)
}

} // verus!
