//! The rewards monitor: one tick of metric collection, as a state machine.
//!
//! The surrounding process starts a tick with `export_rewards`, performs
//! the action the machine asks for (a node query, or the floating-point
//! yield evaluation) and hands the answer back through `step`, until the
//! machine ends the tick with `Done` or `Failed`.

use vstd::prelude::*;
use crate::caching::RewardsCache;
use crate::errors::{CacheError, MonitorError};
use crate::types::{
    apy_views, reward_views, staking_views, validator_views, voter_apy_views, ApyEntry, ApyEntryV,
    EpochInfo, RawReward, RawRewardV, RewardKind, StakingReward, StakingRewardV, ValidatorReward,
    ValidatorRewardV, VoterApy, VoterApyV,
};

verus! {

/// Slots allowed to elapse before an epoch's first block is demanded.
pub const SLOT_OFFSET: u64 = 20;

/// Epochs of the lookback window, inclusive of the current epoch.
pub const MAX_EPOCH_LOOKBACK: u64 = 5;

/// Bit pattern of the fixed epoch duration stub: three days per epoch.
pub const EPOCH_DURATION_DAYS_BITS: u64 = 0x4008_0000_0000_0000;

/// Account-lookup batch limit of the node's RPC interface.
pub const ACCOUNTS_CHUNK: usize = 100;

// ---------------------------------------------------------------------
// Address validity
// ---------------------------------------------------------------------

/// Whether the characters form a well-formed account address.
pub uninterp spec fn pubkey_valid(s: Seq<char>) -> bool;

/// Relies on solana_pubkey::Pubkey's string parse (fixed-width base58
/// decode): whether an address parses depends on its characters alone.
#[verifier::external_body]
pub fn is_valid_pubkey(s: &String) -> (r: bool)
    ensures
        r == pubkey_valid(s@),
{
    s.as_str().parse::<solana_pubkey::Pubkey>().is_ok()
}

/// All record addresses of an epoch's reward list are well-formed.
pub open spec fn spec_all_addresses_valid(rs: Seq<RawRewardV>) -> bool {
    forall|i: int| 0 <= i < rs.len() ==> pubkey_valid(#[trigger] rs[i].pubkey)
}

/// Checks every record address of an epoch's reward list.
pub fn check_addresses(rs: &Vec<RawReward>) -> (r: bool)
    ensures
        r == spec_all_addresses_valid(reward_views(rs@)),
{
    let n: usize = rs.len();
    let mut i: usize = 0;
    while i < n
        invariant
            n == rs@.len(),
            0 <= i <= n,
            forall|j: int| 0 <= j < i ==> pubkey_valid(#[trigger] reward_views(rs@)[j].pubkey),
        decreases n - i,
    {
        if !is_valid_pubkey(&rs[i].pubkey) {
            proof {
                assert(reward_views(rs@)[i as int].pubkey == rs@[i as int]@.pubkey);
            }
            return false;
        }
        i = i + 1;
    }
    true
}

// ---------------------------------------------------------------------
// Staking filter and validator aggregation
// ---------------------------------------------------------------------

/// The staking-kind records of a reward list whose addresses are
/// well-formed, recipient read as the stake account; built front to back.
pub open spec fn spec_staking_rewards_from(rs: Seq<RawRewardV>, i: int) -> Seq<StakingRewardV>
    decreases rs.len() - i when 0 <= i <= rs.len()
{
    if i >= rs.len() {
        seq![]
    } else {
        let rest = spec_staking_rewards_from(rs, i + 1);
        if rs[i].kind == RewardKind::Staking && pubkey_valid(rs[i].pubkey) {
            seq![
                StakingRewardV {
                    pubkey: rs[i].pubkey,
                    lamports: rs[i].lamports,
                    post_balance: rs[i].post_balance,
                },
            ] + rest
        } else {
            rest
        }
    }
}

/// The staking rewards of an epoch's reward list.
pub open spec fn spec_staking_rewards(rs: Seq<RawRewardV>) -> Seq<StakingRewardV> {
    spec_staking_rewards_from(rs, 0)
}

/// Filters a reward list to its staking records; records whose address
/// does not parse are silently dropped.
pub fn filter_staking_rewards(rs: &Vec<RawReward>) -> (r: Vec<StakingReward>)
    ensures
        staking_views(r@) == spec_staking_rewards(reward_views(rs@)),
{
    let n: usize = rs.len();
    let mut out: Vec<StakingReward> = Vec::new();
    let mut i: usize = 0;
    while i < n
        invariant
            n == rs@.len(),
            0 <= i <= n,
            staking_views(out@) + spec_staking_rewards_from(reward_views(rs@), i as int)
                =~= spec_staking_rewards(reward_views(rs@)),
        decreases n - i,
    {
        let keep: bool = match rs[i].kind {
            RewardKind::Staking => is_valid_pubkey(&rs[i].pubkey),
            _ => false,
        };
        let ghost before = out@;
        if keep {
            out.push(
                StakingReward {
                    pubkey: rs[i].pubkey.clone(),
                    lamports: rs[i].lamports,
                    post_balance: rs[i].post_balance,
                },
            );
        }
        proof {
            let rv = reward_views(rs@);
            assert(rv[i as int] == rs@[i as int]@);
            if keep {
                assert(staking_views(out@) =~= staking_views(before).push(
                    StakingRewardV {
                        pubkey: rv[i as int].pubkey,
                        lamports: rv[i as int].lamports,
                        post_balance: rv[i as int].post_balance,
                    },
                ));
                assert(staking_views(before).push(
                    StakingRewardV {
                        pubkey: rv[i as int].pubkey,
                        lamports: rv[i as int].lamports,
                        post_balance: rv[i as int].post_balance,
                    },
                ) + spec_staking_rewards_from(rv, i + 1) =~= staking_views(before) + (seq![
                    StakingRewardV {
                        pubkey: rv[i as int].pubkey,
                        lamports: rv[i as int].lamports,
                        post_balance: rv[i as int].post_balance,
                    },
                ] + spec_staking_rewards_from(rv, i + 1)));
            }
        }
        i = i + 1;
    }
    proof {
        assert(staking_views(out@) + spec_staking_rewards_from(reward_views(rs@), n as int)
            =~= staking_views(out@));
    }
    out
}

/// The aggregated voting reward of one record.
pub open spec fn spec_vr_of(r: RawRewardV) -> ValidatorRewardV {
    ValidatorRewardV { voter: r.pubkey, lamports: r.post_balance }
}

/// Whether an equal (voter, balance) pair stands among the voting records
/// before index `i`.
pub open spec fn spec_vr_seen_before(rs: Seq<RawRewardV>, i: int) -> bool {
    exists|j: int|
        0 <= j < i && #[trigger] rs[j].kind == RewardKind::Voting && spec_vr_of(rs[j])
            == spec_vr_of(rs[i])
}

/// The voting records of a reward list, deduplicated by (voter, balance)
/// pair equality, first occurrence kept; built front to back.
pub open spec fn spec_validator_rewards_from(rs: Seq<RawRewardV>, i: int) -> Seq<ValidatorRewardV>
    decreases rs.len() - i when 0 <= i <= rs.len()
{
    if i >= rs.len() {
        seq![]
    } else {
        let rest = spec_validator_rewards_from(rs, i + 1);
        if rs[i].kind == RewardKind::Voting && !spec_vr_seen_before(rs, i) {
            seq![spec_vr_of(rs[i])] + rest
        } else {
            rest
        }
    }
}

/// The aggregated validator rewards of an epoch's reward list.
pub open spec fn spec_validator_rewards(rs: Seq<RawRewardV>) -> Seq<ValidatorRewardV> {
    spec_validator_rewards_from(rs, 0)
}

/// Aggregates the voting records of a reward list, collapsing records
/// that agree on voter and post-balance into one entry.
pub fn calculate_validator_rewards(rs: &Vec<RawReward>) -> (r: Vec<ValidatorReward>)
    ensures
        validator_views(r@) == spec_validator_rewards(reward_views(rs@)),
{
    let n: usize = rs.len();
    let mut out: Vec<ValidatorReward> = Vec::new();
    let mut i: usize = 0;
    while i < n
        invariant
            n == rs@.len(),
            0 <= i <= n,
            validator_views(out@) + spec_validator_rewards_from(reward_views(rs@), i as int)
                =~= spec_validator_rewards(reward_views(rs@)),
        decreases n - i,
    {
        let ghost rv = reward_views(rs@);
        let is_voting: bool = match rs[i].kind {
            RewardKind::Voting => true,
            _ => false,
        };
        if is_voting {
            // was an equal pair already reported by an earlier voting record?
            let mut seen: bool = false;
            let mut j: usize = 0;
            while j < i
                invariant
                    i < rs@.len(),
                    0 <= j <= i,
                    rv == reward_views(rs@),
                    seen ==> spec_vr_seen_before(rv, i as int),
                    !seen ==> forall|t: int|
                        0 <= t < j ==> !(#[trigger] rv[t].kind == RewardKind::Voting && spec_vr_of(
                            rv[t],
                        ) == spec_vr_of(rv[i as int])),
                decreases i - j,
            {
                if !seen {
                    let tj_voting: bool = match rs[j].kind {
                        RewardKind::Voting => true,
                        _ => false,
                    };
                    if tj_voting && rs[j].pubkey == rs[i].pubkey && rs[j].post_balance == rs[
                        i].post_balance {
                        seen = true;
                        proof {
                            assert(rv[j as int].kind == RewardKind::Voting && spec_vr_of(
                                rv[j as int],
                            ) == spec_vr_of(rv[i as int]));
                        }
                    }
                }
                j = j + 1;
            }
            proof {
                if !seen {
                    assert(!spec_vr_seen_before(rv, i as int));
                }
            }
            if !seen {
                let ghost entry_out = out@;
                out.push(
                    ValidatorReward { voter: rs[i].pubkey.clone(), lamports: rs[i].post_balance },
                );
                proof {
                    assert(validator_views(out@) =~= validator_views(entry_out).push(
                        spec_vr_of(rv[i as int]),
                    ));
                    assert(validator_views(entry_out).push(spec_vr_of(rv[i as int]))
                        + spec_validator_rewards_from(rv, i + 1) =~= validator_views(entry_out) + (
                    seq![spec_vr_of(rv[i as int])] + spec_validator_rewards_from(rv, i + 1)));
                }
            }
        }
        i = i + 1;
    }
    proof {
        assert(validator_views(out@) + spec_validator_rewards_from(reward_views(rs@), n as int)
            =~= validator_views(out@));
    }
    out
}


// ---------------------------------------------------------------------
// String sets and yield-table lookups
// ---------------------------------------------------------------------

/// The images of a sequence of strings.
pub open spec fn str_views(s: Seq<String>) -> Seq<Seq<char>> {
    s.map_values(|x: String| x@)
}

/// Whether the seen-voter set holds `v`.
fn seen_contains(seen: &Vec<String>, v: &String) -> (r: bool)
    ensures
        r == str_views(seen@).contains(v@),
{
    let n: usize = seen.len();
    let mut i: usize = 0;
    while i < n
        invariant
            n == seen@.len(),
            0 <= i <= n,
            forall|j: int| 0 <= j < i ==> #[trigger] str_views(seen@)[j] != v@,
        decreases n - i,
    {
        if seen[i] == *v {
            proof {
                assert(str_views(seen@)[i as int] == v@);
            }
            return true;
        }
        i = i + 1;
    }
    proof {
        if str_views(seen@).contains(v@) {
            let j = choose|j: int|
                0 <= j < str_views(seen@).len() && str_views(seen@)[j] == v@;
            assert(false);
        }
    }
    false
}

/// Whether a yield table holds a row for address `v`.
pub open spec fn spec_table_has(es: Seq<ApyEntryV>, v: Seq<char>) -> bool {
    exists|i: int| 0 <= i < es.len() && #[trigger] es[i].voter == v
}

/// Looks an address up among a yield table's rows.
fn table_has_voter(es: &Vec<ApyEntry>, v: &String) -> (r: bool)
    ensures
        r == spec_table_has(apy_views(es@), v@),
{
    let n: usize = es.len();
    let mut i: usize = 0;
    while i < n
        invariant
            n == es@.len(),
            0 <= i <= n,
            forall|j: int| 0 <= j < i ==> #[trigger] apy_views(es@)[j].voter != v@,
        decreases n - i,
    {
        if es[i].voter == *v {
            proof {
                assert(apy_views(es@)[i as int].voter == v@);
            }
            return true;
        }
        i = i + 1;
    }
    false
}

/// Index of the first row keyed by `v`, or a negative number.
pub open spec fn spec_table_find(es: Seq<ApyEntryV>, v: Seq<char>) -> int
    decreases es.len(),
{
    if es.len() == 0 {
        -1
    } else if es[0].voter == v {
        0
    } else {
        let r = spec_table_find(es.drop_first(), v);
        if r < 0 {
            -1
        } else {
            r + 1
        }
    }
}

/// What `spec_table_find` returns: the first matching index, if any.
pub proof fn lemma_table_find(es: Seq<ApyEntryV>, v: Seq<char>)
    ensures
        -1 <= spec_table_find(es, v) < es.len(),
        spec_table_find(es, v) >= 0 ==> es[spec_table_find(es, v)].voter == v,
        forall|k: int|
            0 <= k < spec_table_find(es, v) ==> #[trigger] es[k].voter != v,
        spec_table_find(es, v) < 0 ==> forall|k: int|
            0 <= k < es.len() ==> #[trigger] es[k].voter != v,
    decreases es.len(),
{
    if es.len() != 0 && es[0].voter != v {
        lemma_table_find(es.drop_first(), v);
        let r = spec_table_find(es.drop_first(), v);
        assert(forall|k: int|
            1 <= k < es.len() ==> #[trigger] es[k] == es.drop_first()[k - 1]);
    }
}

/// One overwriting insert into a voter-keyed yield table: the first row
/// keyed by the voter is replaced, or a new row is appended.
pub open spec fn spec_pka_insert(es: Seq<ApyEntryV>, v: Seq<char>, bits: u64) -> Seq<ApyEntryV> {
    let i = spec_table_find(es, v);
    if i < 0 {
        es.push(ApyEntryV { voter: v, percent_bits: bits })
    } else {
        es.update(i, ApyEntryV { voter: v, percent_bits: bits })
    }
}

/// Removing an element and inserting another at its place is an update.
proof fn lemma_remove_insert<T>(s: Seq<T>, j: int, x: T)
    requires
        0 <= j < s.len(),
    ensures
        s.remove(j).insert(j, x) == s.update(j, x),
{
    assert(s.remove(j).insert(j, x) =~= s.update(j, x));
}

/// Performs one overwriting insert into a voter-keyed yield table.
fn pka_insert(es: &mut Vec<ApyEntry>, v: &String, bits: u64)
    ensures
        apy_views(final(es)@) == spec_pka_insert(apy_views(old(es)@), v@, bits),
{
    proof {
        lemma_table_find(apy_views(es@), v@);
    }
    let n: usize = es.len();
    let mut i: usize = 0;
    while i < n
        invariant
            n == es@.len(),
            0 <= i <= n,
            es@ == old(es)@,
            forall|j: int| 0 <= j < i ==> #[trigger] apy_views(es@)[j].voter != v@,
        decreases n - i,
    {
        if es[i].voter == *v {
            proof {
                assert(apy_views(es@)[i as int].voter == v@);
                lemma_table_find(apy_views(es@), v@);
                assert(spec_table_find(apy_views(es@), v@) == i as int) by {
                    let f = spec_table_find(apy_views(es@), v@);
                    if f < i as int {
                        assert(apy_views(es@)[f].voter != v@);
                    }
                    if f > i as int {
                        assert(apy_views(es@)[i as int].voter != v@);
                    }
                }
            }
            let ghost before = es@;
            let row = ApyEntry { voter: v.clone(), percent_bits: bits };
            let _old_row = es.remove(i);
            es.insert(i, row);
            proof {
                lemma_remove_insert(before, i as int, es@[i as int]);
                assert(apy_views(es@) =~= spec_pka_insert(apy_views(before), v@, bits));
            }
            return ;
        }
        i = i + 1;
    }
    proof {
        lemma_table_find(apy_views(es@), v@);
        assert(spec_table_find(apy_views(es@), v@) < 0) by {
            let f = spec_table_find(apy_views(es@), v@);
            if f >= 0 {
                assert(apy_views(es@)[f].voter != v@);
            }
        }
    }
    let ghost before = es@;
    es.push(ApyEntry { voter: v.clone(), percent_bits: bits });
    proof {
        assert(apy_views(es@) =~= spec_pka_insert(apy_views(before), v@, bits));
    }
}

// ---------------------------------------------------------------------
// Batched account lookups: credit decisions of the current-epoch pass
// ---------------------------------------------------------------------

/// What one queried stake account came back as.
pub enum AccountOutcome {
    /// The node knows no account under the address.
    Missing,
    /// The account's data did not decode as a stake delegation record.
    DecodeFailed,
    /// The account holds no delegation.
    Undelegated,
    /// The account delegates to `voter`.
    Delegated { voter: String },
}

/// Mathematical image of an `AccountOutcome`.
pub ghost enum AccountOutcomeV {
    Missing,
    DecodeFailed,
    Undelegated,
    Delegated { voter: Seq<char> },
}

impl View for AccountOutcome {
    type V = AccountOutcomeV;

    open spec fn view(&self) -> AccountOutcomeV {
        match self {
            AccountOutcome::Missing => AccountOutcomeV::Missing,
            AccountOutcome::DecodeFailed => AccountOutcomeV::DecodeFailed,
            AccountOutcome::Undelegated => AccountOutcomeV::Undelegated,
            AccountOutcome::Delegated { voter } => AccountOutcomeV::Delegated { voter: voter@ },
        }
    }
}

/// The images of a sequence of account outcomes.
pub open spec fn outcome_views(s: Seq<AccountOutcome>) -> Seq<AccountOutcomeV> {
    s.map_values(|x: AccountOutcome| x@)
}

/// Inputs of one yield evaluation the surrounding process performs.
#[derive(Clone, Copy, PartialEq, Eq, Structural, Debug)]
pub struct ApyInput {
    /// Unsigned image of the reward's lamport delta.
    pub lamports: u64,
    /// Account balance in lamports after the reward was applied.
    pub post_balance: u64,
}

/// One pending insert into the current epoch's yield table.
pub struct PkaInsert {
    /// Voter address the delegation credits.
    pub voter: String,
    /// Whether this delegation is the one credited for the voter.
    pub credited: bool,
    /// Index into the pending yield evaluations, when credited.
    pub credit_idx: usize,
}

/// Mathematical image of a `PkaInsert`.
pub ghost struct PkaInsertV {
    pub voter: Seq<char>,
    pub credited: bool,
    pub credit_idx: int,
}

impl View for PkaInsert {
    type V = PkaInsertV;

    open spec fn view(&self) -> PkaInsertV {
        PkaInsertV { voter: self.voter@, credited: self.credited, credit_idx: self.credit_idx as int }
    }
}

/// The images of a sequence of pending inserts.
pub open spec fn insert_views(s: Seq<PkaInsert>) -> Seq<PkaInsertV> {
    s.map_values(|x: PkaInsert| x@)
}

/// Walks one batch of account outcomes, paired with the queried staking
/// rewards, deciding which delegation credits which voter: a delegation
/// is credited exactly when its voter was not yet seen in this pass and
/// its reward delta is strictly positive; every credited voter joins the
/// seen set at once.  A decode failure fails the pass.
pub open spec fn spec_process_chunk(
    chunk: Seq<StakingRewardV>,
    outs: Seq<AccountOutcomeV>,
    i: int,
    seen: Seq<Seq<char>>,
    inserts: Seq<PkaInsertV>,
    inputs: Seq<ApyInput>,
) -> Option<(Seq<Seq<char>>, Seq<PkaInsertV>, Seq<ApyInput>)>
    decreases chunk.len() + outs.len() - i when 0 <= i
{
    if i >= chunk.len() || i >= outs.len() {
        Some((seen, inserts, inputs))
    } else {
        match outs[i] {
            AccountOutcomeV::Missing => spec_process_chunk(chunk, outs, i + 1, seen, inserts, inputs),
            AccountOutcomeV::DecodeFailed => None,
            AccountOutcomeV::Undelegated => spec_process_chunk(
                chunk,
                outs,
                i + 1,
                seen,
                inserts,
                inputs,
            ),
            AccountOutcomeV::Delegated { voter } => {
                if !seen.contains(voter) && chunk[i].lamports > 0 {
                    spec_process_chunk(
                        chunk,
                        outs,
                        i + 1,
                        seen.push(voter),
                        inserts.push(
                            PkaInsertV { voter, credited: true, credit_idx: inputs.len() as int },
                        ),
                        inputs.push(
                            ApyInput {
                                lamports: chunk[i].lamports as u64,
                                post_balance: chunk[i].post_balance,
                            },
                        ),
                    )
                } else {
                    spec_process_chunk(
                        chunk,
                        outs,
                        i + 1,
                        seen,
                        inserts.push(PkaInsertV { voter, credited: false, credit_idx: 0 }),
                        inputs,
                    )
                }
            },
        }
    }
}

/// Processes one batch of account outcomes against its queried rewards,
/// updating the pass-wide seen-voter set; the surrounding process pairs
/// outcomes with the addresses it was asked for, extra entries of either
/// side are ignored.
pub fn process_chunk(
    chunk: &Vec<StakingReward>,
    outs: &Vec<AccountOutcome>,
    seen: &mut Vec<String>,
) -> (r: Result<(Vec<PkaInsert>, Vec<ApyInput>), MonitorError>)
    ensures
        match r {
            Ok(p) => spec_process_chunk(
                staking_views(chunk@),
                outcome_views(outs@),
                0,
                str_views(old(seen)@),
                seq![],
                seq![],
            ) == Some((str_views(final(seen)@), insert_views(p.0@), p.1@)),
            Err(e) => e == MonitorError::SerializationError && spec_process_chunk(
                staking_views(chunk@),
                outcome_views(outs@),
                0,
                str_views(old(seen)@),
                seq![],
                seq![],
            ) is None,
        },
{
    let n: usize = if chunk.len() < outs.len() {
        chunk.len()
    } else {
        outs.len()
    };
    let mut inserts: Vec<PkaInsert> = Vec::new();
    let mut inputs: Vec<ApyInput> = Vec::new();
    proof {
        assert(insert_views(inserts@) =~= Seq::<PkaInsertV>::empty());
        assert(inputs@ =~= Seq::<ApyInput>::empty());
    }
    let mut i: usize = 0;
    while i < n
        invariant
            n <= chunk@.len(),
            n <= outs@.len(),
            n == chunk@.len() || n == outs@.len(),
            0 <= i <= n,
            spec_process_chunk(
                staking_views(chunk@),
                outcome_views(outs@),
                0,
                str_views(old(seen)@),
                seq![],
                seq![],
            ) == spec_process_chunk(
                staking_views(chunk@),
                outcome_views(outs@),
                i as int,
                str_views(seen@),
                insert_views(inserts@),
                inputs@,
            ),
        decreases n - i,
    {
        let ghost gseen = str_views(seen@);
        let ghost ginserts = insert_views(inserts@);
        let ghost ginputs = inputs@;
        match &outs[i] {
            AccountOutcome::Missing => {},
            AccountOutcome::DecodeFailed => {
                proof {
                    assert(outcome_views(outs@)[i as int] == AccountOutcomeV::DecodeFailed);
                }
                return Err(MonitorError::SerializationError);
            },
            AccountOutcome::Undelegated => {},
            AccountOutcome::Delegated { voter } => {
                let positive: bool = chunk[i].lamports > 0;
                let fresh: bool = !seen_contains(seen, voter);
                proof {
                    assert(outcome_views(outs@)[i as int] == AccountOutcomeV::Delegated {
                        voter: voter@,
                    });
                    assert(staking_views(chunk@)[i as int] == chunk@[i as int]@);
                }
                if fresh && positive {
                    let idx: usize = inputs.len();
                    seen.push(voter.clone());
                    inputs.push(
                        ApyInput {
                            lamports: chunk[i].lamports as u64,
                            post_balance: chunk[i].post_balance,
                        },
                    );
                    inserts.push(
                        PkaInsert { voter: voter.clone(), credited: true, credit_idx: idx },
                    );
                    proof {
                        assert(str_views(seen@) =~= gseen.push(voter@));
                        assert(insert_views(inserts@) =~= ginserts.push(
                            PkaInsertV { voter: voter@, credited: true, credit_idx: ginputs.len() as int },
                        ));
                        assert(inputs@ =~= ginputs.push(
                            ApyInput {
                                lamports: chunk@[i as int]@.lamports as u64,
                                post_balance: chunk@[i as int]@.post_balance,
                            },
                        ));
                    }
                } else {
                    inserts.push(
                        PkaInsert { voter: voter.clone(), credited: false, credit_idx: 0 },
                    );
                    proof {
                        assert(insert_views(inserts@) =~= ginserts.push(
                            PkaInsertV { voter: voter@, credited: false, credit_idx: 0 },
                        ));
                    }
                }
            },
        }
        i = i + 1;
    }
    proof {
        assert(spec_process_chunk(
            staking_views(chunk@),
            outcome_views(outs@),
            n as int,
            str_views(seen@),
            insert_views(inserts@),
            inputs@,
        ) == Some((str_views(seen@), insert_views(inserts@), inputs@)));
    }
    Ok((inserts, inputs))
}

/// Applies one batch's pending inserts to the accumulated yield table,
/// in account order: a credited delegation contributes the percent the
/// surrounding process evaluated for it, any other delegation of the
/// batch contributes a zero percent.
pub open spec fn spec_apply_inserts(
    es: Seq<ApyEntryV>,
    inserts: Seq<PkaInsertV>,
    percents: Seq<u64>,
) -> Seq<ApyEntryV>
    decreases inserts.len(),
{
    if inserts.len() == 0 {
        es
    } else {
        let ins = inserts[0];
        let bits = if ins.credited {
            percents[ins.credit_idx]
        } else {
            0u64
        };
        spec_apply_inserts(spec_pka_insert(es, ins.voter, bits), inserts.drop_first(), percents)
    }
}

/// Folds one batch's pending inserts into the accumulated yield table.
pub fn apply_inserts(es: &mut Vec<ApyEntry>, inserts: &Vec<PkaInsert>, percents: &Vec<u64>)
    requires
        forall|k: int|
            0 <= k < inserts@.len() && (#[trigger] inserts@[k]@).credited
                ==> inserts@[k]@.credit_idx < percents@.len(),
    ensures
        apy_views(final(es)@) == spec_apply_inserts(
            apy_views(old(es)@),
            insert_views(inserts@),
            percents@,
        ),
{
    let n: usize = inserts.len();
    proof {
        assert(insert_views(inserts@).skip(0) =~= insert_views(inserts@));
    }
    let mut i: usize = 0;
    while i < n
        invariant
            n == inserts@.len(),
            0 <= i <= n,
            forall|k: int|
                0 <= k < inserts@.len() && (#[trigger] inserts@[k]@).credited
                    ==> inserts@[k]@.credit_idx < percents@.len(),
            spec_apply_inserts(apy_views(old(es)@), insert_views(inserts@), percents@)
                == spec_apply_inserts(
                apy_views(es@),
                insert_views(inserts@).skip(i as int),
                percents@,
            ),
        decreases n - i,
    {
        proof {
            assert(insert_views(inserts@).skip(i as int)[0] == inserts@[i as int]@);
            assert(insert_views(inserts@).skip(i as int).drop_first() =~= insert_views(
                inserts@,
            ).skip(i + 1));
        }
        let bits: u64 = if inserts[i].credited {
            percents[inserts[i].credit_idx]
        } else {
            0
        };
        pka_insert(es, &inserts[i].voter, bits);
        i = i + 1;
    }
    proof {
        assert(insert_views(inserts@).skip(n as int) =~= Seq::<PkaInsertV>::empty());
    }
}

/// Every credited insert points at one of the pending yield evaluations.
pub proof fn lemma_process_chunk_credit_idx(
    chunk: Seq<StakingRewardV>,
    outs: Seq<AccountOutcomeV>,
    i: int,
    seen: Seq<Seq<char>>,
    inserts: Seq<PkaInsertV>,
    inputs: Seq<ApyInput>,
    seen1: Seq<Seq<char>>,
    inserts1: Seq<PkaInsertV>,
    inputs1: Seq<ApyInput>,
)
    requires
        0 <= i,
        forall|k: int|
            0 <= k < inserts.len() && (#[trigger] inserts[k]).credited ==> 0 <= inserts[k].credit_idx
                < inputs.len(),
        spec_process_chunk(chunk, outs, i, seen, inserts, inputs) == Some(
            (seen1, inserts1, inputs1),
        ),
    ensures
        forall|k: int|
            0 <= k < inserts1.len() && (#[trigger] inserts1[k]).credited ==> 0
                <= inserts1[k].credit_idx < inputs1.len(),
    decreases chunk.len() + outs.len() - i,
{
    if i >= chunk.len() || i >= outs.len() {
    } else {
        match outs[i] {
            AccountOutcomeV::Missing => {
                lemma_process_chunk_credit_idx(
                    chunk, outs, i + 1, seen, inserts, inputs, seen1, inserts1, inputs1,
                );
            },
            AccountOutcomeV::DecodeFailed => {},
            AccountOutcomeV::Undelegated => {
                lemma_process_chunk_credit_idx(
                    chunk, outs, i + 1, seen, inserts, inputs, seen1, inserts1, inputs1,
                );
            },
            AccountOutcomeV::Delegated { voter } => {
                if !seen.contains(voter) && chunk[i].lamports > 0 {
                    let inserts2 = inserts.push(
                        PkaInsertV { voter, credited: true, credit_idx: inputs.len() as int },
                    );
                    let inputs2 = inputs.push(
                        ApyInput {
                            lamports: chunk[i].lamports as u64,
                            post_balance: chunk[i].post_balance,
                        },
                    );
                    assert forall|k: int|
                        0 <= k < inserts2.len() && (#[trigger] inserts2[k]).credited implies 0
                        <= inserts2[k].credit_idx < inputs2.len() by {
                        if k < inserts.len() {
                            assert(inserts2[k] == inserts[k]);
                        } else {
                            assert(inserts2[k].credit_idx == inputs.len() as int);
                        }
                    }
                    lemma_process_chunk_credit_idx(
                        chunk,
                        outs,
                        i + 1,
                        seen.push(voter),
                        inserts2,
                        inputs2,
                        seen1,
                        inserts1,
                        inputs1,
                    );
                } else {
                    let inserts2 = inserts.push(
                        PkaInsertV { voter, credited: false, credit_idx: 0 },
                    );
                    assert forall|k: int|
                        0 <= k < inserts2.len() && (#[trigger] inserts2[k]).credited implies 0
                        <= inserts2[k].credit_idx < inputs.len() by {
                        assert(inserts2[k] == inserts[k]);
                    }
                    lemma_process_chunk_credit_idx(
                        chunk, outs, i + 1, seen, inserts2, inputs, seen1, inserts1, inputs1,
                    );
                }
            },
        }
    }
}

/// Law: of several delegations to the same voter within one estimation
/// pass, only the first with a strictly positive reward delta is
/// credited with its evaluated percent; each of the others contributes a
/// zero percent, whatever its own reward amount.
pub proof fn lemma_seen_voter_dedup(
    chunk: Seq<StakingRewardV>,
    outs: Seq<AccountOutcomeV>,
    i: int,
    seen: Seq<Seq<char>>,
    inserts: Seq<PkaInsertV>,
    inputs: Seq<ApyInput>,
    seen1: Seq<Seq<char>>,
    inserts1: Seq<PkaInsertV>,
    inputs1: Seq<ApyInput>,
)
    requires
        0 <= i,
        forall|k: int|
            0 <= k < inserts.len() && (#[trigger] inserts[k]).credited ==> seen.contains(
                inserts[k].voter,
            ),
        forall|k1: int, k2: int|
            0 <= k1 < k2 < inserts.len() && (#[trigger] inserts[k1]).voter == (
            #[trigger] inserts[k2]).voter && inserts[k1].credited ==> !inserts[k2].credited,
        spec_process_chunk(chunk, outs, i, seen, inserts, inputs) == Some(
            (seen1, inserts1, inputs1),
        ),
    ensures
        forall|k: int|
            0 <= k < inserts1.len() && (#[trigger] inserts1[k]).credited ==> seen1.contains(
                inserts1[k].voter,
            ),
        forall|k1: int, k2: int|
            0 <= k1 < k2 < inserts1.len() && (#[trigger] inserts1[k1]).voter == (
            #[trigger] inserts1[k2]).voter && inserts1[k1].credited ==> !inserts1[k2].credited,
    decreases chunk.len() + outs.len() - i,
{
    if i >= chunk.len() || i >= outs.len() {
    } else {
        match outs[i] {
            AccountOutcomeV::Missing => {
                lemma_seen_voter_dedup(
                    chunk, outs, i + 1, seen, inserts, inputs, seen1, inserts1, inputs1,
                );
            },
            AccountOutcomeV::DecodeFailed => {},
            AccountOutcomeV::Undelegated => {
                lemma_seen_voter_dedup(
                    chunk, outs, i + 1, seen, inserts, inputs, seen1, inserts1, inputs1,
                );
            },
            AccountOutcomeV::Delegated { voter } => {
                if !seen.contains(voter) && chunk[i].lamports > 0 {
                    let seen2 = seen.push(voter);
                    let inserts2 = inserts.push(
                        PkaInsertV { voter, credited: true, credit_idx: inputs.len() as int },
                    );
                    let inputs2 = inputs.push(
                        ApyInput {
                            lamports: chunk[i].lamports as u64,
                            post_balance: chunk[i].post_balance,
                        },
                    );
                    assert forall|k: int|
                        0 <= k < inserts2.len() && (#[trigger] inserts2[k]).credited implies
                    seen2.contains(inserts2[k].voter) by {
                        if k < inserts.len() {
                            assert(inserts2[k] == inserts[k]);
                            assert(seen.contains(inserts[k].voter));
                            let t = choose|t: int|
                                0 <= t < seen.len() && seen[t] == inserts[k].voter;
                            assert(seen2[t] == inserts[k].voter);
                        } else {
                            assert(seen2[seen.len() as int] == voter);
                        }
                    }
                    assert forall|k1: int, k2: int|
                        0 <= k1 < k2 < inserts2.len() && (#[trigger] inserts2[k1]).voter == (
                        #[trigger] inserts2[k2]).voter && inserts2[k1].credited implies
                    !inserts2[k2].credited by {
                        if k2 < inserts.len() {
                            assert(inserts2[k1] == inserts[k1] && inserts2[k2] == inserts[k2]);
                        } else {
                            // the new insert is credited only because its voter was unseen
                            assert(inserts2[k2].voter == voter);
                            if inserts[k1].credited {
                                assert(seen.contains(inserts[k1].voter));
                                assert(inserts2[k1] == inserts[k1]);
                                assert(!seen.contains(voter));
                            }
                        }
                    }
                    lemma_seen_voter_dedup(
                        chunk, outs, i + 1, seen2, inserts2, inputs2, seen1, inserts1, inputs1,
                    );
                } else {
                    let inserts2 = inserts.push(
                        PkaInsertV { voter, credited: false, credit_idx: 0 },
                    );
                    assert forall|k: int|
                        0 <= k < inserts2.len() && (#[trigger] inserts2[k]).credited implies
                    seen.contains(inserts2[k].voter) by {
                        assert(inserts2[k] == inserts[k]);
                    }
                    assert forall|k1: int, k2: int|
                        0 <= k1 < k2 < inserts2.len() && (#[trigger] inserts2[k1]).voter == (
                        #[trigger] inserts2[k2]).voter && inserts2[k1].credited implies
                    !inserts2[k2].credited by {
                        if k2 < inserts.len() {
                            assert(inserts2[k1] == inserts[k1] && inserts2[k2] == inserts[k2]);
                        } else {
                            assert(!inserts2[k2].credited);
                        }
                    }
                    lemma_seen_voter_dedup(
                        chunk, outs, i + 1, seen, inserts2, inputs, seen1, inserts1, inputs1,
                    );
                }
            },
        }
    }
}


// ---------------------------------------------------------------------
// Per-voter window rows
// ---------------------------------------------------------------------

/// A window of five zero percents.
pub open spec fn spec_zero_window() -> Seq<u64> {
    seq![0u64, 0u64, 0u64, 0u64, 0u64]
}

/// Every row keeps one percent slot per window epoch.
pub open spec fn rows_wf(rows: Seq<VoterApyV>) -> bool {
    forall|i: int| 0 <= i < rows.len() ==> (#[trigger] rows[i]).window_bits.len() == 5
}

/// Index of the first row of `v`, or a negative number.
pub open spec fn spec_rows_find(rows: Seq<VoterApyV>, v: Seq<char>) -> int
    decreases rows.len(),
{
    if rows.len() == 0 {
        -1
    } else if rows[0].voter == v {
        0
    } else {
        let r = spec_rows_find(rows.drop_first(), v);
        if r < 0 {
            -1
        } else {
            r + 1
        }
    }
}

/// What `spec_rows_find` returns: the first matching index, if any.
pub proof fn lemma_rows_find(rows: Seq<VoterApyV>, v: Seq<char>)
    ensures
        -1 <= spec_rows_find(rows, v) < rows.len(),
        spec_rows_find(rows, v) >= 0 ==> rows[spec_rows_find(rows, v)].voter == v,
        forall|k: int| 0 <= k < spec_rows_find(rows, v) ==> (#[trigger] rows[k]).voter != v,
        spec_rows_find(rows, v) < 0 ==> forall|k: int|
            0 <= k < rows.len() ==> (#[trigger] rows[k]).voter != v,
    decreases rows.len(),
{
    if rows.len() != 0 && rows[0].voter != v {
        lemma_rows_find(rows.drop_first(), v);
        assert(forall|k: int| 1 <= k < rows.len() ==> #[trigger] rows[k] == rows.drop_first()[k - 1]);
    }
}

/// A fresh row for `v` with `bits` in the given window slot.
pub open spec fn spec_new_row(v: Seq<char>, slot: int, bits: u64) -> VoterApyV {
    VoterApyV {
        voter: v,
        current_apy_bits: if slot == 4 {
            bits
        } else {
            0u64
        },
        window_bits: spec_zero_window().update(slot, bits),
    }
}

/// A row with `bits` written into the given window slot.
pub open spec fn spec_row_set(row: VoterApyV, slot: int, bits: u64) -> VoterApyV {
    VoterApyV {
        voter: row.voter,
        current_apy_bits: if slot == 4 {
            bits
        } else {
            row.current_apy_bits
        },
        window_bits: row.window_bits.update(slot, bits),
    }
}

/// Writes `bits` into `v`'s row at the given window slot, appending a
/// fresh row when `v` has none yet.
pub open spec fn spec_set_slot(rows: Seq<VoterApyV>, v: Seq<char>, slot: int, bits: u64) -> Seq<
    VoterApyV,
> {
    let i = spec_rows_find(rows, v);
    if i < 0 {
        rows.push(spec_new_row(v, slot, bits))
    } else {
        rows.update(i, spec_row_set(rows[i], slot, bits))
    }
}

/// Folds one epoch's yield table into the rows, front to back, later
/// entries overwriting earlier ones at the same (voter, slot).
pub open spec fn spec_merge_table(rows: Seq<VoterApyV>, es: Seq<ApyEntryV>, slot: int) -> Seq<
    VoterApyV,
>
    decreases es.len(),
{
    if es.len() == 0 {
        rows
    } else {
        spec_merge_table(spec_set_slot(rows, es[0].voter, slot, es[0].percent_bits), es.drop_first(), slot)
    }
}

/// Folding one more entry extends the merge at its end.
proof fn lemma_merge_table_push(rows: Seq<VoterApyV>, es: Seq<ApyEntryV>, e: ApyEntryV, slot: int)
    ensures
        spec_merge_table(rows, es.push(e), slot) == spec_set_slot(
            spec_merge_table(rows, es, slot),
            e.voter,
            slot,
            e.percent_bits,
        ),
    decreases es.len(),
{
    let stepped = spec_set_slot(rows, es.push(e)[0].voter, slot, es.push(e)[0].percent_bits);
    assert(spec_merge_table(rows, es.push(e), slot) == spec_merge_table(
        stepped,
        es.push(e).drop_first(),
        slot,
    ));
    if es.len() == 0 {
        assert(es.push(e).drop_first() =~= Seq::<ApyEntryV>::empty());
        assert(es.push(e)[0] == e);
        assert(spec_merge_table(rows, es, slot) == rows);
        assert(spec_merge_table(
            spec_set_slot(rows, e.voter, slot, e.percent_bits),
            Seq::<ApyEntryV>::empty(),
            slot,
        ) == spec_set_slot(rows, e.voter, slot, e.percent_bits));
    } else {
        assert(es.push(e).drop_first() =~= es.drop_first().push(e));
        assert(es.push(e)[0] == es[0]);
        lemma_merge_table_push(
            spec_set_slot(rows, es[0].voter, slot, es[0].percent_bits),
            es.drop_first(),
            e,
            slot,
        );
        assert(spec_merge_table(rows, es, slot) == spec_merge_table(
            spec_set_slot(rows, es[0].voter, slot, es[0].percent_bits),
            es.drop_first(),
            slot,
        ));
    }
}

/// Every row's current-epoch percent equals its window's last slot.
pub open spec fn rows_current_consistent(rows: Seq<VoterApyV>) -> bool {
    forall|i: int|
        0 <= i < rows.len() ==> (#[trigger] rows[i]).current_apy_bits == rows[i].window_bits[4]
}

/// One slot write keeps every window five slots wide.
pub proof fn lemma_set_slot_wf(rows: Seq<VoterApyV>, v: Seq<char>, slot: int, bits: u64)
    requires
        rows_wf(rows),
        0 <= slot < 5,
    ensures
        rows_wf(spec_set_slot(rows, v, slot, bits)),
{
    lemma_rows_find(rows, v);
    let out = spec_set_slot(rows, v, slot, bits);
    let f = spec_rows_find(rows, v);
    assert forall|i: int| 0 <= i < out.len() implies (#[trigger] out[i]).window_bits.len()
        == 5 by {
        if f < 0 {
            if i < rows.len() {
                assert(out[i] == rows[i]);
            } else {
                assert(out[i].window_bits == spec_zero_window().update(slot, bits));
            }
        } else {
            if i != f {
                assert(out[i] == rows[i]);
            } else {
                assert(out[i].window_bits == rows[f].window_bits.update(slot, bits));
            }
        }
    }
}

/// Law: a slot write keeps each row's current-epoch percent equal to
/// its window's last slot: writing the current slot sets both, writing
/// an older slot touches neither.
pub proof fn lemma_set_slot_current_consistent(
    rows: Seq<VoterApyV>,
    v: Seq<char>,
    slot: int,
    bits: u64,
)
    requires
        rows_wf(rows),
        rows_current_consistent(rows),
        0 <= slot < 5,
    ensures
        rows_current_consistent(spec_set_slot(rows, v, slot, bits)),
{
    lemma_rows_find(rows, v);
    let out = spec_set_slot(rows, v, slot, bits);
    let f = spec_rows_find(rows, v);
    assert forall|i: int| 0 <= i < out.len() implies (#[trigger] out[i]).current_apy_bits
        == out[i].window_bits[4] by {
        if f < 0 {
            if i < rows.len() {
                assert(out[i] == rows[i]);
            } else {
                assert(out[i] == spec_new_row(v, slot, bits));
                assert(spec_zero_window().update(slot, bits)[4] == (if slot == 4 {
                    bits
                } else {
                    0u64
                }));
            }
        } else {
            if i != f {
                assert(out[i] == rows[i]);
            } else {
                assert(out[i] == spec_row_set(rows[f], slot, bits));
                assert(rows[f].window_bits.update(slot, bits)[4] == (if slot == 4 {
                    bits
                } else {
                    rows[f].window_bits[4]
                }));
            }
        }
    }
}

/// Law: merging a whole epoch table keeps the rows five slots wide and
/// each row's current-epoch percent equal to its window's last slot.
pub proof fn lemma_merge_current_consistent(rows: Seq<VoterApyV>, es: Seq<ApyEntryV>, slot: int)
    requires
        rows_wf(rows),
        rows_current_consistent(rows),
        0 <= slot < 5,
    ensures
        rows_wf(spec_merge_table(rows, es, slot)),
        rows_current_consistent(spec_merge_table(rows, es, slot)),
    decreases es.len(),
{
    if es.len() > 0 {
        lemma_set_slot_wf(rows, es[0].voter, slot, es[0].percent_bits);
        lemma_set_slot_current_consistent(rows, es[0].voter, slot, es[0].percent_bits);
        lemma_merge_current_consistent(
            spec_set_slot(rows, es[0].voter, slot, es[0].percent_bits),
            es.drop_first(),
            slot,
        );
    }
}

/// Writes `bits` into `voter`'s row at the given window slot.
fn rows_set_slot(rows: &mut Vec<VoterApy>, voter: &String, slot: usize, bits: u64)
    requires
        slot < 5,
        rows_wf(voter_apy_views(old(rows)@)),
    ensures
        voter_apy_views(final(rows)@) == spec_set_slot(
            voter_apy_views(old(rows)@),
            voter@,
            slot as int,
            bits,
        ),
        rows_wf(voter_apy_views(final(rows)@)),
{
    proof {
        lemma_rows_find(voter_apy_views(rows@), voter@);
    }
    let n: usize = rows.len();
    let mut i: usize = 0;
    while i < n
        invariant
            n == rows@.len(),
            0 <= i <= n,
            rows@ == old(rows)@,
            rows_wf(voter_apy_views(rows@)),
            slot < 5,
            forall|j: int| 0 <= j < i ==> (#[trigger] voter_apy_views(rows@)[j]).voter != voter@,
        decreases n - i,
    {
        if rows[i].voter == *voter {
            proof {
                assert(voter_apy_views(rows@)[i as int].voter == voter@);
                lemma_rows_find(voter_apy_views(rows@), voter@);
                assert(spec_rows_find(voter_apy_views(rows@), voter@) == i as int) by {
                    let f = spec_rows_find(voter_apy_views(rows@), voter@);
                    if f < i as int {
                        assert(voter_apy_views(rows@)[f].voter != voter@);
                    }
                    if f > i as int {
                        assert(voter_apy_views(rows@)[i as int].voter != voter@);
                    }
                }
            }
            let ghost before = rows@;
            let mut row = rows.remove(i);
            let ghost wb = row.window_bits@;
            let _old_bits = row.window_bits.remove(slot);
            row.window_bits.insert(slot, bits);
            proof {
                lemma_remove_insert(wb, slot as int, bits);
            }
            if slot == 4 {
                row.current_apy_bits = bits;
            }
            proof {
                assert(row@ == spec_row_set(before[i as int]@, slot as int, bits));
            }
            rows.insert(i, row);
            proof {
                lemma_remove_insert(before, i as int, rows@[i as int]);
                assert(voter_apy_views(rows@) =~= spec_set_slot(
                    voter_apy_views(before),
                    voter@,
                    slot as int,
                    bits,
                ));
                assert forall|j: int| 0 <= j < rows@.len() implies (#[trigger] voter_apy_views(
                    rows@,
                )[j]).window_bits.len() == 5 by {
                    if j != i as int {
                        assert(voter_apy_views(rows@)[j] == voter_apy_views(before)[j]);
                    }
                }
            }
            return ;
        }
        i = i + 1;
    }
    proof {
        lemma_rows_find(voter_apy_views(rows@), voter@);
        assert(spec_rows_find(voter_apy_views(rows@), voter@) < 0) by {
            let f = spec_rows_find(voter_apy_views(rows@), voter@);
            if f >= 0 {
                assert(voter_apy_views(rows@)[f].voter != voter@);
            }
        }
    }
    let ghost before = rows@;
    let mut window: Vec<u64> = Vec::new();
    window.push(0);
    window.push(0);
    window.push(0);
    window.push(0);
    window.push(0);
    let ghost w0 = window@;
    let _zero = window.remove(slot);
    window.insert(slot, bits);
    proof {
        assert(w0 =~= spec_zero_window());
        lemma_remove_insert(w0, slot as int, bits);
    }
    let current: u64 = if slot == 4 {
        bits
    } else {
        0
    };
    rows.push(VoterApy { voter: voter.clone(), current_apy_bits: current, window_bits: window });
    proof {
        assert(voter_apy_views(rows@) =~= spec_set_slot(
            voter_apy_views(before),
            voter@,
            slot as int,
            bits,
        ));
        assert forall|j: int| 0 <= j < rows@.len() implies (#[trigger] voter_apy_views(
            rows@,
        )[j]).window_bits.len() == 5 by {
            if j < before.len() {
                assert(voter_apy_views(rows@)[j] == voter_apy_views(before)[j]);
            }
        }
    }
}

/// Folds one epoch's yield table into the per-voter rows.
fn merge_epoch_apys(rows: &mut Vec<VoterApy>, table: &Vec<ApyEntry>, slot: usize)
    requires
        slot < 5,
        rows_wf(voter_apy_views(old(rows)@)),
    ensures
        voter_apy_views(final(rows)@) == spec_merge_table(
            voter_apy_views(old(rows)@),
            apy_views(table@),
            slot as int,
        ),
        rows_wf(voter_apy_views(final(rows)@)),
{
    let n: usize = table.len();
    let mut i: usize = 0;
    while i < n
        invariant
            n == table@.len(),
            0 <= i <= n,
            slot < 5,
            rows_wf(voter_apy_views(rows@)),
            voter_apy_views(rows@) == spec_merge_table(
                voter_apy_views(old(rows)@),
                apy_views(table@).take(i as int),
                slot as int,
            ),
        decreases n - i,
    {
        let ghost taken = apy_views(table@).take(i as int);
        rows_set_slot(rows, &table[i].voter, slot, table[i].percent_bits);
        proof {
            assert(apy_views(table@).take(i + 1) =~= taken.push(apy_views(table@)[i as int]));
            lemma_merge_table_push(
                voter_apy_views(old(rows)@),
                taken,
                apy_views(table@)[i as int],
                slot as int,
            );
            assert(apy_views(table@)[i as int] == table@[i as int]@);
        }
        i = i + 1;
    }
    proof {
        assert(apy_views(table@).take(n as int) =~= apy_views(table@));
    }
}

// ---------------------------------------------------------------------
// The query filter of the current-epoch pass
// ---------------------------------------------------------------------

/// The staking rewards whose stake address has no row in the cached
/// table yet, in order; built front to back.
pub open spec fn spec_to_query_from(
    st: Seq<StakingRewardV>,
    tab: Seq<ApyEntryV>,
    i: int,
) -> Seq<StakingRewardV>
    decreases st.len() - i when 0 <= i <= st.len()
{
    if i >= st.len() {
        seq![]
    } else {
        let rest = spec_to_query_from(st, tab, i + 1);
        if !spec_table_has(tab, st[i].pubkey) {
            seq![st[i]] + rest
        } else {
            rest
        }
    }
}

/// The staking rewards still to be queried from the node.
pub open spec fn spec_to_query(st: Seq<StakingRewardV>, tab: Seq<ApyEntryV>) -> Seq<
    StakingRewardV,
> {
    spec_to_query_from(st, tab, 0)
}

/// When every stake address is already in the table, nothing is queried.
pub proof fn lemma_to_query_empty(st: Seq<StakingRewardV>, tab: Seq<ApyEntryV>, i: int)
    requires
        0 <= i <= st.len(),
        forall|j: int| 0 <= j < st.len() ==> spec_table_has(tab, (#[trigger] st[j]).pubkey),
    ensures
        spec_to_query_from(st, tab, i) == Seq::<StakingRewardV>::empty(),
    decreases st.len() - i,
{
    if i < st.len() {
        lemma_to_query_empty(st, tab, i + 1);
    }
}

/// Filters the staking rewards down to those the cached table misses.
fn compute_to_query(st: &Vec<StakingReward>, tab: &Vec<ApyEntry>) -> (r: Vec<StakingReward>)
    ensures
        staking_views(r@) == spec_to_query(staking_views(st@), apy_views(tab@)),
{
    let n: usize = st.len();
    let mut out: Vec<StakingReward> = Vec::new();
    let mut i: usize = 0;
    while i < n
        invariant
            n == st@.len(),
            0 <= i <= n,
            staking_views(out@) + spec_to_query_from(staking_views(st@), apy_views(tab@), i as int)
                =~= spec_to_query(staking_views(st@), apy_views(tab@)),
        decreases n - i,
    {
        let ghost sv = staking_views(st@);
        let ghost before = out@;
        if !table_has_voter(tab, &st[i].pubkey) {
            proof {
                assert(sv[i as int] == st@[i as int]@);
            }
            out.push(st[i].clone());
            proof {
                assert(staking_views(out@) =~= staking_views(before).push(sv[i as int]));
                assert(staking_views(before).push(sv[i as int]) + spec_to_query_from(
                    sv,
                    apy_views(tab@),
                    i + 1,
                ) =~= staking_views(before) + (seq![sv[i as int]] + spec_to_query_from(
                    sv,
                    apy_views(tab@),
                    i + 1,
                )));
            }
        } else {
            proof {
                assert(sv[i as int] == st@[i as int]@);
            }
        }
        i = i + 1;
    }
    proof {
        assert(staking_views(out@) + spec_to_query_from(
            staking_views(st@),
            apy_views(tab@),
            n as int,
        ) =~= staking_views(out@));
    }
    out
}


// ---------------------------------------------------------------------
// The tick state machine
// ---------------------------------------------------------------------

/// What the machine asks the surrounding process to do next.
pub enum TickAction {
    /// Query the node for the blocks of the slot range and hand back the
    /// first one, if any.
    GetBlocks { start_slot: u64, end_slot: Option<u64> },
    /// Query the node for the block at `slot` and hand back its rewards.
    GetBlockRewards { slot: u64 },
    /// Query the node for the stake accounts of these addresses and hand
    /// back what each came back as.
    GetAccounts { pubkeys: Vec<String> },
    /// Evaluate the compounding yield formula for each input, over the
    /// fixed epoch duration, and hand back the percent bit patterns.
    ComputeApys { inputs: Vec<ApyInput> },
    /// The tick ended: set the gauges from the output.
    Done { output: TickOutput },
    /// The tick failed; the error is surfaced to the caller.
    Failed { error: MonitorError },
}

/// The answer the surrounding process hands back for one action.
pub enum TickEvent {
    Blocks { first_block: Option<u64> },
    BlockRewards { rewards: Vec<RawReward> },
    Accounts { accounts: Vec<AccountOutcome> },
    ApyResults { percents: Vec<u64> },
}

/// What a finished tick exports.
pub struct TickOutput {
    /// One row per voter of the lookback window: the current epoch's
    /// percent bits and the five window slots, oldest first.
    pub staking: Vec<VoterApy>,
    /// One entry per (voter, balance) pair of the current epoch's voting
    /// rewards.
    pub validators: Vec<ValidatorReward>,
}

/// Where in the epoch walk a suspended resolution will continue.
pub enum Cont {
    /// The current epoch was being resolved first.
    Current,
    /// The historical epoch after `merged` merged lookback epochs.
    Historical { merged: u64 },
}

/// The working set of the current-epoch pass.
pub struct CurrentSt {
    /// Staking rewards whose accounts are still to be queried.
    pub to_query: Vec<StakingReward>,
    /// Index of the first address of the next batch.
    pub next: usize,
    /// Voters already credited in this pass.
    pub seen: Vec<String>,
    /// The accumulated yield table of the current epoch.
    pub pka: Vec<ApyEntry>,
}

/// Where a suspended tick stands.
pub enum Phase {
    /// No tick underway.
    Idle,
    /// Awaiting the first block of `epoch`'s slot range.
    AwaitBlocks { info: EpochInfo, rows: Vec<VoterApy>, cont: Cont, epoch: u64, open_range: bool },
    /// Awaiting the rewards of `epoch`'s first block.
    AwaitBlockRewards { info: EpochInfo, rows: Vec<VoterApy>, cont: Cont, epoch: u64 },
    /// Awaiting the accounts of the batch `chunk`.
    AwaitAccounts {
        info: EpochInfo,
        rows: Vec<VoterApy>,
        cur: CurrentSt,
        chunk: Vec<StakingReward>,
    },
    /// Awaiting the evaluated yields of the credited delegations.
    AwaitApys {
        info: EpochInfo,
        rows: Vec<VoterApy>,
        cur: CurrentSt,
        inserts: Vec<PkaInsert>,
        n_pending: usize,
    },
}

/// Machine limits a tick's epoch descriptor must meet.
pub open spec fn spec_wf_info(info: EpochInfo) -> bool {
    &&& info.epoch >= MAX_EPOCH_LOOKBACK
    &&& info.epoch * info.slots_in_epoch + SLOT_OFFSET <= u64::MAX
}

/// How one epoch resolution came out.
enum Resolve {
    /// The cache held the epoch's records.
    Hit { rewards: Vec<RawReward> },
    /// The node must be asked for the epoch's first block.
    Miss { start_slot: u64, end_slot: Option<u64> },
    /// The cache failed.
    Fail { error: MonitorError },
}

/// The monitor of rewards paid to validators and delegators.
pub struct RewardsMonitor {
    /// The durable epoch cache, single source of truth across restarts.
    pub cache: RewardsCache,
    /// Where the suspended tick stands, if one is underway.
    pub phase: Phase,
}

/// The yield table stored for `e`, an empty one when `e` has no entry.
pub open spec fn spec_table_or_empty(c: RewardsCache, e: u64) -> Seq<ApyEntryV> {
    if c.has_epoch_apy(e) {
        c.spec_epoch_apy(e).unwrap()
    } else {
        seq![]
    }
}

/// The rows after merging the first `k` lookback epochs' tables.
pub open spec fn spec_hist_rows(c: RewardsCache, info: EpochInfo, k: int) -> Seq<VoterApyV>
    decreases k,
{
    if k <= 0 {
        seq![]
    } else {
        spec_merge_table(
            spec_hist_rows(c, info, k - 1),
            spec_table_or_empty(c, (info.epoch - 5 + k) as u64),
            k - 1,
        )
    }
}

/// The per-voter rows a tick over a fully cached window exports.
pub open spec fn spec_warm_rows(c: RewardsCache, info: EpochInfo) -> Seq<VoterApyV> {
    spec_merge_table(spec_hist_rows(c, info, 4), spec_table_or_empty(c, info.epoch), 4)
}

/// The validator rewards a tick over a fully cached window exports.
pub open spec fn spec_warm_validators(c: RewardsCache, info: EpochInfo) -> Seq<ValidatorRewardV> {
    spec_validator_rewards(c.spec_epoch_rewards(info.epoch).unwrap())
}

/// The cache is warm for `info`: every window epoch's rewards are stored
/// and decode, historical addresses parse, stored tables decode, the
/// current epoch's table covers all its staking addresses, and the
/// current epoch has voting rewards.  A tick then completes with no
/// query to the node and no write to the cache.
pub open spec fn warm(c: RewardsCache, info: EpochInfo) -> bool {
    let cur = info.epoch;
    &&& cur >= MAX_EPOCH_LOOKBACK
    &&& forall|e: u64|
        cur - 4 <= e <= cur ==> #[trigger] c.has_epoch_rewards(e) && c.spec_epoch_rewards(
            e,
        ) is Some
    &&& forall|e: u64|
        cur - 4 <= e < cur ==> spec_all_addresses_valid(
            (#[trigger] c.spec_epoch_rewards(e)).unwrap(),
        )
    &&& forall|e: u64| cur - 4 <= e < cur && #[trigger] c.has_epoch_apy(e) ==> c.spec_epoch_apy(
        e,
    ) is Some
    &&& c.has_epoch_apy(cur) && c.spec_epoch_apy(cur) is Some
    &&& (forall|j: int|
        0 <= j < spec_staking_rewards(c.spec_epoch_rewards(cur).unwrap()).len()
            ==> spec_table_has(
            c.spec_epoch_apy(cur).unwrap(),
            (#[trigger] spec_staking_rewards(c.spec_epoch_rewards(cur).unwrap())[j]).pubkey,
        ))
    &&& spec_validator_rewards(c.spec_epoch_rewards(cur).unwrap()).len() > 0
}

/// The stake addresses of a run of staking rewards, in order.
pub open spec fn pubkeys_of(s: Seq<StakingRewardV>) -> Seq<Seq<char>> {
    s.map_values(|x: StakingRewardV| x.pubkey)
}

/// What the finishing step may return, reached with the merged rows and
/// the pass's accumulated yield table: a storage failure at any read;
/// else exactly what the stored current rewards dictate — the error
/// named for a missing or undecodable entry, `NoCurrentRewards` when no
/// voting record stands, and otherwise the export itself: the rows with
/// the accumulated table merged at the current slot, and the
/// deduplicated voting rewards.
pub open spec fn finish_rel(
    c: RewardsCache,
    info: EpochInfo,
    rows: Seq<VoterApyV>,
    pka: Seq<ApyEntryV>,
    r: TickAction,
) -> bool {
    let cur = info.epoch;
    ||| (r matches TickAction::Failed { error } && error == MonitorError::StorageError)
    ||| {
        &&& !c.has_epoch_rewards(cur)
        &&& (r matches TickAction::Failed { error } && error == MonitorError::NoCurrentRewards)
    }
    ||| {
        &&& c.has_epoch_rewards(cur)
        &&& c.spec_epoch_rewards(cur) is None
        &&& (r matches TickAction::Failed { error } && error == MonitorError::SerializationError)
    }
    ||| {
        &&& c.has_epoch_rewards(cur)
        &&& c.spec_epoch_rewards(cur) matches Some(rs)
        &&& spec_validator_rewards(rs).len() == 0
        &&& (r matches TickAction::Failed { error } && error == MonitorError::NoCurrentRewards)
    }
    ||| {
        &&& c.has_epoch_rewards(cur)
        &&& c.spec_epoch_rewards(cur) matches Some(rs)
        &&& spec_validator_rewards(rs).len() > 0
        &&& (r matches TickAction::Done { output } && voter_apy_views(output.staking@)
            == spec_merge_table(rows, pka, 4) && validator_views(output.validators@)
            == spec_validator_rewards(rs))
    }
}

/// One step of the batched account walk: with addresses of the query
/// list remaining from `next` on, the machine asks for exactly the next
/// batch of at most the batch limit, in order; with none remaining it
/// finishes as `finish_rel` says.
pub open spec fn chunk_step_rel(
    c: RewardsCache,
    info: EpochInfo,
    rows: Seq<VoterApyV>,
    tq: Seq<StakingRewardV>,
    next: int,
    pka: Seq<ApyEntryV>,
    r: TickAction,
) -> bool {
    if next >= tq.len() {
        finish_rel(c, info, rows, pka, r)
    } else {
        let take = if tq.len() - next < ACCOUNTS_CHUNK as int {
            tq.len() - next
        } else {
            ACCOUNTS_CHUNK as int
        };
        r matches TickAction::GetAccounts { pubkeys } && str_views(pubkeys@) == pubkeys_of(
            tq.subrange(next, next + take),
        )
    }
}

/// What the current-epoch pass may return, entered with the historical
/// rows: a storage failure; the error the stored current rewards or
/// yield table dictate; else — with the cached table merged at the
/// current slot — the first account batch over the uncached staking
/// addresses, or, with none to query, the finishing step.
pub open spec fn current_pass_rel(
    c: RewardsCache,
    info: EpochInfo,
    rows: Seq<VoterApyV>,
    r: TickAction,
) -> bool {
    let cur = info.epoch;
    ||| (r matches TickAction::Failed { error } && error == MonitorError::StorageError)
    ||| {
        &&& !c.has_epoch_rewards(cur)
        &&& (r matches TickAction::Failed { error } && error == MonitorError::NoCurrentRewards)
    }
    ||| {
        &&& c.has_epoch_rewards(cur)
        &&& c.spec_epoch_rewards(cur) is None
        &&& (r matches TickAction::Failed { error } && error == MonitorError::SerializationError)
    }
    ||| {
        &&& c.has_epoch_rewards(cur)
        &&& c.spec_epoch_rewards(cur) is Some
        &&& c.has_epoch_apy(cur)
        &&& c.spec_epoch_apy(cur) is None
        &&& (r matches TickAction::Failed { error } && error == MonitorError::SerializationError)
    }
    ||| {
        &&& c.has_epoch_rewards(cur)
        &&& c.spec_epoch_rewards(cur) matches Some(rs)
        &&& (c.has_epoch_apy(cur) ==> c.spec_epoch_apy(cur) is Some)
        &&& chunk_step_rel(
            c,
            info,
            spec_merge_table(rows, spec_table_or_empty(c, cur), 4),
            spec_to_query(spec_staking_rewards(rs), spec_table_or_empty(c, cur)),
            0,
            seq![],
            r,
        )
    }
}

/// What the lookback walk may return from `merged` merged epochs on:
/// a storage failure; for the next unresolved epoch, the bounded block
/// query when its rewards are not stored, the serialization error when
/// a stored entry does not decode, the address-parse error when any of
/// its record addresses is malformed; else the walk goes on with that
/// epoch's table merged at its slot, ending in the current-epoch pass.
pub open spec fn hist_walk_rel(
    c: RewardsCache,
    info: EpochInfo,
    rows: Seq<VoterApyV>,
    merged: int,
    r: TickAction,
) -> bool
    decreases 4 - merged when merged <= 4
{
    if merged >= 4 {
        current_pass_rel(c, info, rows, r)
    } else {
        let e = (info.epoch - 4 + merged) as u64;
        ||| (r matches TickAction::Failed { error } && error == MonitorError::StorageError)
        ||| {
            &&& !c.has_epoch_rewards(e)
            &&& (r matches TickAction::GetBlocks { start_slot, end_slot } && start_slot == (
            info.epoch - 4 + merged) * info.slots_in_epoch && end_slot == Some(
                (start_slot + SLOT_OFFSET) as u64,
            ))
        }
        ||| {
            &&& c.has_epoch_rewards(e)
            &&& c.spec_epoch_rewards(e) is None
            &&& (r matches TickAction::Failed { error } && error
                == MonitorError::SerializationError)
        }
        ||| {
            &&& c.has_epoch_rewards(e)
            &&& c.spec_epoch_rewards(e) matches Some(rs)
            &&& !spec_all_addresses_valid(rs)
            &&& (r matches TickAction::Failed { error } && error
                == MonitorError::AddressParseError)
        }
        ||| {
            &&& c.has_epoch_rewards(e)
            &&& c.spec_epoch_rewards(e) is Some
            &&& c.has_epoch_apy(e)
            &&& c.spec_epoch_apy(e) is None
            &&& (r matches TickAction::Failed { error } && error
                == MonitorError::SerializationError)
        }
        ||| {
            &&& c.has_epoch_rewards(e)
            &&& c.spec_epoch_rewards(e) matches Some(rs)
            &&& spec_all_addresses_valid(rs)
            &&& (c.has_epoch_apy(e) ==> c.spec_epoch_apy(e) is Some)
            &&& hist_walk_rel(
                c,
                info,
                spec_merge_table(rows, spec_table_or_empty(c, e), merged),
                merged + 1,
                r,
            )
        }
    }
}

/// Law: the lookback walk's rows are built from the empty table by
/// merges alone, so they are five slots wide and each voter's current
/// percent is the window's last slot.
pub proof fn lemma_hist_rows_current_consistent(c: RewardsCache, info: EpochInfo, k: int)
    requires
        0 <= k <= 4,
    ensures
        rows_wf(spec_hist_rows(c, info, k)),
        rows_current_consistent(spec_hist_rows(c, info, k)),
    decreases k,
{
    if k <= 0 {
        assert(spec_hist_rows(c, info, k) =~= Seq::<VoterApyV>::empty());
    } else {
        lemma_hist_rows_current_consistent(c, info, k - 1);
        lemma_merge_current_consistent(
            spec_hist_rows(c, info, k - 1),
            spec_table_or_empty(c, (info.epoch - 5 + k) as u64),
            k - 1,
        );
    }
}

/// Law: in a fully cached tick's export, each voter's current-epoch
/// percent is exactly the last slot of the window the tick exports —
/// the current epoch's table entry, zero bits where none stands.
pub proof fn lemma_warm_rows_current_consistent(c: RewardsCache, info: EpochInfo)
    ensures
        rows_wf(spec_warm_rows(c, info)),
        rows_current_consistent(spec_warm_rows(c, info)),
{
    lemma_hist_rows_current_consistent(c, info, 4);
    lemma_merge_current_consistent(
        spec_hist_rows(c, info, 4),
        spec_table_or_empty(c, info.epoch),
        4,
    );
}

/// When the machine asks for an account batch, the suspended phase
/// holds exactly the remainder of the walk: the cursor stands inside
/// the stored query list, the saved batch is the list's next slice of
/// at most the batch limit, and the asked addresses are that slice's
/// stake addresses in order.
pub open spec fn accounts_suspension_ok(m: RewardsMonitor, r: TickAction) -> bool {
    r matches TickAction::GetAccounts { pubkeys } ==> (m.phase matches Phase::AwaitAccounts {
        info,
        rows,
        cur,
        chunk,
    } && {
        let take = if cur.to_query@.len() - cur.next < ACCOUNTS_CHUNK as int {
            cur.to_query@.len() - cur.next
        } else {
            ACCOUNTS_CHUNK as int
        };
        &&& cur.next < cur.to_query@.len()
        &&& staking_views(chunk@) == staking_views(cur.to_query@).subrange(
            cur.next as int,
            cur.next + take,
        )
        &&& str_views(pubkeys@) == pubkeys_of(staking_views(chunk@))
    })
}

/// The returned action fits the suspended phase: a query action leaves
/// the machine awaiting exactly the matching answer, and a finished or
/// failed tick leaves it idle.  Together with `wf` this lets a driver
/// that answers each action feed `step` an event the machine expects.
pub open spec fn action_matches_phase(m: RewardsMonitor, r: TickAction) -> bool {
    match r {
        TickAction::GetBlocks { .. } => m.phase matches Phase::AwaitBlocks { .. },
        TickAction::GetBlockRewards { .. } => m.phase matches Phase::AwaitBlockRewards { .. },
        TickAction::GetAccounts { .. } => m.phase matches Phase::AwaitAccounts { .. },
        TickAction::ComputeApys { inputs } => (m.phase matches Phase::AwaitApys {
            n_pending,
            ..
        } && n_pending == inputs@.len()),
        TickAction::Done { .. } => m.phase is Idle,
        TickAction::Failed { .. } => m.phase is Idle,
    }
}

impl RewardsMonitor {
    /// The machine's well-formedness: suspended state fits its phase.
    pub open spec fn wf(self) -> bool {
        match self.phase {
            Phase::Idle => true,
            Phase::AwaitBlocks { info, rows, cont, epoch, open_range } => spec_wf_info(info)
                && rows_wf(voter_apy_views(rows@)) && epoch <= info.epoch && (match cont {
                Cont::Current => epoch == info.epoch,
                Cont::Historical { merged } => merged < 4 && epoch == info.epoch - 4 + merged,
            }),
            Phase::AwaitBlockRewards { info, rows, cont, epoch } => spec_wf_info(info) && rows_wf(
                voter_apy_views(rows@),
            ) && epoch <= info.epoch && (match cont {
                Cont::Current => epoch == info.epoch,
                Cont::Historical { merged } => merged < 4 && epoch == info.epoch - 4 + merged,
            }),
            Phase::AwaitAccounts { info, rows, cur, chunk } => spec_wf_info(info) && rows_wf(
                voter_apy_views(rows@),
            ) && cur.next + chunk@.len() <= cur.to_query@.len(),
            Phase::AwaitApys { info, rows, cur, inserts, n_pending } => spec_wf_info(info)
                && rows_wf(voter_apy_views(rows@)) && cur.next <= cur.to_query@.len() && (forall|
                k: int,
            |
                0 <= k < inserts@.len() && (#[trigger] inserts@[k]@).credited
                    ==> inserts@[k]@.credit_idx < n_pending),
        }
    }

    /// Whether the machine awaits this event.
    pub open spec fn expects(self, ev: TickEvent) -> bool {
        match (self.phase, ev) {
            (Phase::AwaitBlocks { .. }, TickEvent::Blocks { .. }) => true,
            (Phase::AwaitBlockRewards { .. }, TickEvent::BlockRewards { .. }) => true,
            (Phase::AwaitAccounts { .. }, TickEvent::Accounts { .. }) => true,
            (
                Phase::AwaitApys { n_pending, .. },
                TickEvent::ApyResults { percents },
            ) => percents@.len() == n_pending,
            _ => false,
        }
    }

    /// Initialises a new rewards monitor over its cache.
    pub fn new(rewards_cache: RewardsCache) -> (r: Self)
        ensures
            r.cache == rewards_cache,
            r.phase is Idle,
            r.wf(),
    {
        RewardsMonitor { cache: rewards_cache, phase: Phase::Idle }
    }

    /// Days an epoch lasts, as the bit pattern of the fixed stub value.
    pub fn epoch_duration_days(&self, _epoch: u64) -> (r: u64)
        ensures
            r == EPOCH_DURATION_DAYS_BITS,
    {
        EPOCH_DURATION_DAYS_BITS
    }

    /// Resolves an epoch's rewards from the cache, or plans the slot
    /// range the node must be asked for: the whole range of the epoch is
    /// left open-ended only while the current epoch is younger than the
    /// slot offset.
    fn get_rewards_for_epoch(&self, epoch: u64, info: &EpochInfo) -> (r: Resolve)
        requires
            spec_wf_info(*info),
            epoch <= info.epoch,
        ensures
            match r {
                Resolve::Hit { rewards } => self.cache.has_epoch_rewards(epoch)
                    && self.cache.spec_epoch_rewards(epoch) == Some(reward_views(rewards@)),
                Resolve::Miss { start_slot, end_slot } => !self.cache.has_epoch_rewards(epoch)
                    && start_slot == epoch * info.slots_in_epoch && end_slot == (
                if epoch == info.epoch && info.slot_index < SLOT_OFFSET {
                    None::<u64>
                } else {
                    Some((epoch * info.slots_in_epoch + SLOT_OFFSET) as u64)
                }),
                Resolve::Fail { error } => error == MonitorError::StorageError || (error
                    == MonitorError::SerializationError && self.cache.has_epoch_rewards(epoch)
                    && self.cache.spec_epoch_rewards(epoch) is None),
            },
    {
        match self.cache.get_epoch_rewards(epoch) {
            Ok(Some(rewards)) => Resolve::Hit { rewards },
            Ok(None) => {
                proof {
                    vstd::arithmetic::mul::lemma_mul_inequality(
                        epoch as int,
                        info.epoch as int,
                        info.slots_in_epoch as int,
                    );
                }
                let start_slot: u64 = epoch * info.slots_in_epoch;
                let end_slot: Option<u64> = if epoch == info.epoch && info.slot_index < SLOT_OFFSET {
                    None
                } else {
                    Some(start_slot + SLOT_OFFSET)
                };
                Resolve::Miss { start_slot, end_slot }
            },
            Err(e) => Resolve::Fail { error: e.to_monitor_error() },
        }
    }

    /// Walks the lookback epochs after `merged` merged ones: each must
    /// already have rewards; its cached yield table, if any, is merged
    /// into the rows at its window slot.
    fn fill_historical_epochs(
        &mut self,
        info: &EpochInfo,
        rows: Vec<VoterApy>,
        merged: u64,
    ) -> (r: TickAction)
        requires
            spec_wf_info(*info),
            merged <= 4,
            rows_wf(voter_apy_views(rows@)),
        ensures
            final(self).wf(),
            final(self).cache == old(self).cache,
            action_matches_phase(*final(self), r),
            accounts_suspension_ok(*final(self), r),
            hist_walk_rel(old(self).cache, *info, voter_apy_views(rows@), merged as int, r),
            warm(old(self).cache, *info) && voter_apy_views(rows@) == spec_hist_rows(
                old(self).cache,
                *info,
                merged as int,
            ) ==> match r {
                TickAction::Done { output } => voter_apy_views(output.staking@) == spec_warm_rows(
                    old(self).cache,
                    *info,
                ) && validator_views(output.validators@) == spec_warm_validators(
                    old(self).cache,
                    *info,
                ),
                TickAction::Failed { error } => error == MonitorError::StorageError,
                _ => false,
            },
            merged < 4 && !old(self).cache.has_epoch_rewards((info.epoch - 4 + merged) as u64)
                ==> match r {
                TickAction::GetBlocks { start_slot, end_slot } => start_slot == (info.epoch - 4
                    + merged) * info.slots_in_epoch && end_slot == Some(
                    (start_slot + SLOT_OFFSET) as u64,
                ) && (final(self).phase matches Phase::AwaitBlocks {
                    info: i2,
                    rows: r2,
                    cont,
                    epoch: e2,
                    open_range,
                } && i2 == *info && r2 == rows && cont == Cont::Historical { merged } && e2 == (
                info.epoch - 4 + merged) as u64 && !open_range),
                TickAction::Failed { error } => error == MonitorError::StorageError,
                _ => false,
            },
        decreases 5 - merged,
    {
        let ghost c = old(self).cache;
        let ghost rows0 = voter_apy_views(rows@);
        let ghost hyp = warm(c, *info) && rows0 == spec_hist_rows(c, *info, merged as int);
        if merged >= 4 {
            return self.fill_current_epoch_and_find_apy(info, rows);
        }
        let epoch: u64 = info.epoch - 4 + merged;
        match self.get_rewards_for_epoch(epoch, info) {
            Resolve::Fail { error } => {
                proof {
                    if hyp {
                        assert(c.has_epoch_rewards(epoch) && c.spec_epoch_rewards(epoch) is Some);
                        assert(error == MonitorError::StorageError);
                    }
                }
                self.phase = Phase::Idle;
                TickAction::Failed { error }
            },
            Resolve::Miss { start_slot, end_slot } => {
                proof {
                    if hyp {
                        assert(c.has_epoch_rewards(epoch));
                        assert(false);
                    }
                }
                let open_range: bool = match end_slot {
                    None => true,
                    Some(_) => false,
                };
                self.phase = Phase::AwaitBlocks {
                    info: *info,
                    rows,
                    cont: Cont::Historical { merged },
                    epoch,
                    open_range,
                };
                TickAction::GetBlocks { start_slot, end_slot }
            },
            Resolve::Hit { rewards } => {
                proof {
                    if hyp {
                        assert(c.spec_epoch_rewards(epoch) == Some(reward_views(rewards@)));
                        assert(spec_all_addresses_valid(reward_views(rewards@)));
                    }
                }
                if !check_addresses(&rewards) {
                    self.phase = Phase::Idle;
                    return TickAction::Failed { error: MonitorError::AddressParseError };
                }
                let mut rows = rows;
                match self.cache.get_epoch_data(epoch) {
                    Err(e) => {
                        proof {
                            if hyp {
                                assert(e == CacheError::StorageError) by {
                                    if e == CacheError::SerializationError {
                                        assert(c.has_epoch_apy(epoch) && c.spec_epoch_apy(
                                            epoch,
                                        ) is None);
                                        assert(c.spec_epoch_apy(epoch) is Some);
                                    }
                                }
                            }
                        }
                        self.phase = Phase::Idle;
                        TickAction::Failed { error: e.to_monitor_error() }
                    },
                    Ok(table_opt) => {
                        let slot: usize = merged as usize;
                        match table_opt {
                            Some(table) => {
                                proof {
                                    assert(apy_views(table@) == spec_table_or_empty(c, epoch));
                                }
                                merge_epoch_apys(&mut rows, &table, slot);
                                proof {
                                    if hyp {
                                        assert(voter_apy_views(rows@) == spec_hist_rows(
                                            c,
                                            *info,
                                            merged as int + 1,
                                        )) by {
                                            assert(epoch == (info.epoch - 5 + (merged as int
                                                + 1)) as u64);
                                        }
                                    }
                                }
                            },
                            None => {
                                proof {
                                    assert(spec_table_or_empty(c, epoch) =~= Seq::<
                                        ApyEntryV,
                                    >::empty());
                                    assert(spec_merge_table(
                                        voter_apy_views(rows@),
                                        spec_table_or_empty(c, epoch),
                                        merged as int,
                                    ) == voter_apy_views(rows@));
                                    if hyp {
                                        assert(spec_merge_table(rows0, seq![], merged as int)
                                            == rows0);
                                        assert(voter_apy_views(rows@) == spec_hist_rows(
                                            c,
                                            *info,
                                            merged as int + 1,
                                        )) by {
                                            assert(epoch == (info.epoch - 5 + (merged as int
                                                + 1)) as u64);
                                            assert(spec_merge_table(
                                                rows0,
                                                spec_table_or_empty(c, epoch),
                                                merged as int,
                                            ) == rows0);
                                        }
                                    }
                                }
                            },
                        }
                        self.fill_historical_epochs(info, rows, merged + 1)
                    },
                }
            },
        }
    }

    /// The current-epoch pass: filters the (cached) current rewards to
    /// staking records, excludes addresses the cached table already
    /// holds, merges the cached table, and either finishes or starts the
    /// batched account queries.
    fn fill_current_epoch_and_find_apy(&mut self, info: &EpochInfo, rows: Vec<VoterApy>) -> (r:
        TickAction)
        requires
            spec_wf_info(*info),
            rows_wf(voter_apy_views(rows@)),
        ensures
            final(self).wf(),
            final(self).cache == old(self).cache,
            action_matches_phase(*final(self), r),
            accounts_suspension_ok(*final(self), r),
            current_pass_rel(old(self).cache, *info, voter_apy_views(rows@), r),
            warm(old(self).cache, *info) && voter_apy_views(rows@) == spec_hist_rows(
                old(self).cache,
                *info,
                4,
            ) ==> match r {
                TickAction::Done { output } => voter_apy_views(output.staking@) == spec_warm_rows(
                    old(self).cache,
                    *info,
                ) && validator_views(output.validators@) == spec_warm_validators(
                    old(self).cache,
                    *info,
                ),
                TickAction::Failed { error } => error == MonitorError::StorageError,
                _ => false,
            },
    {
        let ghost c = old(self).cache;
        let ghost rows0 = voter_apy_views(rows@);
        let ghost hyp = warm(c, *info) && rows0 == spec_hist_rows(c, *info, 4);
        let cur: u64 = info.epoch;
        let rewards: Vec<RawReward> = match self.cache.get_epoch_rewards(cur) {
            Ok(Some(v)) => v,
            Ok(None) => {
                proof {
                    if hyp {
                        assert(c.has_epoch_rewards(cur));
                        assert(false);
                    }
                }
                self.phase = Phase::Idle;
                return TickAction::Failed { error: MonitorError::NoCurrentRewards };
            },
            Err(e) => {
                proof {
                    if hyp {
                        assert(e == CacheError::StorageError) by {
                            if e == CacheError::SerializationError {
                                assert(c.spec_epoch_rewards(cur) is Some);
                            }
                        }
                    }
                }
                self.phase = Phase::Idle;
                return TickAction::Failed { error: e.to_monitor_error() };
            },
        };
        let staking: Vec<StakingReward> = filter_staking_rewards(&rewards);
        let cached: Vec<ApyEntry> = match self.cache.get_epoch_data(cur) {
            Ok(Some(t)) => t,
            Ok(None) => {
                proof {
                    if hyp {
                        assert(c.has_epoch_apy(cur));
                        assert(false);
                    }
                    assert(spec_table_or_empty(c, cur) =~= Seq::<ApyEntryV>::empty());
                }
                Vec::new()
            },
            Err(e) => {
                proof {
                    if hyp {
                        assert(e == CacheError::StorageError) by {
                            if e == CacheError::SerializationError {
                                assert(c.spec_epoch_apy(cur) is Some);
                            }
                        }
                    }
                }
                self.phase = Phase::Idle;
                return TickAction::Failed { error: e.to_monitor_error() };
            },
        };
        let to_query: Vec<StakingReward> = compute_to_query(&staking, &cached);
        let mut rows = rows;
        merge_epoch_apys(&mut rows, &cached, 4);
        proof {
            assert(apy_views(cached@) == spec_table_or_empty(c, cur));
            if hyp {
                assert(c.spec_epoch_rewards(cur) == Some(reward_views(rewards@)));
                assert(apy_views(cached@) == spec_table_or_empty(c, cur));
                assert(voter_apy_views(rows@) == spec_warm_rows(c, *info));
                assert(staking_views(staking@) == spec_staking_rewards(
                    c.spec_epoch_rewards(cur).unwrap(),
                ));
                lemma_to_query_empty(staking_views(staking@), apy_views(cached@), 0);
                assert(staking_views(to_query@).len() == 0);
            }
        }
        if to_query.len() == 0 {
            let pka: Vec<ApyEntry> = Vec::new();
            proof {
                assert(apy_views(pka@) =~= Seq::<ApyEntryV>::empty());
            }
            self.finish(info, rows, pka)
        } else {
            proof {
                if hyp {
                    assert(staking_views(to_query@).len() == to_query@.len());
                    assert(false);
                }
            }
            let cur_st = CurrentSt { to_query, next: 0, seen: Vec::new(), pka: Vec::new() };
            proof {
                assert(apy_views(cur_st.pka@) =~= Seq::<ApyEntryV>::empty());
            }
            self.emit_chunk(info, rows, cur_st)
        }
    }

    /// Merges the pass's accumulated yield table and exports: the
    /// current and window yields per voter, and the deduplicated voting
    /// rewards, which must not be empty.
    fn finish(&mut self, info: &EpochInfo, rows: Vec<VoterApy>, pka: Vec<ApyEntry>) -> (r:
        TickAction)
        requires
            spec_wf_info(*info),
            rows_wf(voter_apy_views(rows@)),
        ensures
            final(self).wf(),
            final(self).cache == old(self).cache,
            action_matches_phase(*final(self), r),
            accounts_suspension_ok(*final(self), r),
            finish_rel(old(self).cache, *info, voter_apy_views(rows@), apy_views(pka@), r),
            warm(old(self).cache, *info) && voter_apy_views(rows@) == spec_warm_rows(
                old(self).cache,
                *info,
            ) && apy_views(pka@) == Seq::<ApyEntryV>::empty() ==> match r {
                TickAction::Done { output } => voter_apy_views(output.staking@) == spec_warm_rows(
                    old(self).cache,
                    *info,
                ) && validator_views(output.validators@) == spec_warm_validators(
                    old(self).cache,
                    *info,
                ),
                TickAction::Failed { error } => error == MonitorError::StorageError,
                _ => false,
            },
    {
        let ghost c = old(self).cache;
        let ghost rows0 = voter_apy_views(rows@);
        let ghost hyp = warm(c, *info) && rows0 == spec_warm_rows(c, *info) && apy_views(pka@)
            == Seq::<ApyEntryV>::empty();
        let mut rows = rows;
        merge_epoch_apys(&mut rows, &pka, 4);
        proof {
            if hyp {
                assert(spec_merge_table(rows0, apy_views(pka@), 4) == rows0);
            }
        }
        let cur: u64 = info.epoch;
        let rewards: Vec<RawReward> = match self.cache.get_epoch_rewards(cur) {
            Ok(Some(v)) => v,
            Ok(None) => {
                proof {
                    if hyp {
                        assert(c.has_epoch_rewards(cur));
                        assert(false);
                    }
                }
                self.phase = Phase::Idle;
                return TickAction::Failed { error: MonitorError::NoCurrentRewards };
            },
            Err(e) => {
                proof {
                    if hyp {
                        assert(e == CacheError::StorageError) by {
                            if e == CacheError::SerializationError {
                                assert(c.spec_epoch_rewards(cur) is Some);
                            }
                        }
                    }
                }
                self.phase = Phase::Idle;
                return TickAction::Failed { error: e.to_monitor_error() };
            },
        };
        let validators: Vec<ValidatorReward> = calculate_validator_rewards(&rewards);
        self.phase = Phase::Idle;
        if validators.len() == 0 {
            proof {
                if hyp {
                    assert(c.spec_epoch_rewards(cur) == Some(reward_views(rewards@)));
                    assert(validator_views(validators@).len() == 0);
                    assert(false);
                }
            }
            TickAction::Failed { error: MonitorError::NoCurrentRewards }
        } else {
            proof {
                if hyp {
                    assert(c.spec_epoch_rewards(cur) == Some(reward_views(rewards@)));
                }
            }
            TickAction::Done { output: TickOutput { staking: rows, validators } }
        }
    }

    /// Builds and asks for the next account batch, or finishes the pass.
    fn emit_chunk(&mut self, info: &EpochInfo, rows: Vec<VoterApy>, cur: CurrentSt) -> (r:
        TickAction)
        requires
            spec_wf_info(*info),
            rows_wf(voter_apy_views(rows@)),
            cur.next <= cur.to_query@.len(),
        ensures
            final(self).wf(),
            final(self).cache == old(self).cache,
            action_matches_phase(*final(self), r),
            accounts_suspension_ok(*final(self), r),
            chunk_step_rel(
                old(self).cache,
                *info,
                voter_apy_views(rows@),
                staking_views(cur.to_query@),
                cur.next as int,
                apy_views(cur.pka@),
                r,
            ),
            cur.next < cur.to_query@.len() ==> (final(self).phase matches Phase::AwaitAccounts {
                info: i2,
                rows: r2,
                cur: c2,
                chunk,
            } && i2 == *info && r2 == rows && c2.to_query == cur.to_query && c2.next == cur.next
                && c2.seen == cur.seen && c2.pka == cur.pka && staking_views(chunk@)
                == staking_views(cur.to_query@).subrange(
                cur.next as int,
                cur.next + (if cur.to_query@.len() - cur.next < ACCOUNTS_CHUNK as int {
                    cur.to_query@.len() - cur.next
                } else {
                    ACCOUNTS_CHUNK as int
                }),
            )),
    {
        let total: usize = cur.to_query.len();
        if cur.next >= total {
            proof {
                assert(staking_views(cur.to_query@).len() == cur.to_query@.len());
            }
            let CurrentSt { to_query: _, next: _, seen: _, pka } = cur;
            return self.finish(info, rows, pka);
        }
        let remaining: usize = total - cur.next;
        let take: usize = if remaining < ACCOUNTS_CHUNK {
            remaining
        } else {
            ACCOUNTS_CHUNK
        };
        let mut chunk: Vec<StakingReward> = Vec::new();
        let mut pubkeys: Vec<String> = Vec::new();
        let mut i: usize = 0;
        while i < take
            invariant
                total == cur.to_query@.len(),
                cur.next + take <= total,
                0 <= i <= take,
                chunk@.len() == i,
                pubkeys@.len() == i,
                forall|j: int|
                    0 <= j < i ==> #[trigger] chunk@[j]@ == cur.to_query@[cur.next + j]@,
                forall|j: int|
                    0 <= j < i ==> #[trigger] pubkeys@[j]@ == cur.to_query@[cur.next + j]@.pubkey,
            decreases take - i,
        {
            chunk.push(cur.to_query[cur.next + i].clone());
            pubkeys.push(cur.to_query[cur.next + i].pubkey.clone());
            i = i + 1;
        }
        proof {
            let tq = staking_views(cur.to_query@);
            let sub = tq.subrange(cur.next as int, cur.next + take);
            assert(staking_views(chunk@) =~= sub);
            assert(str_views(pubkeys@) =~= pubkeys_of(sub));
        }
        self.phase = Phase::AwaitAccounts { info: *info, rows, cur, chunk };
        TickAction::GetAccounts { pubkeys }
    }

    /// Exports reward metrics for the tick of `epoch_info`, as far as the
    /// cache allows; the surrounding process answers each returned action
    /// through `step` until the tick ends.
    ///
    /// A tick over a fully cached window completes at once, asking
    /// nothing of the node and leaving the cache untouched.  With the
    /// current epoch's rewards stored and decodable, the outcome is
    /// bound by `hist_walk_rel`: every action and error of the walk is
    /// the one the stored window dictates, with a storage failure the
    /// only other admitted outcome, since any read of the store may
    /// genuinely fail.
    pub fn export_rewards(&mut self, epoch_info: &EpochInfo) -> (r: TickAction)
        requires
            spec_wf_info(*epoch_info),
        ensures
            final(self).wf(),
            final(self).cache.rewards_map() == old(self).cache.rewards_map(),
            final(self).cache.apy_map() == old(self).cache.apy_map(),
            warm(old(self).cache, *epoch_info) ==> match r {
                TickAction::Done { output } => voter_apy_views(output.staking@) == spec_warm_rows(
                    old(self).cache,
                    *epoch_info,
                ) && validator_views(output.validators@) == spec_warm_validators(
                    old(self).cache,
                    *epoch_info,
                ),
                TickAction::Failed { error } => error == MonitorError::StorageError,
                _ => false,
            },
            !old(self).cache.has_epoch_rewards(epoch_info.epoch) ==> match r {
                TickAction::GetBlocks { start_slot, end_slot } => start_slot == epoch_info.epoch
                    * epoch_info.slots_in_epoch && end_slot == (
                if epoch_info.slot_index < SLOT_OFFSET {
                    None::<u64>
                } else {
                    Some((epoch_info.epoch * epoch_info.slots_in_epoch + SLOT_OFFSET) as u64)
                }) && (final(self).phase matches Phase::AwaitBlocks {
                    info: i2,
                    rows,
                    cont,
                    epoch: e2,
                    open_range,
                } && i2 == *epoch_info && voter_apy_views(rows@) == Seq::<VoterApyV>::empty()
                    && cont == Cont::Current && e2 == epoch_info.epoch && open_range == (
                epoch_info.slot_index < SLOT_OFFSET)),
                TickAction::Failed { error } => error == MonitorError::StorageError,
                _ => false,
            },
            old(self).cache.has_epoch_rewards(epoch_info.epoch) && old(
                self,
            ).cache.spec_epoch_rewards(epoch_info.epoch) is Some && !old(
                self,
            ).cache.has_epoch_rewards((epoch_info.epoch - 4) as u64) ==> match r {
                TickAction::GetBlocks { start_slot, end_slot } => start_slot == (epoch_info.epoch
                    - 4) * epoch_info.slots_in_epoch && end_slot == Some(
                    (start_slot + SLOT_OFFSET) as u64,
                ),
                TickAction::Failed { error } => error == MonitorError::StorageError,
                _ => false,
            },
            action_matches_phase(*final(self), r),
            accounts_suspension_ok(*final(self), r),
            old(self).cache.has_epoch_rewards(epoch_info.epoch) && old(
                self,
            ).cache.spec_epoch_rewards(epoch_info.epoch) is Some ==> hist_walk_rel(
                old(self).cache,
                *epoch_info,
                seq![],
                0,
                r,
            ),
            old(self).cache.has_epoch_rewards(epoch_info.epoch) && old(
                self,
            ).cache.spec_epoch_rewards(epoch_info.epoch) is None ==> (r matches
            TickAction::Failed { error } && (error == MonitorError::SerializationError || error
                == MonitorError::StorageError)),
    {
        let ghost c = old(self).cache;
        let info = *epoch_info;
        match self.get_rewards_for_epoch(info.epoch, &info) {
            Resolve::Fail { error } => {
                proof {
                    if warm(c, info) {
                        assert(c.has_epoch_rewards(info.epoch) && c.spec_epoch_rewards(
                            info.epoch,
                        ) is Some);
                    }
                }
                self.phase = Phase::Idle;
                TickAction::Failed { error }
            },
            Resolve::Miss { start_slot, end_slot } => {
                proof {
                    if warm(c, info) {
                        assert(c.has_epoch_rewards(info.epoch));
                        assert(false);
                    }
                }
                let open_range: bool = match end_slot {
                    None => true,
                    Some(_) => false,
                };
                self.phase = Phase::AwaitBlocks {
                    info,
                    rows: Vec::new(),
                    cont: Cont::Current,
                    epoch: info.epoch,
                    open_range,
                };
                TickAction::GetBlocks { start_slot, end_slot }
            },
            Resolve::Hit { rewards: _rewards } => {
                let rows: Vec<VoterApy> = Vec::new();
                proof {
                    assert(voter_apy_views(rows@) =~= Seq::<VoterApyV>::empty());
                    assert(voter_apy_views(rows@) == spec_hist_rows(c, info, 0));
                }
                self.fill_historical_epochs(&info, rows, 0)
            },
        }
    }

    /// Feeds the answer of the last asked action back into the machine
    /// and returns the next action.
    ///
    /// Each arm is bound below: block answers map to fixed outcomes, a
    /// rewards answer to the exact cache write and then the walk's
    /// relation, an accounts answer to the batch-processing spec, and a
    /// percents answer to the exact table write and the next batch step;
    /// the returned action always fits the suspended phase.
    pub fn step(&mut self, ev: TickEvent) -> (r: TickAction)
        requires
            old(self).wf(),
            old(self).expects(ev),
        ensures
            final(self).wf(),
            action_matches_phase(*final(self), r),
            accounts_suspension_ok(*final(self), r),
            (match (old(self).phase, ev) {
                (
                    Phase::AwaitBlocks { info, rows, cont, epoch, open_range },
                    TickEvent::Blocks { first_block },
                ) => {
                    &&& final(self).cache == old(self).cache
                    &&& match first_block {
                        Some(slot) => (r matches TickAction::GetBlockRewards { slot: s2 } && s2
                            == slot) && (final(self).phase matches Phase::AwaitBlockRewards {
                            info: i2,
                            rows: r2,
                            cont: c2,
                            epoch: e2,
                        } && i2 == info && r2 == rows && c2 == cont && e2 == epoch),
                        None => {
                            if open_range && epoch == info.epoch {
                                r matches TickAction::Done { output } && output.staking@.len()
                                    == 0 && output.validators@.len() == 0
                            } else if open_range {
                                r matches TickAction::Failed { error } && error
                                    == MonitorError::HistoricalGap
                            } else {
                                r matches TickAction::Failed { error } && error
                                    == MonitorError::MissingEpochData
                            }
                        },
                    }
                },
                (
                    Phase::AwaitBlockRewards { info, rows, cont, epoch },
                    TickEvent::BlockRewards { rewards },
                ) => {
                    &&& final(self).cache.apy_map() == old(self).cache.apy_map()
                    &&& ((r matches TickAction::Failed { error } && error
                        == MonitorError::StorageError) || {
                        &&& final(self).cache.rewards_map() == old(
                            self,
                        ).cache.rewards_map().insert(
                            crate::codec::spec_u64_be(epoch),
                            crate::codec::spec_enc_rewards_value(reward_views(rewards@)),
                        )
                        &&& hist_walk_rel(
                            final(self).cache,
                            info,
                            voter_apy_views(rows@),
                            match cont {
                                Cont::Current => 0,
                                Cont::Historical { merged } => merged as int,
                            },
                            r,
                        )
                    })
                },
                (
                    Phase::AwaitAccounts { info, rows, cur, chunk },
                    TickEvent::Accounts { accounts },
                ) => {
                    let pr = spec_process_chunk(
                        staking_views(chunk@),
                        outcome_views(accounts@),
                        0,
                        str_views(cur.seen@),
                        seq![],
                        seq![],
                    );
                    &&& final(self).cache.rewards_map() == old(self).cache.rewards_map()
                    &&& (pr is None ==> (r matches TickAction::Failed { error } && error
                        == MonitorError::SerializationError && final(self).cache == old(
                        self,
                    ).cache))
                    &&& (pr matches Some(t) ==> (t.2.len() > 0 ==> (final(self).cache == old(
                        self,
                    ).cache && (r matches TickAction::ComputeApys { inputs } && inputs@ == t.2)
                        && (final(self).phase matches Phase::AwaitApys {
                        info: i2,
                        rows: r2,
                        cur: c2,
                        inserts,
                        n_pending,
                    } && i2 == info && r2 == rows && c2.to_query == cur.to_query && c2.next
                        == cur.next + chunk@.len() && str_views(c2.seen@) == t.0 && c2.pka
                        == cur.pka && insert_views(inserts@) == t.1 && n_pending == t.2.len()))))
                    &&& (pr matches Some(t) ==> (t.2.len() == 0 ==> ((r matches
                    TickAction::Failed { error } && error == MonitorError::StorageError) || {
                        &&& final(self).cache.apy_map() == old(self).cache.apy_map().insert(
                            crate::codec::spec_u64_be(info.epoch),
                            crate::codec::spec_enc_apy_value(
                                spec_apply_inserts(apy_views(cur.pka@), t.1, Seq::<u64>::empty()),
                            ),
                        )
                        &&& chunk_step_rel(
                            final(self).cache,
                            info,
                            voter_apy_views(rows@),
                            staking_views(cur.to_query@),
                            cur.next + chunk@.len(),
                            spec_apply_inserts(apy_views(cur.pka@), t.1, Seq::<u64>::empty()),
                            r,
                        )
                    })))
                },
                (
                    Phase::AwaitApys { info, rows, cur, inserts, .. },
                    TickEvent::ApyResults { percents },
                ) => {
                    &&& final(self).cache.rewards_map() == old(self).cache.rewards_map()
                    &&& ((r matches TickAction::Failed { error } && error
                        == MonitorError::StorageError) || {
                        &&& final(self).cache.apy_map() == old(self).cache.apy_map().insert(
                            crate::codec::spec_u64_be(info.epoch),
                            crate::codec::spec_enc_apy_value(
                                spec_apply_inserts(
                                    apy_views(cur.pka@),
                                    insert_views(inserts@),
                                    percents@,
                                ),
                            ),
                        )
                        &&& chunk_step_rel(
                            final(self).cache,
                            info,
                            voter_apy_views(rows@),
                            staking_views(cur.to_query@),
                            cur.next as int,
                            spec_apply_inserts(
                                apy_views(cur.pka@),
                                insert_views(inserts@),
                                percents@,
                            ),
                            r,
                        )
                    })
                },
                _ => true,
            }),
    {
        let mut ph = Phase::Idle;
        core::mem::swap(&mut ph, &mut self.phase);
        match (ph, ev) {
            (
                Phase::AwaitBlocks { info, rows, cont, epoch, open_range },
                TickEvent::Blocks { first_block },
            ) => {
                match first_block {
                    Some(slot) => {
                        self.phase = Phase::AwaitBlockRewards { info, rows, cont, epoch };
                        TickAction::GetBlockRewards { slot }
                    },
                    None => {
                        if open_range {
                            if epoch == info.epoch {
                                // the epoch has not produced its first block yet
                                TickAction::Done {
                                    output: TickOutput {
                                        staking: Vec::new(),
                                        validators: Vec::new(),
                                    },
                                }
                            } else {
                                TickAction::Failed { error: MonitorError::HistoricalGap }
                            }
                        } else {
                            TickAction::Failed { error: MonitorError::MissingEpochData }
                        }
                    },
                }
            },
            (
                Phase::AwaitBlockRewards { info, rows, cont, epoch },
                TickEvent::BlockRewards { rewards },
            ) => {
                match self.cache.add_epoch_rewards(epoch, &rewards) {
                    Err(_) => {
                        self.phase = Phase::Idle;
                        TickAction::Failed { error: MonitorError::StorageError }
                    },
                    Ok(()) => {
                        match cont {
                            Cont::Current => self.fill_historical_epochs(&info, rows, 0),
                            Cont::Historical { merged } => {
                                let ghost c2 = self.cache;
                                proof {
                                    assert(c2.has_epoch_rewards(epoch) && c2.spec_epoch_rewards(
                                        epoch,
                                    ) == Some(reward_views(rewards@)));
                                }
                                if !check_addresses(&rewards) {
                                    self.phase = Phase::Idle;
                                    return TickAction::Failed {
                                        error: MonitorError::AddressParseError,
                                    };
                                }
                                let mut rows = rows;
                                match self.cache.get_epoch_data(epoch) {
                                    Err(e) => {
                                        self.phase = Phase::Idle;
                                        TickAction::Failed { error: e.to_monitor_error() }
                                    },
                                    Ok(table_opt) => {
                                        let slot: usize = merged as usize;
                                        match table_opt {
                                            Some(table) => {
                                                proof {
                                                    assert(apy_views(table@)
                                                        == spec_table_or_empty(c2, epoch));
                                                }
                                                merge_epoch_apys(&mut rows, &table, slot);
                                            },
                                            None => {
                                                proof {
                                                    assert(spec_table_or_empty(c2, epoch) =~= Seq::<
                                                        ApyEntryV,
                                                    >::empty());
                                                    assert(spec_merge_table(
                                                        voter_apy_views(rows@),
                                                        spec_table_or_empty(c2, epoch),
                                                        merged as int,
                                                    ) == voter_apy_views(rows@));
                                                }
                                            },
                                        }
                                        self.fill_historical_epochs(&info, rows, merged + 1)
                                    },
                                }
                            },
                        }
                    },
                }
            },
            (
                Phase::AwaitAccounts { info, rows, cur, chunk },
                TickEvent::Accounts { accounts },
            ) => {
                let mut cur = cur;
                let ghost seen0 = cur.seen@;
                let chunk_len: usize = chunk.len();
                match process_chunk(&chunk, &accounts, &mut cur.seen) {
                    Err(error) => {
                        self.phase = Phase::Idle;
                        TickAction::Failed { error }
                    },
                    Ok((inserts, inputs)) => {
                        proof {
                            lemma_process_chunk_credit_idx(
                                staking_views(chunk@),
                                outcome_views(accounts@),
                                0,
                                str_views(seen0),
                                seq![],
                                seq![],
                                str_views(cur.seen@),
                                insert_views(inserts@),
                                inputs@,
                            );
                            assert forall|k: int|
                                0 <= k < inserts@.len() && (#[trigger] inserts@[k]@).credited
                                    implies inserts@[k]@.credit_idx < inputs@.len() by {
                                assert(insert_views(inserts@)[k] == inserts@[k]@);
                            }
                        }
                        let _total_q: usize = cur.to_query.len();
                        cur.next = cur.next + chunk_len;
                        if inputs.len() == 0 {
                            let percents: Vec<u64> = Vec::new();
                            apply_inserts(&mut cur.pka, &inserts, &percents);
                            match self.cache.add_epoch_data(info.epoch, &cur.pka) {
                                Err(e) => {
                                    self.phase = Phase::Idle;
                                    TickAction::Failed { error: e.to_monitor_error() }
                                },
                                Ok(()) => self.emit_chunk(&info, rows, cur),
                            }
                        } else {
                            let n_pending: usize = inputs.len();
                            self.phase = Phase::AwaitApys { info, rows, cur, inserts, n_pending };
                            TickAction::ComputeApys { inputs }
                        }
                    },
                }
            },
            (
                Phase::AwaitApys { info, rows, cur, inserts, n_pending: _ },
                TickEvent::ApyResults { percents },
            ) => {
                let mut cur = cur;
                apply_inserts(&mut cur.pka, &inserts, &percents);
                match self.cache.add_epoch_data(info.epoch, &cur.pka) {
                    Err(e) => {
                        self.phase = Phase::Idle;
                        TickAction::Failed { error: e.to_monitor_error() }
                    },
                    Ok(()) => self.emit_chunk(&info, rows, cur),
                }
            },
            _ => {
                self.phase = Phase::Idle;
                TickAction::Failed { error: MonitorError::RpcError }
            },
        }
    }
}

/// Law: a tick over a fully cached window is idempotent.  It never asks
/// the node anything and never writes the cache, and two caches holding
/// the same entries drive a tick to the same exported values.
#[verifier::rlimit(50)]
pub proof fn lemma_tick_idempotent(c1: RewardsCache, c2: RewardsCache, info: EpochInfo)
    requires
        warm(c1, info),
        c1.rewards_map() == c2.rewards_map(),
        c1.apy_map() == c2.apy_map(),
    ensures
        warm(c2, info),
        spec_warm_rows(c1, info) == spec_warm_rows(c2, info),
        spec_warm_validators(c1, info) == spec_warm_validators(c2, info),
{
    assert forall|e: u64| #[trigger] c1.has_epoch_rewards(e) == c2.has_epoch_rewards(e) by {
        assert(c1.rewards_map().contains_key(crate::codec::spec_u64_be(e))
            == c2.rewards_map().contains_key(crate::codec::spec_u64_be(e)));
    }
    assert(forall|e: u64|
        #[trigger] c1.has_epoch_rewards(e) ==> c1.spec_epoch_rewards(e) == c2.spec_epoch_rewards(
            e,
        ));
    assert forall|e: u64| #[trigger] c1.has_epoch_apy(e) == c2.has_epoch_apy(e) by {
        assert(c1.apy_map().contains_key(crate::codec::spec_u64_be(e))
            == c2.apy_map().contains_key(crate::codec::spec_u64_be(e)));
    }
    assert(forall|e: u64|
        #[trigger] c1.has_epoch_apy(e) ==> c1.spec_epoch_apy(e) == c2.spec_epoch_apy(e));
    assert forall|e: u64| #[trigger] spec_table_or_empty(c1, e) == spec_table_or_empty(
        c2,
        e,
    ) by {
        assert(c1.has_epoch_apy(e) == c2.has_epoch_apy(e));
    }
    assert forall|k: int| 0 <= k <= 4 implies #[trigger] spec_hist_rows(c1, info, k)
        == spec_hist_rows(c2, info, k) by {
        lemma_hist_rows_eq(c1, c2, info, k);
    }
    let cur = info.epoch;
    assert forall|e: u64| cur - 4 <= e <= cur implies #[trigger] c2.has_epoch_rewards(e)
        && c2.spec_epoch_rewards(e) is Some by {
        assert(c1.has_epoch_rewards(e) && c1.spec_epoch_rewards(e) is Some);
    }
    assert forall|e: u64| cur - 4 <= e < cur implies spec_all_addresses_valid(
        (#[trigger] c2.spec_epoch_rewards(e)).unwrap(),
    ) by {
        assert(c1.has_epoch_rewards(e));
        assert(spec_all_addresses_valid(c1.spec_epoch_rewards(e).unwrap()));
    }
    assert forall|e: u64| cur - 4 <= e < cur && #[trigger] c2.has_epoch_apy(e) implies
    c2.spec_epoch_apy(e) is Some by {
        assert(c1.has_epoch_apy(e));
        assert(c1.spec_epoch_apy(e) is Some);
    }
    assert(c2.has_epoch_apy(cur) && c2.spec_epoch_apy(cur) is Some) by {
        assert(c1.has_epoch_apy(cur));
    }
    assert(c2.spec_epoch_rewards(cur) == c1.spec_epoch_rewards(cur)) by {
        assert(c1.has_epoch_rewards(cur));
    }
    assert(c2.spec_epoch_apy(cur) == c1.spec_epoch_apy(cur)) by {
        assert(c1.has_epoch_apy(cur));
    }
    assert(warm(c2, info));
    assert(spec_warm_rows(c1, info) == spec_warm_rows(c2, info)) by {
        lemma_hist_rows_eq(c1, c2, info, 4);
        assert(spec_table_or_empty(c1, cur) == spec_table_or_empty(c2, cur));
    }
}

/// Equal cache contents give equal historical rows.
proof fn lemma_hist_rows_eq(c1: RewardsCache, c2: RewardsCache, info: EpochInfo, k: int)
    requires
        c1.rewards_map() == c2.rewards_map(),
        c1.apy_map() == c2.apy_map(),
    ensures
        spec_hist_rows(c1, info, k) == spec_hist_rows(c2, info, k),
    decreases k,
{
    if k > 0 {
        lemma_hist_rows_eq(c1, c2, info, k - 1);
    }
}


} // verus!
