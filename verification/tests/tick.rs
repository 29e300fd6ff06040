use staking_rewards_exporter::caching::RewardsCache;
use staking_rewards_exporter::errors::MonitorError;
use staking_rewards_exporter::kv::KvTree;
use staking_rewards_exporter::monitor::{
    apply_inserts, calculate_validator_rewards, filter_staking_rewards, is_valid_pubkey,
    process_chunk, AccountOutcome, RewardsMonitor, TickAction, TickEvent, TickOutput,
};
use staking_rewards_exporter::types::{
    ApyEntry, EpochInfo, RawReward, RewardKind, StakingReward,
};

const VOTER_PK: &str = "Vote111111111111111111111111111111111111111";
const STAKE_PK: &str = "Stake11111111111111111111111111111111111111";
const SYSTEM_PK: &str = "11111111111111111111111111111111";

fn temp_monitor() -> RewardsMonitor {
    let db = sled::Config::new().temporary(true).open().unwrap();
    let rewards_tree = db.open_tree("epoch_rewards_credit_cache").unwrap();
    let account_tree = db.open_tree("account_cache").unwrap();
    RewardsMonitor::new(RewardsCache::new(KvTree::new(rewards_tree), KvTree::new(account_tree)))
}

fn info(epoch: u64, slot_index: u64) -> EpochInfo {
    EpochInfo { epoch, slot_index, slots_in_epoch: 432 }
}

fn voting(pubkey: &str, post_balance: u64) -> RawReward {
    RawReward { pubkey: pubkey.to_string(), lamports: 5, post_balance, kind: RewardKind::Voting }
}

fn staking(pubkey: &str, lamports: i64, post_balance: u64) -> RawReward {
    RawReward { pubkey: pubkey.to_string(), lamports, post_balance, kind: RewardKind::Staking }
}

fn entry(voter: &str, percent: f64) -> ApyEntry {
    ApyEntry { voter: voter.to_string(), percent_bits: percent.to_bits() }
}

fn staking_rows(out: &TickOutput) -> Vec<(String, u64, Vec<u64>)> {
    out.staking
        .iter()
        .map(|v| (v.voter.clone(), v.current_apy_bits, v.window_bits.clone()))
        .collect()
}

fn validator_rows(out: &TickOutput) -> Vec<(String, u64)> {
    out.validators.iter().map(|v| (v.voter.clone(), v.lamports)).collect()
}

#[test]
fn young_epoch_without_block_is_a_quiet_tick() {
    let mut monitor = temp_monitor();
    let inf = info(100, 5);
    match monitor.export_rewards(&inf) {
        TickAction::GetBlocks { start_slot, end_slot } => {
            assert_eq!(start_slot, 100 * 432);
            assert!(end_slot.is_none());
        },
        _ => panic!("expected an open-ended block query"),
    }
    match monitor.step(TickEvent::Blocks { first_block: None }) {
        TickAction::Done { output } => {
            assert!(output.staking.is_empty());
            assert!(output.validators.is_empty());
        },
        _ => panic!("expected a quiet tick"),
    }
}

#[test]
fn older_epoch_gets_a_bounded_range() {
    let mut monitor = temp_monitor();
    let inf = info(100, 25);
    match monitor.export_rewards(&inf) {
        TickAction::GetBlocks { start_slot, end_slot } => {
            assert_eq!(start_slot, 100 * 432);
            assert_eq!(end_slot, Some(100 * 432 + 20));
        },
        _ => panic!("expected a bounded block query"),
    }
}

#[test]
fn missing_historical_epoch_fails_the_tick() {
    let mut monitor = temp_monitor();
    let inf = info(100, 50);
    monitor.cache.add_epoch_rewards(100, &vec![voting(VOTER_PK, 9_000)]).unwrap();
    match monitor.export_rewards(&inf) {
        TickAction::GetBlocks { start_slot, end_slot } => {
            assert_eq!(start_slot, 96 * 432);
            assert_eq!(end_slot, Some(96 * 432 + 20));
        },
        _ => panic!("expected a historical block query"),
    }
    match monitor.step(TickEvent::Blocks { first_block: None }) {
        TickAction::Failed { error } => assert_eq!(error, MonitorError::MissingEpochData),
        _ => panic!("expected the tick to fail"),
    }
}

fn fill_warm_cache(monitor: &mut RewardsMonitor) {
    for e in 96..=100u64 {
        monitor.cache.add_epoch_rewards(e, &vec![voting(VOTER_PK, 9_000)]).unwrap();
    }
    monitor.cache.add_epoch_data(96, &vec![entry("va", 10.0)]).unwrap();
    monitor.cache.add_epoch_data(100, &vec![entry("va", 20.0)]).unwrap();
}

#[test]
fn lookback_window_gathers_five_epochs() {
    let mut monitor = temp_monitor();
    fill_warm_cache(&mut monitor);
    let out = match monitor.export_rewards(&info(100, 50)) {
        TickAction::Done { output } => output,
        _ => panic!("expected a completed tick"),
    };
    assert_eq!(
        staking_rows(&out),
        vec![(
            "va".to_string(),
            20.0f64.to_bits(),
            vec![10.0f64.to_bits(), 0, 0, 0, 20.0f64.to_bits()],
        )]
    );
    assert_eq!(validator_rows(&out), vec![(VOTER_PK.to_string(), 9_000)]);

    // the averaging the exporting process performs over the window
    let duration = 3.0f64;
    let total: f64 = out.staking[0]
        .window_bits
        .iter()
        .map(|b| f64::from_bits(*b) * duration)
        .sum();
    let average = total / (5.0 * duration);
    assert_eq!(average, 6.0);
    assert_eq!(f64::from_bits(out.staking[0].current_apy_bits), 20.0);
}

#[test]
fn warm_tick_is_idempotent() {
    let mut monitor = temp_monitor();
    fill_warm_cache(&mut monitor);
    let first = match monitor.export_rewards(&info(100, 50)) {
        TickAction::Done { output } => output,
        _ => panic!("first tick should complete without querying the node"),
    };
    let second = match monitor.export_rewards(&info(100, 50)) {
        TickAction::Done { output } => output,
        _ => panic!("second tick should complete without querying the node"),
    };
    assert_eq!(staking_rows(&first), staking_rows(&second));
    assert_eq!(validator_rows(&first), validator_rows(&second));
}

#[test]
fn duplicate_delegations_credit_the_voter_once() {
    let chunk = vec![
        StakingReward { pubkey: STAKE_PK.to_string(), lamports: 1_000, post_balance: 2_000 },
        StakingReward { pubkey: SYSTEM_PK.to_string(), lamports: 500, post_balance: 1_500 },
    ];
    let outs = vec![
        AccountOutcome::Delegated { voter: "va".to_string() },
        AccountOutcome::Delegated { voter: "va".to_string() },
    ];
    let mut seen: Vec<String> = Vec::new();
    let (inserts, inputs) = process_chunk(&chunk, &outs, &mut seen).unwrap();
    assert_eq!(inserts.len(), 2);
    assert!(inserts[0].credited);
    assert!(!inserts[1].credited);
    // only one yield evaluation is requested for the voter
    assert_eq!(inputs.len(), 1);
    assert_eq!(inputs[0].lamports, 1_000);
    assert_eq!(inputs[0].post_balance, 2_000);
    assert_eq!(seen, vec!["va".to_string()]);

    let mut pka: Vec<ApyEntry> = Vec::new();
    apply_inserts(&mut pka, &inserts, &vec![42u64]);
    // the later duplicate overwrites the credited percent with zero
    assert_eq!(pka.len(), 1);
    assert_eq!(pka[0].voter, "va");
    assert_eq!(pka[0].percent_bits, 0);
}

#[test]
fn non_positive_delta_is_not_credited() {
    let chunk = vec![
        StakingReward { pubkey: STAKE_PK.to_string(), lamports: 0, post_balance: 2_000 },
        StakingReward { pubkey: SYSTEM_PK.to_string(), lamports: -7, post_balance: 1_500 },
    ];
    let outs = vec![
        AccountOutcome::Delegated { voter: "va".to_string() },
        AccountOutcome::Delegated { voter: "vb".to_string() },
    ];
    let mut seen: Vec<String> = Vec::new();
    let (inserts, inputs) = process_chunk(&chunk, &outs, &mut seen).unwrap();
    assert_eq!(inserts.len(), 2);
    assert!(!inserts[0].credited);
    assert!(!inserts[1].credited);
    assert!(inputs.is_empty());
    assert!(seen.is_empty());
}

#[test]
fn missing_and_undelegated_accounts_are_dropped() {
    let chunk = vec![
        StakingReward { pubkey: STAKE_PK.to_string(), lamports: 10, post_balance: 20 },
        StakingReward { pubkey: SYSTEM_PK.to_string(), lamports: 10, post_balance: 20 },
    ];
    let outs = vec![AccountOutcome::Missing, AccountOutcome::Undelegated];
    let mut seen: Vec<String> = Vec::new();
    let (inserts, inputs) = process_chunk(&chunk, &outs, &mut seen).unwrap();
    assert!(inserts.is_empty());
    assert!(inputs.is_empty());
}

fn fill_query_cache(monitor: &mut RewardsMonitor) {
    for e in 96..100u64 {
        monitor.cache.add_epoch_rewards(e, &vec![voting(VOTER_PK, 9_000)]).unwrap();
    }
    monitor
        .cache
        .add_epoch_rewards(
            100,
            &vec![voting(VOTER_PK, 9_000), staking(STAKE_PK, 1_000_000, 101_000_000)],
        )
        .unwrap();
}

#[test]
fn undecodable_account_fails_the_tick() {
    let mut monitor = temp_monitor();
    fill_query_cache(&mut monitor);
    match monitor.export_rewards(&info(100, 50)) {
        TickAction::GetAccounts { pubkeys } => {
            assert_eq!(pubkeys, vec![STAKE_PK.to_string()]);
        },
        _ => panic!("expected an account query"),
    }
    match monitor.step(TickEvent::Accounts { accounts: vec![AccountOutcome::DecodeFailed] }) {
        TickAction::Failed { error } => assert_eq!(error, MonitorError::SerializationError),
        _ => panic!("expected the tick to fail"),
    }
}

#[test]
fn queried_delegation_flows_into_the_export() {
    let mut monitor = temp_monitor();
    fill_query_cache(&mut monitor);
    match monitor.export_rewards(&info(100, 50)) {
        TickAction::GetAccounts { pubkeys } => {
            assert_eq!(pubkeys, vec![STAKE_PK.to_string()]);
        },
        _ => panic!("expected an account query"),
    }
    let action = monitor.step(TickEvent::Accounts {
        accounts: vec![AccountOutcome::Delegated { voter: "va".to_string() }],
    });
    match action {
        TickAction::ComputeApys { inputs } => {
            assert_eq!(inputs.len(), 1);
            assert_eq!(inputs[0].lamports, 1_000_000);
            assert_eq!(inputs[0].post_balance, 101_000_000);
        },
        _ => panic!("expected a yield evaluation request"),
    }
    let bits = 7.5f64.to_bits();
    let out = match monitor.step(TickEvent::ApyResults { percents: vec![bits] }) {
        TickAction::Done { output } => output,
        _ => panic!("expected a completed tick"),
    };
    assert_eq!(
        staking_rows(&out),
        vec![("va".to_string(), bits, vec![0, 0, 0, 0, bits])]
    );
    // the accumulated table was persisted for the current epoch
    let table = monitor.cache.get_epoch_data(100).unwrap().unwrap();
    assert_eq!(table.len(), 1);
    assert_eq!(table[0].voter, "va");
    assert_eq!(table[0].percent_bits, bits);
}

#[test]
fn compounding_formula_scenario() {
    let mut monitor = temp_monitor();
    fill_query_cache(&mut monitor);
    // reward of 1_000_000 lamports leaving a balance of 101_000_000
    match monitor.export_rewards(&info(100, 50)) {
        TickAction::GetAccounts { .. } => {},
        _ => panic!("expected an account query"),
    }
    let inputs = match monitor.step(TickEvent::Accounts {
        accounts: vec![AccountOutcome::Delegated { voter: "va".to_string() }],
    }) {
        TickAction::ComputeApys { inputs } => inputs,
        _ => panic!("expected a yield evaluation request"),
    };
    assert_eq!(inputs[0].lamports, 1_000_000);
    assert_eq!(inputs[0].post_balance, 101_000_000);

    // the evaluation the exporting process performs, step by step
    let duration = f64::from_bits(staking_rewards_exporter::monitor::EPOCH_DURATION_DAYS_BITS);
    assert_eq!(duration, 3.0);
    let prev_balance = inputs[0].post_balance - inputs[0].lamports;
    assert_eq!(prev_balance, 100_000_000);
    let epoch_rate = inputs[0].lamports as f64 / prev_balance as f64;
    assert_eq!(epoch_rate, 0.01);
    let apr = epoch_rate / duration * 365.0;
    assert!((apr - 0.01 / 3.0 * 365.0).abs() < 1e-12);
    let epochs_in_year = 365.0 / duration;
    let apy_percent = (f64::powf(1.0 + apr / epochs_in_year, epochs_in_year) - 1.0) * 100.0;
    assert!((apy_percent - 235.55764945923937).abs() < 1e-6);

    let bits = apy_percent.to_bits();
    let out = match monitor.step(TickEvent::ApyResults { percents: vec![bits] }) {
        TickAction::Done { output } => output,
        _ => panic!("expected a completed tick"),
    };
    assert_eq!(out.staking.len(), 1);
    assert_eq!(out.staking[0].voter, "va");
    assert_eq!(out.staking[0].current_apy_bits, bits);
}

#[test]
fn cached_addresses_are_not_queried_again() {
    let mut monitor = temp_monitor();
    fill_query_cache(&mut monitor);
    // the stored table already holds the stake address, so no query goes out
    monitor.cache.add_epoch_data(100, &vec![entry(STAKE_PK, 3.25)]).unwrap();
    let out = match monitor.export_rewards(&info(100, 50)) {
        TickAction::Done { output } => output,
        _ => panic!("expected a completed tick without queries"),
    };
    assert_eq!(
        staking_rows(&out),
        vec![(STAKE_PK.to_string(), 3.25f64.to_bits(), vec![0, 0, 0, 0, 3.25f64.to_bits()])]
    );
}

#[test]
fn staking_only_epoch_fails_validator_export() {
    let mut monitor = temp_monitor();
    for e in 96..100u64 {
        monitor.cache.add_epoch_rewards(e, &vec![voting(VOTER_PK, 9_000)]).unwrap();
    }
    monitor
        .cache
        .add_epoch_rewards(100, &vec![staking(STAKE_PK, 1_000, 2_000)])
        .unwrap();
    monitor.cache.add_epoch_data(100, &vec![entry(STAKE_PK, 1.0)]).unwrap();
    match monitor.export_rewards(&info(100, 50)) {
        TickAction::Failed { error } => assert_eq!(error, MonitorError::NoCurrentRewards),
        _ => panic!("expected the tick to fail"),
    }
}

#[test]
fn malformed_historical_address_fails_the_tick() {
    let mut monitor = temp_monitor();
    monitor.cache.add_epoch_rewards(100, &vec![voting(VOTER_PK, 9_000)]).unwrap();
    monitor.cache.add_epoch_rewards(96, &vec![voting("not@an.address", 1)]).unwrap();
    match monitor.export_rewards(&info(100, 50)) {
        TickAction::Failed { error } => assert_eq!(error, MonitorError::AddressParseError),
        _ => panic!("expected the tick to fail"),
    }
}

#[test]
fn validator_rewards_deduplicate_equal_pairs() {
    let rewards = vec![
        voting(VOTER_PK, 10),
        voting(VOTER_PK, 10),
        voting(VOTER_PK, 11),
        staking(STAKE_PK, 1, 2),
    ];
    let out = calculate_validator_rewards(&rewards);
    let pairs: Vec<(String, u64)> = out.iter().map(|v| (v.voter.clone(), v.lamports)).collect();
    assert_eq!(
        pairs,
        vec![(VOTER_PK.to_string(), 10), (VOTER_PK.to_string(), 11)]
    );
}

#[test]
fn staking_filter_drops_malformed_addresses() {
    let rewards = vec![
        staking(STAKE_PK, 7, 70),
        staking("definitely not base58 %%%", 8, 80),
        voting(VOTER_PK, 9),
    ];
    let out = filter_staking_rewards(&rewards);
    assert_eq!(out.len(), 1);
    assert_eq!(out[0].pubkey, STAKE_PK);
    assert_eq!(out[0].lamports, 7);
    assert_eq!(out[0].post_balance, 70);
}

#[test]
fn address_validity_follows_the_chain_format() {
    assert!(is_valid_pubkey(&SYSTEM_PK.to_string()));
    assert!(is_valid_pubkey(&VOTER_PK.to_string()));
    assert!(!is_valid_pubkey(&"l0IO".to_string()));
    assert!(!is_valid_pubkey(&"".to_string()));
    assert!(!is_valid_pubkey(&"way way way way too long to be a base58 account address".to_string()));
}


#[test]
fn seen_voters_span_account_batches() {
    let mut monitor = temp_monitor();
    for e in 96..100u64 {
        monitor.cache.add_epoch_rewards(e, &vec![voting(VOTER_PK, 9_000)]).unwrap();
    }
    // 101 stake accounts force two batches of the batch limit 100
    let mut rewards = vec![voting(VOTER_PK, 9_000)];
    for i in 0..101u8 {
        let pk = solana_pubkey::Pubkey::new_from_array([i; 32]).to_string();
        rewards.push(staking(&pk, 10, 20));
    }
    monitor.cache.add_epoch_rewards(100, &rewards).unwrap();

    let first_keys = match monitor.export_rewards(&info(100, 50)) {
        TickAction::GetAccounts { pubkeys } => pubkeys,
        _ => panic!("expected the first account batch"),
    };
    assert_eq!(first_keys.len(), 100);

    let all_va = |n: usize| -> Vec<AccountOutcome> {
        (0..n).map(|_| AccountOutcome::Delegated { voter: "va".to_string() }).collect()
    };
    // in the first batch only the first delegation is credited
    let inputs = match monitor.step(TickEvent::Accounts { accounts: all_va(100) }) {
        TickAction::ComputeApys { inputs } => inputs,
        _ => panic!("expected one yield evaluation"),
    };
    assert_eq!(inputs.len(), 1);

    let second = monitor.step(TickEvent::ApyResults { percents: vec![5.0f64.to_bits()] });
    let second_keys = match second {
        TickAction::GetAccounts { pubkeys } => pubkeys,
        _ => panic!("expected the second account batch"),
    };
    assert_eq!(second_keys.len(), 1);

    // the voter was seen in the first batch, so the second batch asks
    // for no evaluation and the tick completes at once
    let out = match monitor.step(TickEvent::Accounts { accounts: all_va(1) }) {
        TickAction::Done { output } => output,
        _ => panic!("expected the tick to complete without another evaluation"),
    };
    // later zero contributions of the same voter overwrote the credit
    assert_eq!(staking_rows(&out), vec![("va".to_string(), 0, vec![0, 0, 0, 0, 0])]);
    let table = monitor.cache.get_epoch_data(100).unwrap().unwrap();
    assert_eq!(table.len(), 1);
    assert_eq!(table[0].voter, "va");
    assert_eq!(table[0].percent_bits, 0);
}
