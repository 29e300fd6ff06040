use staking_rewards_exporter::caching::RewardsCache;
use staking_rewards_exporter::codec::{decode_rewards, encode_rewards, u64_to_be_bytes};
use staking_rewards_exporter::config::Whitelist;
use staking_rewards_exporter::errors::CacheError;
use staking_rewards_exporter::kv::KvTree;
use staking_rewards_exporter::types::{ApyEntry, RawReward, RewardKind};

fn temp_cache() -> RewardsCache {
    let db = sled::Config::new().temporary(true).open().unwrap();
    let rewards_tree = db.open_tree("epoch_rewards_credit_cache").unwrap();
    let account_tree = db.open_tree("account_cache").unwrap();
    RewardsCache::new(KvTree::new(rewards_tree), KvTree::new(account_tree))
}

fn reward(pubkey: &str, lamports: i64, post_balance: u64, kind: RewardKind) -> RawReward {
    RawReward { pubkey: pubkey.to_string(), lamports, post_balance, kind }
}

fn reward_tuples(rs: &[RawReward]) -> Vec<(String, i64, u64, u8)> {
    rs.iter()
        .map(|r| {
            let k = match r.kind {
                RewardKind::Staking => 0u8,
                RewardKind::Voting => 1,
                RewardKind::Other => 2,
            };
            (r.pubkey.clone(), r.lamports, r.post_balance, k)
        })
        .collect()
}

fn table_tuples(t: &[ApyEntry]) -> Vec<(String, u64)> {
    t.iter().map(|e| (e.voter.clone(), e.percent_bits)).collect()
}

#[test]
fn epoch_rewards_round_trip() {
    let mut cache = temp_cache();
    let records = vec![
        reward("stake-account-one", 1_000_000, 101_000_000, RewardKind::Staking),
        reward("voter-one", -25, 7_777, RewardKind::Voting),
        reward("somebody", 0, 0, RewardKind::Other),
    ];
    cache.add_epoch_rewards(260, &records).unwrap();
    let back = cache.get_epoch_rewards(260).unwrap().unwrap();
    assert_eq!(reward_tuples(&records), reward_tuples(&back));
}

#[test]
fn epoch_rewards_other_epochs_untouched() {
    let mut cache = temp_cache();
    let first = vec![reward("aaa", 5, 10, RewardKind::Voting)];
    let second = vec![reward("bbb", 7, 14, RewardKind::Staking)];
    cache.add_epoch_rewards(1, &first).unwrap();
    cache.add_epoch_rewards(2, &second).unwrap();
    assert_eq!(
        reward_tuples(&cache.get_epoch_rewards(1).unwrap().unwrap()),
        reward_tuples(&first)
    );
    assert_eq!(
        reward_tuples(&cache.get_epoch_rewards(2).unwrap().unwrap()),
        reward_tuples(&second)
    );
    assert!(cache.get_epoch_rewards(3).unwrap().is_none());
}

#[test]
fn epoch_apy_put_get_and_full_overwrite() {
    let mut cache = temp_cache();
    let first = vec![
        ApyEntry { voter: "va".to_string(), percent_bits: 4.5f64.to_bits() },
        ApyEntry { voter: "vb".to_string(), percent_bits: 6.25f64.to_bits() },
    ];
    cache.add_epoch_data(42, &first).unwrap();
    let got = cache.get_epoch_data(42).unwrap().unwrap();
    assert_eq!(table_tuples(&first), table_tuples(&got));

    // a second write for the same epoch replaces the table whole
    let second = vec![ApyEntry { voter: "vc".to_string(), percent_bits: 1.0f64.to_bits() }];
    cache.add_epoch_data(42, &second).unwrap();
    let got = cache.get_epoch_data(42).unwrap().unwrap();
    assert_eq!(table_tuples(&second), table_tuples(&got));
}

#[test]
fn corrupt_entry_is_a_serialization_error() {
    let db = sled::Config::new().temporary(true).open().unwrap();
    let rewards_tree = db.open_tree("epoch_rewards_credit_cache").unwrap();
    let account_tree = db.open_tree("account_cache").unwrap();
    rewards_tree.insert(9u64.to_be_bytes(), b"garbage".to_vec()).unwrap();
    let cache = RewardsCache::new(KvTree::new(rewards_tree), KvTree::new(account_tree));
    assert_eq!(cache.get_epoch_rewards(9).unwrap_err(), CacheError::SerializationError);
}

#[test]
fn epoch_keys_are_big_endian() {
    let key = u64_to_be_bytes(0x0102_0304_0506_0708);
    assert_eq!(key, vec![1, 2, 3, 4, 5, 6, 7, 8]);
    assert_eq!(u64_to_be_bytes(260), 260u64.to_be_bytes().to_vec());
}

#[test]
fn reward_codec_round_trip() {
    let records = vec![
        reward("", i64::MIN, u64::MAX, RewardKind::Other),
        reward("Grüße-βüt-ütf8", -1, 1, RewardKind::Voting),
        reward("plain", 123, 456, RewardKind::Staking),
    ];
    let bytes = encode_rewards(&records);
    let back = decode_rewards(&bytes).unwrap();
    assert_eq!(reward_tuples(&records), reward_tuples(&back));
}

#[test]
fn reward_codec_rejects_garbage() {
    assert!(decode_rewards(&b"nonsense".to_vec()).is_none());
    assert!(decode_rewards(&Vec::new()).is_none());
    // trailing bytes after a well-formed list are refused
    let mut bytes = encode_rewards(&vec![reward("x", 1, 2, RewardKind::Staking)]);
    bytes.push(0);
    assert!(decode_rewards(&bytes).is_none());
}

#[test]
fn whitelist_empty_admits_everything() {
    let wl = Whitelist(Vec::new());
    assert!(wl.contains("anyone"));
    assert!(wl.contains(""));
}

#[test]
fn whitelist_nonempty_admits_only_listed() {
    let wl = Whitelist(vec!["va".to_string(), "vb".to_string()]);
    assert!(wl.contains("va"));
    assert!(wl.contains("vb"));
    assert!(!wl.contains("vc"));
    assert!(!wl.contains(""));
}
